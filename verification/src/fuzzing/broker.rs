//! Statistics that fuzzing instances report, and the lines that show them.

use vstd::prelude::*;

use super::greybox::feedback::CoverageType;
use crate::text::{dec, push_str, push_u64};

verus! {

/// A number in decimal with at least two digits (a leading zero below ten).
pub open spec fn two_digits(n: nat) -> Seq<char> {
    if n < 10 {
        "0"@ + dec(n)
    } else {
        dec(n)
    }
}

/// Elapsed seconds as `HHh:MMm:SSs` (hours not wrapped).
pub open spec fn clock_text(secs: nat) -> Seq<char> {
    two_digits(secs / 3600) + "h:"@ + two_digits((secs / 60) % 60) + "m:"@ + two_digits(secs % 60) + "s"@
}

fn push_two_digits(s: &mut String, n: u64)
    ensures
        final(s)@ == old(s)@ + two_digits(n as nat),
{
    if n < 10 {
        push_str(s, "0");
    }
    push_u64(s, n);
    assert(final(s)@ =~= old(s)@ + two_digits(n as nat));
}

fn push_clock(s: &mut String, secs: u64)
    ensures
        final(s)@ == old(s)@ + clock_text(secs as nat),
{
    push_two_digits(s, secs / (60 * 60));
    push_str(s, "h:");
    push_two_digits(s, (secs / 60) % 60);
    push_str(s, "m:");
    push_two_digits(s, secs % 60);
    push_str(s, "s");
    assert(final(s)@ =~= old(s)@ + clock_text(secs as nat));
}

/// What a blackbox instance reports.
#[derive(Debug, Clone, Copy, PartialEq, Eq, Structural)]
pub struct BlackBoxStats {
    pub crashes: u64,
    pub executions: u64,
}

impl BlackBoxStats {
    /// The report line, `secs` seconds after the start, with the executions
    /// per second already written as `rate`.
    pub fn display(&self, secs: u64, rate: &str) -> (r: String)
        ensures
            r@ == "crashes: "@ + dec(self.crashes as nat) + ", executions: "@ + dec(self.executions as nat)
                + ", exec/s: "@ + rate@ + ", time: "@ + clock_text(secs as nat),
    {
        let mut r = String::new();
        push_str(&mut r, "crashes: ");
        push_u64(&mut r, self.crashes);
        push_str(&mut r, ", executions: ");
        push_u64(&mut r, self.executions);
        push_str(&mut r, ", exec/s: ");
        push_str(&mut r, rate);
        push_str(&mut r, ", time: ");
        push_clock(&mut r, secs);
        assert(r@ =~= "crashes: "@ + dec(self.crashes as nat) + ", executions: "@ + dec(self.executions as nat)
            + ", exec/s: "@ + rate@ + ", time: "@ + clock_text(secs as nat));
        r
    }
}

/// What a greybox instance reports.
#[derive(Debug, Clone, Copy, PartialEq, Eq, Structural)]
pub struct GreyBoxStats {
    pub corpus_size: u64,
    pub fst_coverage_size: u64,
    pub fst_coverage_type: CoverageType,
    pub snd_coverage_size: u64,
    pub snd_coverage_type: CoverageType,
    pub crashes: u64,
    pub executions: u64,
}

/// The name of a kind of coverage.
pub open spec fn coverage_name(t: CoverageType) -> Seq<char> {
    match t {
        CoverageType::NoCoverage => "None"@,
        CoverageType::KCov => "KCov"@,
        CoverageType::LCov => "LCov"@,
    }
}

impl GreyBoxStats {
    /// The report line, `secs` seconds after the start, with the executions
    /// per second already written as `rate`.
    pub fn display(&self, secs: u64, rate: &str) -> (r: String)
        ensures
            r@ == "corpus: "@ + dec(self.corpus_size as nat) + ", coverage: "@ + dec(self.fst_coverage_size as nat)
                + " ("@ + coverage_name(self.fst_coverage_type) + ") + "@ + dec(self.snd_coverage_size as nat) + " ("@
                + coverage_name(self.snd_coverage_type) + "), crashes: "@ + dec(self.crashes as nat)
                + ", executions: "@ + dec(self.executions as nat) + ", exec/s: "@ + rate@ + ", time: "@ + clock_text(
                secs as nat,
            ),
    {
        let mut r = String::new();
        push_str(&mut r, "corpus: ");
        push_u64(&mut r, self.corpus_size);
        push_str(&mut r, ", coverage: ");
        push_u64(&mut r, self.fst_coverage_size);
        push_str(&mut r, " (");
        push_str(&mut r, self.fst_coverage_type.to_string().as_str());
        push_str(&mut r, ") + ");
        push_u64(&mut r, self.snd_coverage_size);
        push_str(&mut r, " (");
        push_str(&mut r, self.snd_coverage_type.to_string().as_str());
        push_str(&mut r, "), crashes: ");
        push_u64(&mut r, self.crashes);
        push_str(&mut r, ", executions: ");
        push_u64(&mut r, self.executions);
        push_str(&mut r, ", exec/s: ");
        push_str(&mut r, rate);
        push_str(&mut r, ", time: ");
        push_clock(&mut r, secs);
        assert(r@ =~= "corpus: "@ + dec(self.corpus_size as nat) + ", coverage: "@ + dec(self.fst_coverage_size as nat)
            + " ("@ + coverage_name(self.fst_coverage_type) + ") + "@ + dec(self.snd_coverage_size as nat) + " ("@
            + coverage_name(self.snd_coverage_type) + "), crashes: "@ + dec(self.crashes as nat) + ", executions: "@
            + dec(self.executions as nat) + ", exec/s: "@ + rate@ + ", time: "@ + clock_text(secs as nat));
        r
    }
}

} // verus!
