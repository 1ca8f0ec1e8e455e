//! The outcomes of test runs, and of pairs of test runs.

use vstd::prelude::*;

use crate::abstract_fs::trace::{Trace, TraceDiff};
use crate::dash::FileDiff;
use crate::path::LocalPath;
use super::objective::trace::{diffs_view as trace_diffs_view, trace_diff_spec, TraceObjective};

verus! {

/// A test that ran to its end.
pub struct Completed {
    pub stdout: String,
    pub stderr: String,
    /// Directory with the output files of the test.
    pub dir: LocalPath,
}

impl Completed {
    pub fn new(stdout: String, stderr: String, dir: LocalPath) -> (r: Completed)
        ensures
            r.stdout@ == stdout@,
            r.stderr@ == stderr@,
            r.dir@ == dir@,
    {
        Completed { stdout, stderr, dir }
    }
}

/// How a test run ended.
pub enum Outcome {
    /// The test ran to its end.
    Completed(Completed),
    /// The test timed out.
    TimedOut,
    /// The test made the system shut down or panic.
    Panicked,
}

/// Two test runs that both completed, and how they differ.
pub struct DiffCompleted {
    pub dash_diff: Vec<FileDiff>,
    pub trace_diff: Vec<TraceDiff>,
    pub fst_outcome: Completed,
    pub snd_outcome: Completed,
    pub fst_trace: Trace,
    pub snd_trace: Trace,
}

/// The largest index of a first row among the differences, unless the
/// traces differ in length (or do not differ).
pub open spec fn last_diff_row(ds: Seq<TraceDiff>) -> Option<u32>
    decreases ds.len(),
{
    if ds.len() == 0 {
        None
    } else {
        match ds.last() {
            TraceDiff::DifferentLength => None,
            TraceDiff::TraceRowIsDifferent { fst, .. } => {
                if exists|k: int| 0 <= k < ds.len() - 1 && ds[k] is DifferentLength {
                    None
                } else {
                    match last_diff_row(ds.drop_last()) {
                        Some(m) => if fst.index > m {
                            Some(fst.index)
                        } else {
                            Some(m)
                        },
                        None => Some(fst.index),
                    }
                }
            },
        }
    }
}

impl DiffCompleted {
    /// Whether either objective found a difference.
    pub fn any_interesting(&self) -> (r: bool)
        ensures
            r == (self.dash_diff@.len() > 0 || self.trace_diff@.len() > 0),
    {
        self.dash_interesting() || self.trace_interesting()
    }

    /// Whether both traces hold an error: then the model itself is suspect
    /// (an accident rather than a difference).
    pub fn both_traces_have_errors(&self) -> (r: bool)
        ensures
            r == ((exists|k: int| 0 <= k < self.fst_trace@.len() && (#[trigger] self.fst_trace@[k]).errno_code != 0)
                && (exists|k: int| 0 <= k < self.snd_trace@.len() && (#[trigger] self.snd_trace@[k]).errno_code != 0)),
    {
        self.fst_trace.has_errors() && self.snd_trace.has_errors()
    }

    /// Whether the file states differ.
    pub fn dash_interesting(&self) -> (r: bool)
        ensures
            r == (self.dash_diff@.len() > 0),
    {
        self.dash_diff.len() > 0
    }

    /// Whether the traces differ.
    pub fn trace_interesting(&self) -> (r: bool)
        ensures
            r == (self.trace_diff@.len() > 0),
    {
        self.trace_diff.len() > 0
    }

    /// The last operation (by index in the first trace) at which the traces
    /// differ; `None` when they differ in length or not at all.
    pub fn get_last_diff_trace_row(&self) -> (r: Option<u32>)
        ensures
            r == last_diff_row(self.trace_diff@),
    {
        let mut res: Option<u32> = None;
        let mut i: usize = 0;
        while i < self.trace_diff.len()
            invariant
                i <= self.trace_diff@.len(),
                forall|k: int| 0 <= k < i ==> !(self.trace_diff@[k] is DifferentLength),
                res == last_diff_row(self.trace_diff@.take(i as int)),
            decreases self.trace_diff@.len() - i,
        {
            let ghost pre = self.trace_diff@.take(i as int);
            assert(self.trace_diff@.take(i + 1).drop_last() =~= pre);
            match &self.trace_diff[i] {
                TraceDiff::TraceRowIsDifferent { fst, .. } => {
                    let bigger = match res {
                        None => true,
                        Some(max) => fst.index > max,
                    };
                    if bigger {
                        res = Some(fst.index);
                    }
                },
                TraceDiff::DifferentLength => {
                    proof {
                        lemma_last_diff_none(self.trace_diff@, i as int);
                    }
                    return None;
                },
            }
            i = i + 1;
        }
        assert(self.trace_diff@.take(i as int) =~= self.trace_diff@);
        res
    }
}

proof fn lemma_last_diff_none(ds: Seq<TraceDiff>, i: int)
    requires
        0 <= i < ds.len(),
        ds[i] is DifferentLength,
    ensures
        last_diff_row(ds) is None,
{
    if ds.last() is TraceRowIsDifferent {
        assert(ds[i] is DifferentLength && 0 <= i < ds.len() - 1);
    }
}

/// How a pair of test runs ended.
pub enum DiffOutcome {
    DiffCompleted(DiffCompleted),
    FirstTimedOut { fs_name: String, timeout: u8 },
    SecondTimedOut { fs_name: String, timeout: u8 },
    FirstPanicked { fs_name: String },
    SecondPanicked { fs_name: String },
}

/// What the run of one harness means for the pair: a completed run goes
/// on; a panic or a time-out of the first (`first`) or second file system
/// ends the pair.
pub fn harness_verdict(outcome: Outcome, fs_name: &String, timeout: u8, first: bool) -> (r: Result<
    Completed,
    DiffOutcome,
>)
    ensures
        match outcome {
            Outcome::Completed(c) => r matches Ok(x) && x == c,
            Outcome::Panicked => r matches Err(d) && (if first {
                d matches DiffOutcome::FirstPanicked { fs_name: n } && n@ == fs_name@
            } else {
                d matches DiffOutcome::SecondPanicked { fs_name: n } && n@ == fs_name@
            }),
            Outcome::TimedOut => r matches Err(d) && (if first {
                d matches DiffOutcome::FirstTimedOut { fs_name: n, timeout: t } && n@ == fs_name@ && t == timeout
            } else {
                d matches DiffOutcome::SecondTimedOut { fs_name: n, timeout: t } && n@ == fs_name@ && t == timeout
            }),
        },
{
    match outcome {
        Outcome::Completed(completed) => Ok(completed),
        Outcome::Panicked => {
            let fs_name = fs_name.clone();
            if first {
                Err(DiffOutcome::FirstPanicked { fs_name })
            } else {
                Err(DiffOutcome::SecondPanicked { fs_name })
            }
        },
        Outcome::TimedOut => {
            let fs_name = fs_name.clone();
            if first {
                Err(DiffOutcome::FirstTimedOut { fs_name, timeout })
            } else {
                Err(DiffOutcome::SecondTimedOut { fs_name, timeout })
            }
        },
    }
}

/// Two completed runs with their parsed traces: the file-state differences
/// found (`dash_diff`, empty when the states were not compared or agree)
/// and the differences of the traces, as the trace objective finds them.
pub fn diff_runs(
    fst_outcome: Completed,
    snd_outcome: Completed,
    fst_trace: Trace,
    snd_trace: Trace,
    dash_diff: Vec<FileDiff>,
) -> (r: DiffCompleted)
    ensures
        r.dash_diff@ == dash_diff@,
        trace_diffs_view(r.trace_diff@) == trace_diff_spec(fst_trace@, snd_trace@),
        r.fst_trace@ == fst_trace@,
        r.snd_trace@ == snd_trace@,
        r.fst_outcome == fst_outcome,
        r.snd_outcome == snd_outcome,
{
    let mut objective = TraceObjective::new();
    let trace_diff = objective.get_diff(&fst_trace, &snd_trace);
    DiffCompleted { dash_diff, trace_diff, fst_outcome, snd_outcome, fst_trace, snd_trace }
}

} // verus!
