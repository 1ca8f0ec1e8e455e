//! Reduction of a test case: operations are removed one at a time, from the
//! last to the first, and a removal is kept when the two file systems still
//! differ in the same way.
//!
//! Running a test is outside work, so the reduction is a state machine:
//! the caller asks for a candidate, runs it, and hands back the outcome.

use vstd::prelude::*;

use crate::abstract_fs::mutator::{opt_view, remove, replayed, replays_as_recorded};
use crate::abstract_fs::fs::replay_spec;
use crate::abstract_fs::fs::init_model;

use crate::abstract_fs::trace::{rows_agree, TraceDiff};
use crate::abstract_fs::workload::Workload;
use crate::dash::{diffs_view, FileDiff, FileInfo};
use crate::text::{push_str, push_u64, str_eq};
use super::outcome::{DiffCompleted, DiffOutcome};

verus! {

/// Whether two trace differences are alike: both about length, or both
/// about rows that agree (ignoring the index) with each other's rows.
pub open spec fn trace_diff_alike(a: TraceDiff, b: TraceDiff) -> bool {
    match (a, b) {
        (TraceDiff::DifferentLength, TraceDiff::DifferentLength) => true,
        (
            TraceDiff::TraceRowIsDifferent { fst: af, snd: a_s },
            TraceDiff::TraceRowIsDifferent { fst: bf, snd: bs },
        ) => rows_agree(af@, bf@) && rows_agree(a_s@, bs@),
        _ => false,
    }
}

/// Whether two runs differ in the same way: alike trace differences, in
/// order, and equal file-state differences.
pub open spec fn same_diff_spec(old: DiffCompleted, new: DiffCompleted) -> bool {
    &&& old.trace_diff@.len() == new.trace_diff@.len()
    &&& forall|i: int| 0 <= i < old.trace_diff@.len() ==> trace_diff_alike(#[trigger] old.trace_diff@[i], new.trace_diff@[i])
    &&& diffs_view(old.dash_diff@) == diffs_view(new.dash_diff@)
}

/// Every run differs in the same way as itself, and whether two runs differ
/// in the same way does not depend on which one comes first.
pub proof fn lemma_same_diff_equivalence(a: DiffCompleted, b: DiffCompleted)
    ensures
        same_diff_spec(a, a),
        same_diff_spec(a, b) == same_diff_spec(b, a),
{
    if same_diff_spec(a, b) {
        assert forall|i: int| 0 <= i < b.trace_diff@.len() implies trace_diff_alike(
            #[trigger] b.trace_diff@[i],
            a.trace_diff@[i],
        ) by {
            assert(trace_diff_alike(a.trace_diff@[i], b.trace_diff@[i]));
        }
    }
    if same_diff_spec(b, a) {
        assert forall|i: int| 0 <= i < a.trace_diff@.len() implies trace_diff_alike(
            #[trigger] a.trace_diff@[i],
            b.trace_diff@[i],
        ) by {
            assert(trace_diff_alike(b.trace_diff@[i], a.trace_diff@[i]));
        }
    }
}

fn info_eq(a: &FileInfo, b: &FileInfo) -> (r: bool)
    ensures
        r == (a@ == b@),
{
    str_eq(a.abs_path.as_str(), b.abs_path.as_str()) && str_eq(a.rel_path.as_str(), b.rel_path.as_str())
        && a.gid == b.gid && a.uid == b.uid && a.size == b.size && a.nlink == b.nlink && a.mode == b.mode
        && a.is_dir == b.is_dir
}

fn file_diff_eq(a: &FileDiff, b: &FileDiff) -> (r: bool)
    ensures
        r == (a@ == b@),
{
    match (a, b) {
        (FileDiff::FileIsDifferent { fst: af, snd: a_s }, FileDiff::FileIsDifferent { fst: bf, snd: bs }) => info_eq(
            af,
            bf,
        ) && info_eq(a_s, bs),
        (FileDiff::OnlyOneExists(x), FileDiff::OnlyOneExists(y)) => info_eq(x, y),
        _ => false,
    }
}

fn file_diffs_eq(a: &Vec<FileDiff>, b: &Vec<FileDiff>) -> (r: bool)
    ensures
        r == (diffs_view(a@) == diffs_view(b@)),
{
    if a.len() != b.len() {
        assert(diffs_view(a@).len() != diffs_view(b@).len());
        return false;
    }
    let mut i: usize = 0;
    while i < a.len()
        invariant
            i <= a@.len(),
            a@.len() == b@.len(),
            forall|k: int| 0 <= k < i ==> a@[k]@ == b@[k]@,
        decreases a@.len() - i,
    {
        if !file_diff_eq(&a[i], &b[i]) {
            assert(diffs_view(a@)[i as int] != diffs_view(b@)[i as int]);
            return false;
        }
        i = i + 1;
    }
    assert(diffs_view(a@) =~= diffs_view(b@));
    true
}

/// Whether two runs differ in the same way.
pub fn same_diff(old: &DiffCompleted, new: &DiffCompleted) -> (r: bool)
    ensures
        r == same_diff_spec(*old, *new),
{
    if old.trace_diff.len() != new.trace_diff.len() {
        return false;
    }
    let mut i: usize = 0;
    while i < old.trace_diff.len()
        invariant
            i <= old.trace_diff@.len(),
            old.trace_diff@.len() == new.trace_diff@.len(),
            forall|k: int| 0 <= k < i ==> trace_diff_alike(#[trigger] old.trace_diff@[k], new.trace_diff@[k]),
        decreases old.trace_diff@.len() - i,
    {
        let alike = match (&old.trace_diff[i], &new.trace_diff[i]) {
            (TraceDiff::DifferentLength, TraceDiff::DifferentLength) => true,
            (
                TraceDiff::TraceRowIsDifferent { fst: old_fst, snd: old_snd },
                TraceDiff::TraceRowIsDifferent { fst: new_fst, snd: new_snd },
            ) => old_fst.ignore_index_equal(new_fst) && old_snd.ignore_index_equal(new_snd),
            _ => false,
        };
        if !alike {
            assert(!trace_diff_alike(old.trace_diff@[i as int], new.trace_diff@[i as int]));
            return false;
        }
        i = i + 1;
    }
    file_diffs_eq(&old.dash_diff, &new.dash_diff)
}

/// What to do with a candidate's outcome.
pub enum ReduceAction {
    /// The candidate differs as the test case did: it becomes the test case
    /// and is saved under `reduced`.
    SaveReduced,
    /// The candidate differs in another way: the current test case is saved
    /// with the candidate's differences, under `variation-<index>`.
    SaveVariation,
    /// The candidate made a file system panic or time out: it is saved
    /// under `variation-<index>` with the reason.
    SaveCrash(String),
    /// The candidate shows no difference.
    Nothing,
}

/// The state of a reduction: the test case so far and the index of the next
/// operation to try to remove.
pub struct Reduction {
    pub bugcase: Workload,
    pub idx_to_remove: usize,
}

/// The reason given when a file system panicked or timed out.
pub open spec fn crash_reason(outcome: DiffOutcome) -> Seq<char> {
    match outcome {
        DiffOutcome::FirstPanicked { fs_name } => "Filesystem '"@ + fs_name@ + "' panicked"@,
        DiffOutcome::SecondPanicked { fs_name } => "Filesystem '"@ + fs_name@ + "' panicked"@,
        DiffOutcome::FirstTimedOut { fs_name, timeout } => "Filesystem '"@ + fs_name@ + "' timed out after "@
            + crate::text::dec(timeout as nat) + "s"@,
        DiffOutcome::SecondTimedOut { fs_name, timeout } => "Filesystem '"@ + fs_name@ + "' timed out after "@
            + crate::text::dec(timeout as nat) + "s"@,
        DiffOutcome::DiffCompleted(_) => Seq::empty(),
    }
}

fn crash_message(fs_name: &String, timeout: Option<u8>) -> (r: String)
    ensures
        r@ == match timeout {
            None => "Filesystem '"@ + fs_name@ + "' panicked"@,
            Some(t) => "Filesystem '"@ + fs_name@ + "' timed out after "@ + crate::text::dec(t as nat) + "s"@,
        },
{
    let mut r = String::new();
    push_str(&mut r, "Filesystem '");
    push_str(&mut r, fs_name.as_str());
    match timeout {
        None => {
            push_str(&mut r, "' panicked");
        },
        Some(t) => {
            push_str(&mut r, "' timed out after ");
            push_u64(&mut r, t as u64);
            push_str(&mut r, "s");
        },
    }
    r
}

/// Why a pair of runs is a crash: `None` when both completed, else which
/// file system panicked or timed out.
pub fn failure_reason(outcome: &DiffOutcome) -> (r: Option<String>)
    ensures
        match outcome {
            DiffOutcome::DiffCompleted(_) => r is None,
            _ => r matches Some(m) && m@ == crash_reason(*outcome),
        },
{
    match outcome {
        DiffOutcome::DiffCompleted(_) => None,
        DiffOutcome::FirstPanicked { fs_name } => Some(crash_message(fs_name, None)),
        DiffOutcome::SecondPanicked { fs_name } => Some(crash_message(fs_name, None)),
        DiffOutcome::FirstTimedOut { fs_name, timeout } => Some(crash_message(fs_name, Some(*timeout))),
        DiffOutcome::SecondTimedOut { fs_name, timeout } => Some(crash_message(fs_name, Some(*timeout))),
    }
}

impl Reduction {
    /// A reduction of `bugcase` that starts at its last operation.
    pub fn new(bugcase: Workload) -> (r: Self)
        requires
            bugcase@.len() > 0,
        ensures
            r.bugcase@ == bugcase@,
            r.idx_to_remove == bugcase@.len() - 1,
    {
        let idx = bugcase.ops.len() - 1;
        Reduction { bugcase, idx_to_remove: idx }
    }

    /// The test case without the operation at the current index, replayed
    /// from scratch; `None` if that replay fails.
    pub fn candidate(&self) -> (r: Option<Workload>)
        requires
            self.idx_to_remove < self.bugcase@.len(),
        ensures
            opt_view(r) == replayed(self.bugcase@.remove(self.idx_to_remove as int)),
            r matches Some(w) ==> replays_as_recorded(w@) && w@.len() + 1 == self.bugcase@.len(),
    {
        remove(&self.bugcase, self.idx_to_remove)
    }

    /// Decides what a candidate's outcome calls for, given the differences
    /// of the test case's run; a candidate that differs as that run did
    /// becomes the test case.
    pub fn decide(&mut self, reduced: Workload, diff: &DiffCompleted, outcome: &DiffOutcome) -> (r: ReduceAction)
        ensures
            final(self).idx_to_remove == old(self).idx_to_remove,
            match outcome {
                DiffOutcome::DiffCompleted(next) => {
                    if next.dash_diff@.len() > 0 || next.trace_diff@.len() > 0 {
                        if same_diff_spec(*diff, *next) {
                            r is SaveReduced && final(self).bugcase@ == reduced@
                        } else {
                            r is SaveVariation && final(self).bugcase@ == old(self).bugcase@
                        }
                    } else {
                        r is Nothing && final(self).bugcase@ == old(self).bugcase@
                    }
                },
                _ => r matches ReduceAction::SaveCrash(msg) && msg@ == crash_reason(*outcome)
                    && final(self).bugcase@ == old(self).bugcase@,
            },
    {
        match outcome {
            DiffOutcome::DiffCompleted(next) => {
                if next.any_interesting() {
                    if same_diff(diff, next) {
                        self.bugcase = reduced;
                        ReduceAction::SaveReduced
                    } else {
                        ReduceAction::SaveVariation
                    }
                } else {
                    ReduceAction::Nothing
                }
            },
            DiffOutcome::FirstPanicked { fs_name } => ReduceAction::SaveCrash(crash_message(fs_name, None)),
            DiffOutcome::SecondPanicked { fs_name } => ReduceAction::SaveCrash(crash_message(fs_name, None)),
            DiffOutcome::FirstTimedOut { fs_name, timeout } => ReduceAction::SaveCrash(
                crash_message(fs_name, Some(*timeout)),
            ),
            DiffOutcome::SecondTimedOut { fs_name, timeout } => ReduceAction::SaveCrash(
                crash_message(fs_name, Some(*timeout)),
            ),
        }
    }

    /// Moves to the previous operation; `false` when the first one was tried.
    pub fn advance(&mut self) -> (r: bool)
        ensures
            r == (old(self).idx_to_remove > 0),
            final(self).bugcase@ == old(self).bugcase@,
            r ==> final(self).idx_to_remove == old(self).idx_to_remove - 1,
            !r ==> final(self).idx_to_remove == old(self).idx_to_remove,
    {
        if self.idx_to_remove == 0 {
            false
        } else {
            self.idx_to_remove = self.idx_to_remove - 1;
            true
        }
    }

    /// The name a variation at the current index is saved under.
    pub fn variation_name(&self) -> (r: String)
        ensures
            r@ == "variation-"@ + crate::text::dec(self.idx_to_remove as nat),
    {
        let mut r = String::new();
        push_str(&mut r, "variation-");
        push_u64(&mut r, self.idx_to_remove as u64);
        r
    }
}

} // verus!
