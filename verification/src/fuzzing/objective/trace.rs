//! The trace objective: two runs differ where their traces differ.

use vstd::prelude::*;

use crate::abstract_fs::trace::{rows_agree, RowModel, Trace, TraceDiff};

verus! {

/// The model of a difference between traces.
pub enum TraceDiffView {
    TraceRowIsDifferent { fst: RowModel, snd: RowModel },
    DifferentLength,
}

/// The model of a list of differences.
pub open spec fn diffs_view(v: Seq<TraceDiff>) -> Seq<TraceDiffView> {
    v.map_values(
        |d: TraceDiff|
            match d {
                TraceDiff::TraceRowIsDifferent { fst, snd } => TraceDiffView::TraceRowIsDifferent {
                    fst: fst@,
                    snd: snd@,
                },
                TraceDiff::DifferentLength => TraceDiffView::DifferentLength,
            },
    )
}

/// The rows among the first `n` that differ (ignoring the index), in order.
pub open spec fn row_diffs(fst: Seq<RowModel>, snd: Seq<RowModel>, n: int) -> Seq<TraceDiffView>
    decreases n,
{
    if n <= 0 {
        Seq::empty()
    } else if rows_agree(fst[n - 1], snd[n - 1]) {
        row_diffs(fst, snd, n - 1)
    } else {
        row_diffs(fst, snd, n - 1).push(TraceDiffView::TraceRowIsDifferent { fst: fst[n - 1], snd: snd[n - 1] })
    }
}

/// How two traces differ: only `DifferentLength` when their lengths differ,
/// else each pair of rows that differ in more than the index.
pub open spec fn trace_diff_spec(fst: Seq<RowModel>, snd: Seq<RowModel>) -> Seq<TraceDiffView> {
    if fst.len() != snd.len() {
        seq![TraceDiffView::DifferentLength]
    } else {
        row_diffs(fst, snd, fst.len() as int)
    }
}

proof fn lemma_row_diffs_empty(fst: Seq<RowModel>, snd: Seq<RowModel>, n: int)
    requires
        0 <= n <= fst.len(),
        n <= snd.len(),
    ensures
        row_diffs(fst, snd, n).len() == 0 <==> forall|k: int| 0 <= k < n ==> rows_agree(#[trigger] fst[k], snd[k]),
    decreases n,
{
    if n > 0 {
        lemma_row_diffs_empty(fst, snd, n - 1);
        if forall|k: int| 0 <= k < n ==> rows_agree(#[trigger] fst[k], snd[k]) {
            assert(rows_agree(fst[n - 1], snd[n - 1]));
        }
    }
}

/// A run's trace shows no difference from itself, and whether two traces
/// differ does not depend on which one comes first.
pub proof fn lemma_trace_diff_reflexive_symmetric(a: Seq<RowModel>, b: Seq<RowModel>)
    ensures
        trace_diff_spec(a, a) == Seq::<TraceDiffView>::empty(),
        trace_diff_spec(a, b).len() == 0 <==> trace_diff_spec(b, a).len() == 0,
{
    lemma_row_diffs_empty(a, a, a.len() as int);
    assert(trace_diff_spec(a, a) =~= Seq::<TraceDiffView>::empty());
    if a.len() == b.len() {
        lemma_row_diffs_empty(a, b, a.len() as int);
        lemma_row_diffs_empty(b, a, a.len() as int);
        if trace_diff_spec(a, b).len() == 0 {
            assert forall|k: int| 0 <= k < b.len() implies rows_agree(#[trigger] b[k], a[k]) by {
                assert(rows_agree(a[k], b[k]));
            }
        }
        if trace_diff_spec(b, a).len() == 0 {
            assert forall|k: int| 0 <= k < a.len() implies rows_agree(#[trigger] a[k], b[k]) by {
                assert(rows_agree(b[k], a[k]));
            }
        }
    }
}

/// Whether two rows differ in something other than their index: the
/// command, the return code, the errno name or code, or the extra text.
pub open spec fn rows_differ(a: RowModel, b: RowModel) -> bool {
    ||| a.command != b.command
    ||| a.return_code != b.return_code
    ||| a.errno_name != b.errno_name
    ||| a.errno_code != b.errno_code
    ||| a.extra != b.extra
}

proof fn lemma_row_diffs_reports(fst: Seq<RowModel>, snd: Seq<RowModel>, n: int, k: int)
    requires
        0 <= k < n,
        rows_differ(fst[k], snd[k]),
    ensures
        row_diffs(fst, snd, n).contains(TraceDiffView::TraceRowIsDifferent { fst: fst[k], snd: snd[k] }),
    decreases n,
{
    let d = TraceDiffView::TraceRowIsDifferent { fst: fst[k], snd: snd[k] };
    if k == n - 1 {
        let r = row_diffs(fst, snd, n);
        assert(r[r.len() - 1] == d);
    } else {
        lemma_row_diffs_reports(fst, snd, n - 1, k);
        let r0 = row_diffs(fst, snd, n - 1);
        let j = choose|j: int| 0 <= j < r0.len() && r0[j] == d;
        if !rows_agree(fst[n - 1], snd[n - 1]) {
            assert(row_diffs(fst, snd, n)[j] == d);
        }
    }
}

/// Two traces of the same length are reported as different exactly where
/// their rows differ: each pair of rows at the same position that differ in
/// anything but the index (the errno included) is reported, and when no such
/// pair exists nothing is reported. Traces of different lengths are
/// reported as such.
pub proof fn lemma_trace_diff_exact(fst: Seq<RowModel>, snd: Seq<RowModel>)
    ensures
        fst.len() != snd.len() ==> trace_diff_spec(fst, snd) == seq![TraceDiffView::DifferentLength],
        fst.len() == snd.len() ==> forall|k: int|
            0 <= k < fst.len() && rows_differ(#[trigger] fst[k], snd[k]) ==> trace_diff_spec(fst, snd).contains(
                TraceDiffView::TraceRowIsDifferent { fst: fst[k], snd: snd[k] },
            ),
        fst.len() == snd.len() && (forall|k: int| 0 <= k < fst.len() ==> !rows_differ(#[trigger] fst[k], snd[k]))
            ==> trace_diff_spec(fst, snd).len() == 0,
{
    if fst.len() == snd.len() {
        assert forall|k: int| 0 <= k < fst.len() && rows_differ(#[trigger] fst[k], snd[k]) implies trace_diff_spec(
            fst,
            snd,
        ).contains(TraceDiffView::TraceRowIsDifferent { fst: fst[k], snd: snd[k] }) by {
            lemma_row_diffs_reports(fst, snd, fst.len() as int, k);
        }
        lemma_row_diffs_empty(fst, snd, fst.len() as int);
        if forall|k: int| 0 <= k < fst.len() ==> !rows_differ(#[trigger] fst[k], snd[k]) {
            assert forall|k: int| 0 <= k < fst.len() implies rows_agree(#[trigger] fst[k], snd[k]) by {
                assert(!rows_differ(fst[k], snd[k]));
            }
        }
    }
}

/// Compares the traces of two runs.
pub struct TraceObjective {}

impl TraceObjective {
    pub fn new() -> Self {
        Self {}
    }

    /// How the traces differ.
    pub fn get_diff(&mut self, fst_trace: &Trace, snd_trace: &Trace) -> (r: Vec<TraceDiff>)
        ensures
            diffs_view(r@) == trace_diff_spec(fst_trace@, snd_trace@),
    {
        let mut trace_diff: Vec<TraceDiff> = Vec::new();
        if fst_trace.rows.len() != snd_trace.rows.len() {
            trace_diff.push(TraceDiff::DifferentLength);
            assert(diffs_view(trace_diff@) =~= seq![TraceDiffView::DifferentLength]);
            return trace_diff;
        }
        let mut i: usize = 0;
        assert(diffs_view(trace_diff@) =~= Seq::<TraceDiffView>::empty());
        while i < fst_trace.rows.len()
            invariant
                i <= fst_trace@.len(),
                fst_trace@.len() == snd_trace@.len(),
                fst_trace@.len() == fst_trace.rows@.len(),
                snd_trace@.len() == snd_trace.rows@.len(),
                diffs_view(trace_diff@) == row_diffs(fst_trace@, snd_trace@, i as int),
            decreases fst_trace.rows@.len() - i,
        {
            let fst_row = fst_trace.rows[i].clone();
            let snd_row = snd_trace.rows[i].clone();
            if !fst_row.ignore_index_equal(&snd_row) {
                let ghost before = diffs_view(trace_diff@);
                let ghost d = TraceDiffView::TraceRowIsDifferent { fst: fst_row@, snd: snd_row@ };
                trace_diff.push(TraceDiff::TraceRowIsDifferent { fst: fst_row, snd: snd_row });
                assert(diffs_view(trace_diff@) =~= before.push(d));
            }
            i = i + 1;
        }
        trace_diff
    }
}

} // verus!
