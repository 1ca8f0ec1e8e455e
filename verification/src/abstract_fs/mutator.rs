//! Mutations of a workload: removing one operation, or inserting a random
//! one. A mutation that leaves a workload that cannot be replayed is
//! refused.

use vstd::prelude::*;

use rand::rngs::StdRng;

use super::fs::{
    apply_spec, init_model, lemma_replay_append, lemma_replay_push, lemma_replay_recording, replay_spec, AbstractFS,
    FsModel,
};
use super::generator::{append_one, names_view, step_candidate, step_ok, NameGen};
use super::operation::{OpView, Operation, OperationKind, OperationWeights};
use super::pathname::{path_segments, Name, PathName};
use super::workload::Workload;

verus! {

/// The kinds of mutation.
#[derive(Debug, Clone, Copy, PartialEq, Eq, Structural)]
pub enum MutationKind {
    Insert,
    Remove,
}

/// Weights determine the likelihood of a mutation to be picked.
#[derive(Debug)]
pub struct MutationWeights {
    pub weights: Vec<(MutationKind, u32)>,
}

impl MutationWeights {
    pub fn new(weights: Vec<(MutationKind, u32)>) -> (r: Self)
        ensures
            r.weights@ == weights@,
    {
        Self { weights }
    }
}

impl Clone for MutationWeights {
    fn clone(&self) -> (r: Self)
        ensures
            r.weights@ == self.weights@,
    {
        let mut v: Vec<(MutationKind, u32)> = Vec::new();
        let mut i: usize = 0;
        while i < self.weights.len()
            invariant
                i <= self.weights@.len(),
                v@ == self.weights@.take(i as int),
            decreases self.weights@.len() - i,
        {
            v.push(self.weights[i]);
            i = i + 1;
            assert(v@ =~= self.weights@.take(i as int));
        }
        assert(self.weights@.take(i as int) =~= self.weights@);
        MutationWeights { weights: v }
    }
}

/// The recording of a replay from a new file system, if the replay succeeds.
pub open spec fn replayed(ops: Seq<OpView>) -> Option<Seq<OpView>> {
    match replay_spec(init_model(), ops) {
        (t, Ok(())) => Some(t.recording),
        _ => None,
    }
}

/// Whether replaying `ops` on a new file system succeeds and records exactly
/// `ops` again: a workload the fuzzer can run as it is.
pub open spec fn replays_as_recorded(ops: Seq<OpView>) -> bool {
    match replay_spec(init_model(), ops) {
        (t, Ok(())) => t.recording == ops,
        _ => false,
    }
}

/// The model of an optional workload.
pub open spec fn opt_view(r: Option<Workload>) -> Option<Seq<OpView>> {
    match r {
        Some(w) => Some(w@),
        None => None,
    }
}

/// Removes the operation at `index` and replays the rest on a new file
/// system: the recording if that succeeds, `None` if not.
pub fn remove(workload: &Workload, index: usize) -> (r: Option<Workload>)
    requires
        index < workload@.len(),
    ensures
        opt_view(r) == replayed(workload@.remove(index as int)),
        r matches Some(w) ==> replay_spec(init_model(), w@) == replay_spec(init_model(), workload@.remove(index as int)),
        r matches Some(w) ==> replays_as_recorded(w@) && w@.len() + 1 == workload@.len(),
{
    let mut ops = workload.clone();
    let ghost before = ops@;
    ops.ops.remove(index);
    assert(ops@ =~= before.remove(index as int));
    let mut fs = AbstractFS::new();
    match fs.replay(&ops) {
        Err(_) => None,
        Ok(()) => {
            proof {
                lemma_replay_recording(ops@, fs@);
            }
            Some(fs.recording)
        },
    }
}

/// The components of the paths an operation names.
pub open spec fn op_names(op: OpView) -> Seq<Seq<char>> {
    match op {
        OpView::MkDir { path, .. } => path_segments(path),
        OpView::Create { path, .. } => path_segments(path),
        OpView::Hardlink { old_path, new_path } => path_segments(old_path) + path_segments(new_path),
        OpView::Rename { old_path, new_path } => path_segments(old_path) + path_segments(new_path),
        OpView::Open { path, .. } => path_segments(path),
        OpView::Symlink { target, linkpath } => path_segments(target) + path_segments(linkpath),
        _ => Seq::empty(),
    }
}

/// The components of all paths the operations name, in order.
pub open spec fn used_names(ops: Seq<OpView>) -> Seq<Seq<char>>
    decreases ops.len(),
{
    if ops.len() == 0 {
        Seq::empty()
    } else {
        used_names(ops.drop_last()) + op_names(ops.last())
    }
}

/// The state after replaying the operations before `index`, if that succeeds.
pub open spec fn state_before(w: Seq<OpView>, index: int) -> Option<FsModel> {
    match replay_spec(init_model(), w.take(index)) {
        (s, Ok(())) => Some(s),
        _ => None,
    }
}

/// Whether inserting at `index` goes through whatever is picked: the
/// random step goes through (see `step_ok`).
pub open spec fn insert_ok(w: Seq<OpView>, index: int, weights: Seq<(OperationKind, u32)>) -> bool {
    &&& 0 <= index <= w.len()
    &&& (state_before(w, index) matches Some(s) ==> step_ok(s, 0, used_names(w), weights))
}

/// The recording after replaying `rest` from `s`, if that succeeds.
pub open spec fn replayed_from(s: FsModel, rest: Seq<OpView>) -> Option<Seq<OpView>> {
    match replay_spec(s, rest) {
        (t, Ok(())) => Some(t.recording),
        _ => None,
    }
}

fn push_segments(v: &mut Vec<Name>, p: &PathName)
    ensures
        names_view(final(v)@) == names_view(old(v)@) + path_segments(p@),
{
    let segs = p.segments();
    let mut i: usize = 0;
    while i < segs.len()
        invariant
            i <= segs@.len(),
            segs@.len() == path_segments(p@).len(),
            forall|k: int| 0 <= k < segs@.len() ==> #[trigger] segs@[k]@ == path_segments(p@)[k],
            names_view(v@) == names_view(old(v)@) + path_segments(p@).take(i as int),
        decreases segs@.len() - i,
    {
        let ghost prev = v@;
        let name = segs[i].clone();
        v.push(name);
        assert(names_view(v@) =~= names_view(prev).push(segs@[i as int]@));
        assert(names_view(v@) =~= names_view(old(v)@) + path_segments(p@).take(i + 1));
        i = i + 1;
    }
    assert(path_segments(p@).take(i as int) =~= path_segments(p@));
}

/// The components of all paths the workload names.
fn used_name_list(workload: &Workload) -> (r: Vec<Name>)
    ensures
        names_view(r@) == used_names(workload@),
{
    let mut r: Vec<Name> = Vec::new();
    let mut i: usize = 0;
    assert(names_view(r@) =~= Seq::<Seq<char>>::empty());
    while i < workload.ops.len()
        invariant
            i <= workload@.len(),
            workload@.len() == workload.ops@.len(),
            names_view(r@) == used_names(workload@.take(i as int)),
        decreases workload.ops@.len() - i,
    {
        assert(workload@.take(i + 1).drop_last() =~= workload@.take(i as int));
        assert(workload@.take(i + 1).last() == workload.ops@[i as int]@);
        match &workload.ops[i] {
            Operation::MkDir { path, .. } => push_segments(&mut r, path),
            Operation::Create { path, .. } => push_segments(&mut r, path),
            Operation::Hardlink { old_path, new_path } => {
                push_segments(&mut r, old_path);
                push_segments(&mut r, new_path);
            },
            Operation::Rename { old_path, new_path } => {
                push_segments(&mut r, old_path);
                push_segments(&mut r, new_path);
            },
            Operation::Open { path, .. } => push_segments(&mut r, path),
            Operation::Symlink { target, linkpath } => {
                push_segments(&mut r, target);
                push_segments(&mut r, linkpath);
            },
            _ => {},
        }
        assert(names_view(r@) =~= used_names(workload@.take(i + 1)));
        i = i + 1;
    }
    assert(workload@.take(i as int) =~= workload@);
    r
}

/// The operations of `workload` from `from` up to `to`.
fn slice_workload(workload: &Workload, from: usize, to: usize) -> (r: Workload)
    requires
        from <= to <= workload@.len(),
    ensures
        r@ == workload@.subrange(from as int, to as int),
{
    let mut ops: Vec<Operation> = Vec::new();
    let mut i: usize = from;
    while i < to
        invariant
            from <= i <= to,
            to <= workload.ops@.len(),
            workload@.len() == workload.ops@.len(),
            ops@.len() == i - from,
            forall|k: int| 0 <= k < ops@.len() ==> (#[trigger] ops@[k])@ == workload.ops@[from + k]@,
        decreases to - i,
    {
        ops.push(workload.ops[i].clone());
        i = i + 1;
    }
    let r = Workload { ops };
    assert(r@ =~= workload@.subrange(from as int, to as int));
    r
}

/// Inserts a random operation at `index`: replays the operations before it
/// on a new file system, appends a random operation (new nodes get names
/// that the workload does not use), and replays the rest. The recording if
/// all succeeds, `None` if a replay fails.
pub fn insert(rng: &mut StdRng, workload: &Workload, index: usize, weights: &OperationWeights) -> (r: Option<Workload>)
    requires
        insert_ok(workload@, index as int, weights.weights@),
    ensures
        match state_before(workload@, index as int) {
            None => r is None,
            Some(s) => exists|op: OpView|
                #[trigger] step_candidate(s, 0, used_names(workload@), weights.weights@, op) && opt_view(r)
                    == replayed_from(apply_spec(s, op).0, workload@.skip(index as int)),
        },
        r matches Some(w) ==> replays_as_recorded(w@),
{
    let used = used_name_list(workload);
    let before = slice_workload(workload, 0, index);
    let after = slice_workload(workload, index, workload.ops.len());
    assert(before@ =~= workload@.take(index as int));
    assert(after@ =~= workload@.skip(index as int));
    let mut fs = AbstractFS::new();
    match fs.replay(&before) {
        Err(_) => {
            return None;
        },
        Ok(()) => {},
    }
    let ghost s = fs@;
    let mut names = NameGen::with_used(used);
    append_one(rng, &mut fs, weights, &mut names);
    let ghost op = choose|op: OpView|
        #[trigger] step_candidate(s, 0, used_names(workload@), weights.weights@, op) && fs@ == apply_spec(s, op).0;
    let ghost s1 = fs@;
    match fs.replay(&after) {
        Err(_) => None,
        Ok(()) => {
            proof {
                let head = workload@.take(index as int);
                lemma_replay_push(init_model(), head, s, op);
                lemma_replay_append(init_model(), head.push(op), after@, s1);
                lemma_replay_recording(head.push(op) + after@, fs@);
            }
            Some(fs.recording)
        },
    }
}

} // verus!
