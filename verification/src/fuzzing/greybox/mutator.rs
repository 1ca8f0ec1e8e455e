//! The greybox mutator: applies random mutations to a workload.

use vstd::prelude::*;

use rand::rngs::StdRng;

use crate::abstract_fs::fs::{init_model, replay_spec};
use crate::abstract_fs::mutator::{
    insert, insert_ok, remove, replayed, replayed_from, replays_as_recorded, state_before, used_names, MutationKind,
    MutationWeights,
};
use crate::abstract_fs::fs::apply_spec;
use crate::abstract_fs::generator::step_candidate;
use crate::abstract_fs::operation::{OpView, OperationWeights};
use crate::abstract_fs::workload::Workload;
use crate::random::{
    choose_weighted_from, gen_range_inclusive_u16, gen_range_inclusive_usize, gen_range_usize, weight_total,
};

verus! {

/// Whether a mutation of kind `k` can be applied to a workload of `len`
/// operations, with at most `max_length` operations.
pub open spec fn mutation_allowed(k: MutationKind, len: nat, max_length: nat) -> bool {
    match k {
        MutationKind::Remove => len > 0,
        MutationKind::Insert => len < max_length,
    }
}

/// The weights of the mutations that can be applied, in their order.
pub open spec fn usable_mutations(w: Seq<(MutationKind, u32)>, len: nat, max_length: nat) -> Seq<(MutationKind, u32)>
    decreases w.len(),
{
    if w.len() == 0 {
        Seq::empty()
    } else if mutation_allowed(w.last().0, len, max_length) {
        usable_mutations(w.drop_last(), len, max_length).push(w.last())
    } else {
        usable_mutations(w.drop_last(), len, max_length)
    }
}

/// Whether kind `k` has a positive weight among the weights `u`.
pub open spec fn kind_has_weight(u: Seq<(MutationKind, u32)>, k: MutationKind) -> bool {
    exists|i: int| 0 <= i < u.len() && (#[trigger] u[i]).0 == k && u[i].1 > 0
}

/// Whether every mutation that may be picked goes through: some usable
/// kind has weight (and the weights fit in `u32`), and every insertion
/// goes through (see `insert_ok`).
pub open spec fn mutation_ok(
    input: Seq<OpView>,
    mw: Seq<(MutationKind, u32)>,
    ow: Seq<(crate::abstract_fs::operation::OperationKind, u32)>,
    max_length: nat,
) -> bool {
    let u = usable_mutations(mw, input.len(), max_length);
    &&& 0 < weight_total(u) <= u32::MAX
    &&& forall|i: int| 0 <= i <= input.len() ==> #[trigger] insert_ok(input, i, ow)
}

/// What inserting at `index` may give, for some random operation.
pub open spec fn insert_outcome(input: Seq<OpView>, index: int, ow: Seq<(crate::abstract_fs::operation::OperationKind, u32)>, r: Option<Seq<OpView>>) -> bool {
    match state_before(input, index) {
        None => r is None,
        Some(s) => exists|op: OpView|
            #[trigger] step_candidate(s, 0, used_names(input), ow, op) && r == replayed_from(
                apply_spec(s, op).0,
                input.skip(index),
            ),
    }
}

/// Whether inserting a random operation at some index may give `r`.
pub open spec fn mutated_by_insert(input: Seq<OpView>, ow: Seq<(crate::abstract_fs::operation::OperationKind, u32)>, r: Option<Seq<OpView>>) -> bool {
    exists|index: int| 0 <= index <= input.len() && #[trigger] insert_outcome(input, index, ow, r)
}

/// Whether removing the operation at some index gives `r`.
pub open spec fn mutated_by_remove(input: Seq<OpView>, r: Option<Seq<OpView>>) -> bool {
    exists|index: int| 0 <= index < input.len() && #[trigger] replayed(input.remove(index)) == r
}

/// Applies random mutations to workloads.
pub struct Mutator {
    pub rng: StdRng,
    pub operation_weights: OperationWeights,
    pub mutation_weights: MutationWeights,
    pub max_length: u16,
    pub max_mutations: u16,
}

fn usable_mutation_list(w: &Vec<(MutationKind, u32)>, len: usize, max_length: u16) -> (r: Vec<(MutationKind, u32)>)
    ensures
        r@ == usable_mutations(w@, len as nat, max_length as nat),
{
    let mut r: Vec<(MutationKind, u32)> = Vec::new();
    let mut i: usize = 0;
    while i < w.len()
        invariant
            i <= w@.len(),
            r@ == usable_mutations(w@.take(i as int), len as nat, max_length as nat),
        decreases w@.len() - i,
    {
        assert(w@.take(i + 1).drop_last() =~= w@.take(i as int));
        let allowed = match w[i].0 {
            MutationKind::Remove => len > 0,
            MutationKind::Insert => len < max_length as usize,
        };
        if allowed {
            r.push(w[i]);
        }
        i = i + 1;
    }
    assert(w@.take(i as int) =~= w@);
    r
}

impl Mutator {
    pub fn new(
        rng: StdRng,
        operation_weights: OperationWeights,
        mutation_weights: MutationWeights,
        max_length: u16,
        max_mutations: u16,
    ) -> (r: Self)
        ensures
            r.operation_weights.weights@ == operation_weights.weights@,
            r.mutation_weights.weights@ == mutation_weights.weights@,
            r.max_length == max_length,
            r.max_mutations == max_mutations,
    {
        Self { rng, operation_weights, mutation_weights, max_length, max_mutations }
    }

    /// How many mutations the next input gets: a random number from one to
    /// the maximum.
    pub fn mutation_count(&mut self) -> (r: u16)
        requires
            old(self).max_mutations >= 1,
        ensures
            1 <= r <= old(self).max_mutations,
            final(self).operation_weights.weights@ == old(self).operation_weights.weights@,
            final(self).mutation_weights.weights@ == old(self).mutation_weights.weights@,
            final(self).max_length == old(self).max_length,
            final(self).max_mutations == old(self).max_mutations,
    {
        gen_range_inclusive_u16(&mut self.rng, 1, self.max_mutations)
    }

    /// Applies one random mutation: picks a usable kind by weight (Remove
    /// only on a non-empty workload, Insert only below `max_length`), then
    /// inserts a random operation at a random index, or removes the
    /// operation at a random index. Whether the workload changed; it changes
    /// when the mutated workload replays. The kind applied has a positive
    /// usable weight.
    pub fn mutate_once(&mut self, input: &mut Workload) -> (r: bool)
        requires
            mutation_ok(
                old(input)@,
                old(self).mutation_weights.weights@,
                old(self).operation_weights.weights@,
                old(self).max_length as nat,
            ),
        ensures
            final(self).operation_weights.weights@ == old(self).operation_weights.weights@,
            final(self).mutation_weights.weights@ == old(self).mutation_weights.weights@,
            final(self).max_length == old(self).max_length,
            final(self).max_mutations == old(self).max_mutations,
            r || final(input)@ == old(input)@,
            r ==> replays_as_recorded(final(input)@),
            r && final(input)@.len() > old(input)@.len() ==> old(input)@.len() < old(self).max_length,
            ({
                let u = usable_mutations(old(self).mutation_weights.weights@, old(input)@.len(), old(self).max_length as nat);
                let out = if r { Some(final(input)@) } else { None };
                ||| kind_has_weight(u, MutationKind::Insert) && mutated_by_insert(old(input)@, old(self).operation_weights.weights@, out)
                ||| kind_has_weight(u, MutationKind::Remove) && mutated_by_remove(old(input)@, out)
            }),
    {
        let mutations = usable_mutation_list(&self.mutation_weights.weights, input.ops.len(), self.max_length);
        let picked = choose_weighted_from(&mut self.rng, mutations.as_slice());
        let kind = picked.0;
        let ghost u = mutations@;
        proof {
            let i = choose|i: int| 0 <= i < u.len() && u[i] == *picked;
            assert(u[i].0 == kind && u[i].1 > 0);
            assert(kind_has_weight(u, kind));
            lemma_usable_mutation_allowed(old(self).mutation_weights.weights@, old(input)@.len(), old(self).max_length as nat, kind);
        }
        match kind {
            MutationKind::Insert => {
                let index = gen_range_inclusive_usize(&mut self.rng, 0, input.ops.len());
                let ghost before = input@;
                match insert(&mut self.rng, input, index, &self.operation_weights) {
                    Some(workload) => {
                        *input = workload;
                        assert(insert_outcome(before, index as int, self.operation_weights.weights@, Some(input@)));
                        true
                    },
                    None => {
                        assert(insert_outcome(before, index as int, self.operation_weights.weights@, None));
                        false
                    },
                }
            },
            MutationKind::Remove => {
                let picked_ok = input.ops.len() > 0;
                if !picked_ok {
                    proof {
                        let u = usable_mutations(old(self).mutation_weights.weights@, old(input)@.len(), old(self).max_length as nat);
                        lemma_usable_mutation_allowed(old(self).mutation_weights.weights@, old(input)@.len(), old(self).max_length as nat, kind);
                    }
                    return false;
                }
                let index = gen_range_usize(&mut self.rng, 0, input.ops.len());
                let ghost before = input@;
                match remove(input, index) {
                    Some(workload) => {
                        *input = workload;
                        true
                    },
                    None => false,
                }
            },
        }
    }
}

proof fn lemma_usable_mutation_allowed(w: Seq<(MutationKind, u32)>, len: nat, max_length: nat, k: MutationKind)
    requires
        exists|i: int| 0 <= i < usable_mutations(w, len, max_length).len() && #[trigger] usable_mutations(w, len, max_length)[i].0 == k,
    ensures
        mutation_allowed(k, len, max_length),
    decreases w.len(),
{
    let u = usable_mutations(w, len, max_length);
    let i = choose|i: int| 0 <= i < u.len() && #[trigger] u[i].0 == k;
    if w.len() > 0 {
        let u0 = usable_mutations(w.drop_last(), len, max_length);
        if mutation_allowed(w.last().0, len, max_length) && i == u0.len() {
        } else {
            assert(u0[i].0 == k);
            lemma_usable_mutation_allowed(w.drop_last(), len, max_length, k);
        }
    }
}

} // verus!
