//! Random choices, made by `rand`'s seeded generator.
//!
//! The choices depend on the generator's state, so their contracts say only
//! what holds of every outcome: an element of the slice, a positive weight,
//! a number in the range.

use vstd::prelude::*;

use rand::rngs::StdRng;
use rand::seq::SliceRandom;
use rand::Rng;

verus! {

/// The seeded random number generator of `rand`.
#[verifier::external_type_specification]
#[verifier::external_body]
pub struct ExStdRng(StdRng);

/// The sum of the weights.
pub open spec fn weight_total<T>(w: Seq<(T, u32)>) -> int
    decreases w.len(),
{
    if w.len() == 0 {
        0
    } else {
        weight_total(w.drop_last()) + w.last().1
    }
}

/// `SliceRandom::choose` on a non-empty slice: an element of the slice, at
/// an index drawn uniformly from the generator.
#[verifier::external_body]
pub(crate) fn choose_from<'a, T>(rng: &mut StdRng, items: &'a [T]) -> (r: &'a T)
    requires
        items@.len() > 0,
    ensures
        items@.contains(*r),
{
    items.choose(rng).unwrap()
}

/// `SliceRandom::choose_weighted` by the second component: an element whose
/// weight is positive. The weights are summed in a `u32`, which must not
/// overflow, and some weight must be positive.
#[verifier::external_body]
pub(crate) fn choose_weighted_from<'a, T>(rng: &mut StdRng, items: &'a [(T, u32)]) -> (r: &'a (T, u32))
    requires
        0 < weight_total(items@) <= u32::MAX,
    ensures
        items@.contains(*r),
        r.1 > 0,
{
    items.choose_weighted(rng, |item| item.1).unwrap()
}

/// `Rng::gen_range` on `low..=high`: a number in the range.
#[verifier::external_body]
pub(crate) fn gen_range_inclusive_u16(rng: &mut StdRng, low: u16, high: u16) -> (r: u16)
    requires
        low <= high,
    ensures
        low <= r <= high,
{
    rng.gen_range(low..=high)
}

/// `Rng::gen_range` on `low..high`: a number in the range.
#[verifier::external_body]
pub(crate) fn gen_range_usize(rng: &mut StdRng, low: usize, high: usize) -> (r: usize)
    requires
        low < high,
    ensures
        low <= r < high,
{
    rng.gen_range(low..high)
}

/// `Rng::gen_range` on `low..=high`: a number in the range.
#[verifier::external_body]
pub(crate) fn gen_range_inclusive_usize(rng: &mut StdRng, low: usize, high: usize) -> (r: usize)
    requires
        low <= high,
    ensures
        low <= r <= high,
{
    rng.gen_range(low..=high)
}

} // verus!
