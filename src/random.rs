use rand::seq::SliceRandom;
use rand::Rng;
use vstd::prelude::*;

use crate::geometry::Split;

verus! {

/// The random source threaded through generation; seeding it fixes the layout.
#[verifier::external_type_specification]
#[verifier::external_body]
pub struct ExStdRng(rand::rngs::StdRng);

/// Relies on rand's `Rng::gen_range` over an inclusive range: a value between
/// the two bounds, both included; it panics only on an empty range.
#[verifier::external_body]
pub(crate) fn random_between(rng: &mut rand::rngs::StdRng, lo: u16, hi: u16) -> (r: u16)
    requires
        lo <= hi,
    ensures
        lo <= r <= hi,
{
    rng.gen_range(lo..=hi)
}

/// Relies on rand's `SliceRandom::shuffle`: the items are permuted in place.
#[verifier::external_body]
pub(crate) fn shuffle_splits(rng: &mut rand::rngs::StdRng, v: &mut Vec<Split>)
    ensures
        final(v)@.to_multiset() == old(v)@.to_multiset(),
{
    v.shuffle(rng)
}

} // verus!
