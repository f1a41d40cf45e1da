//! The random draws the agents make, through the `rand` crate.
//!
//! Nothing can be promised about *which* value a generator returns; what the
//! contracts below state is what holds of every outcome.

use rand::rngs::StdRng;
use rand::seq::SliceRandom;
use rand::Rng;
use vstd::prelude::*;

verus! {

/// `rand::rngs::StdRng`, carried through verified code unopened.
#[verifier::external_type_specification]
#[verifier::external_body]
pub struct ExStdRng(StdRng);

/// `Rng::gen_range(0..n)` on a `usize` range: an index in `0..n`. The range
/// must not be empty, or `gen_range` panics.
#[verifier::external_body]
pub(crate) fn gen_index(rng: &mut StdRng, n: usize) -> (r: usize)
    requires
        n > 0,
    ensures
        r < n,
{
    rng.gen_range(0..n)
}

/// `SliceRandom::shuffle` on a vector's slice: the elements are permuted in
/// place (a Fisher–Yates pass of swaps), so the same items remain, each as
/// many times as before. Which permutation comes out is left unsaid.
#[verifier::external_body]
pub(crate) fn shuffle<T>(v: &mut Vec<T>, rng: &mut StdRng)
    ensures
        final(v)@.len() == old(v)@.len(),
        final(v)@.to_multiset() == old(v)@.to_multiset(),
{
    v.as_mut_slice().shuffle(rng)
}

} // verus!
