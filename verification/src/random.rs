//! The random number generator behind quote choice and the scramble
//! animation.

use vstd::prelude::*;
use rand::rngs::StdRng;

verus! {

/// The `rand` crate's seedable standard generator, carried through the
/// animation and the quote choice.
#[verifier::external_type_specification]
#[verifier::external_body]
pub struct ExStdRng(StdRng);

/// `rand::Rng::random_range` on `0..n`. Claimed: the result is below `n`;
/// `n` is positive, as the crate asserts (it panics on an empty range).
#[verifier::external_body]
pub(crate) fn random_index(rng: &mut StdRng, n: usize) -> (r: usize)
    requires
        n > 0,
    ensures
        r < n,
{
    rand::Rng::random_range(rng, 0..n)
}

/// `rand::random::<u64>`: a seed from the thread's generator. Nothing is
/// claimed of it.
#[verifier::external_body]
pub(crate) fn random_seed() -> u64 {
    rand::random::<u64>()
}

} // verus!
