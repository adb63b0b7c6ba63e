//! The random source of the engine: `rand`'s thread-local generator.
//!
//! Everything in this module is trusted: the contracts restate what the
//! `rand` crate documents, and nothing here is proved.

use rand::rngs::ThreadRng;
use rand::seq::SliceRandom;
use rand::Rng;
use vstd::prelude::*;

verus! {

/// `rand::rngs::ThreadRng`, carried through the engine as an opaque value.
#[verifier::external_type_specification]
#[verifier::external_body]
pub struct ExThreadRng(ThreadRng);

/// Calls `rand::thread_rng`. Nothing is claimed of the generator it returns.
/// The call panics where the operating system has no entropy to seed it.
#[verifier::external_body]
pub(crate) fn system_rng() -> ThreadRng {
    rand::thread_rng()
}

/// Calls `Rng::gen_range` on the half-open range `low..high` of `usize`.
/// The range must not be empty, and the draw lies inside it.
#[verifier::external_body]
pub(crate) fn random_index(rng: &mut ThreadRng, low: usize, high: usize) -> (drawn: usize)
    requires
        low < high,
    ensures
        low <= drawn < high,
{
    rng.gen_range(low..high)
}

/// Calls `Rng::gen_range` on the half-open range `0..bound` of `u128`.
/// The range must not be empty, and the draw lies inside it.
#[verifier::external_body]
pub(crate) fn random_threshold(rng: &mut ThreadRng, bound: u128) -> (drawn: u128)
    requires
        0 < bound,
    ensures
        drawn < bound,
{
    rng.gen_range(0..bound)
}

/// Calls `Rng::gen_ratio`: a Bernoulli draw that is true with probability
/// `numerator / denominator`. `rand` documents that the draw is always false
/// for a zero numerator and always true when both numbers are equal; it
/// panics on a zero denominator or a numerator above the denominator.
#[verifier::external_body]
pub(crate) fn random_ratio(rng: &mut ThreadRng, numerator: u32, denominator: u32) -> (drawn: bool)
    requires
        0 < denominator,
        numerator <= denominator,
    ensures
        numerator == 0 ==> !drawn,
        numerator == denominator ==> drawn,
{
    rng.gen_ratio(numerator, denominator)
}

/// Calls `SliceRandom::shuffle`, which only swaps elements of the slice:
/// the shuffled vector holds the same values as before, each as often.
#[verifier::external_body]
pub(crate) fn shuffle(values: &mut Vec<usize>, rng: &mut ThreadRng)
    ensures
        final(values)@.to_multiset() == old(values)@.to_multiset(),
{
    values.shuffle(rng)
}

} // verus!
