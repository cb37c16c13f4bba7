use vstd::prelude::*;
use rand::Rng;

verus! {

/// The per-thread random number generator of `rand`, carried through
/// verified code as an opaque value.
#[verifier::external_type_specification]
#[verifier::external_body]
pub struct ExThreadRng(rand::rngs::ThreadRng);

/// Calls `rand::thread_rng`, the lazily seeded per-thread generator. Nothing
/// is claimed of its state. (rand panics here only if the operating system
/// cannot provide a seed.)
#[verifier::external_body]
pub(crate) fn new_rng() -> rand::rngs::ThreadRng {
    rand::thread_rng()
}

/// Calls `Rng::gen_range` on the half-open range `low..high`. rand asserts
/// that the range is not empty and samples uniformly from it, so the value
/// lies in `low..high`; which value comes out is left to chance.
#[verifier::external_body]
pub(crate) fn random_below(rng: &mut rand::rngs::ThreadRng, low: usize, high: usize) -> (r: usize)
    requires
        low < high,
    ensures
        low <= r < high,
{
    rng.gen_range(low..high)
}

/// Calls `Rng::gen_ratio`: `true` with probability `numerator / denominator`.
/// rand panics when `denominator == 0` or `numerator > denominator`, and
/// documents that the result is always `false` for a zero numerator and always
/// `true` when numerator and denominator are equal; otherwise it is left to
/// chance.
#[verifier::external_body]
pub(crate) fn random_ratio(rng: &mut rand::rngs::ThreadRng, numerator: u32, denominator: u32) -> (b: bool)
    requires
        0 < denominator,
        numerator <= denominator,
    ensures
        numerator == 0 ==> !b,
        numerator == denominator ==> b,
{
    rng.gen_ratio(numerator, denominator)
}

} // verus!
