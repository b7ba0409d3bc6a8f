//! The boundary to the random generator.
//!
//! Randomness only ever decides which parameter a mutation touches and which
//! raw bits feed a uniform sample; nothing is or can be promised about the
//! values drawn, so each wrapper states at most the range its caller needs.

use vstd::prelude::*;

verus! {

/// rand's standard generator, declared so that it can cross the verified
/// signatures. Its state is opaque here; callers construct and seed it.
#[verifier::external_type_specification]
#[verifier::external_body]
pub struct ExStdRng(rand::rngs::StdRng);

/// Relies on rand::Rng::gen_range over `0..n`: returns a uniform index below
/// `n`. It panics on an empty range, which the precondition rules out.
#[verifier::external_body]
pub(crate) fn pick_index(rng: &mut rand::rngs::StdRng, n: usize) -> (r: usize)
    requires
        1 <= n,
    ensures
        r < n,
{
    rand::Rng::gen_range(rng, 0..n)
}

/// Relies on rand::Rng::gen_ratio: a Bernoulli draw that is true with
/// probability numerator/denominator. It panics when the denominator is zero
/// or smaller than the numerator, which the precondition rules out.
#[verifier::external_body]
pub(crate) fn bernoulli(rng: &mut rand::rngs::StdRng, numerator: u32, denominator: u32) -> (r: bool)
    requires
        0 < denominator,
        numerator <= denominator,
{
    rand::Rng::gen_ratio(rng, numerator, denominator)
}

/// Relies on rand::Rng::gen::<u32>: 32 uniform random bits.
#[verifier::external_body]
pub(crate) fn random_bits(rng: &mut rand::rngs::StdRng) -> (r: u32) {
    rand::Rng::gen(rng)
}

} // verus!
