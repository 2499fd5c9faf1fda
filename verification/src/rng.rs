//! Trusted boundary to the `rand` crate: the seedable random source that the
//! genetic operators draw from. Nothing is assumed about which value comes
//! back beyond its range, so every caller is verified for every outcome.

use vstd::prelude::*;

verus! {

#[verifier::external_type_specification]
#[verifier::external_body]
pub struct ExStdRng(rand::rngs::StdRng);

/// Relies on rand's `SeedableRng::seed_from_u64`: builds a generator whose
/// stream is determined by the seed alone.
#[verifier::external_body]
pub(crate) fn rng_from_seed(seed: u64) -> rand::rngs::StdRng {
    <rand::rngs::StdRng as rand::SeedableRng>::seed_from_u64(seed)
}

/// Relies on rand's `RngExt::random_range` over `0..bound`: returns a value
/// in that range, and panics only when the range is empty, which the
/// precondition rules out.
#[verifier::external_body]
pub(crate) fn rng_below(rng: &mut rand::rngs::StdRng, bound: u64) -> (r: u64)
    requires
        bound > 0,
    ensures
        r < bound,
{
    rand::RngExt::random_range(rng, 0..bound)
}

} // verus!
