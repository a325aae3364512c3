//! The seeded random source used for enemy spawn positioning.
//!
//! The generator type comes from the rand crate and is opaque here:
//! nothing is assumed about the values it yields beyond their range.

use vstd::prelude::*;
use rand::Rng;
use rand::SeedableRng;
use rand::rngs::StdRng;

verus! {

/// Declares rand's standard generator `rand::rngs::StdRng` so that it
/// can stand in struct fields and signatures.
#[verifier::external_type_specification]
#[verifier::external_body]
pub struct ExStdRng(StdRng);

/// Relies on rand's `SeedableRng::from_entropy`: a generator seeded
/// from the operating system. Nothing is assumed of the values it will
/// yield.
#[verifier::external_body]
pub fn rng_from_entropy() -> StdRng {
    StdRng::from_entropy()
}

/// Relies on rand's `SeedableRng::seed_from_u64`: a generator built
/// deterministically from the given seed, so that spawning is
/// reproducible under test. Nothing is assumed of the values it will
/// yield.
#[verifier::external_body]
pub fn rng_from_seed(seed: u64) -> StdRng {
    StdRng::seed_from_u64(seed)
}

/// Relies on rand's `Rng::gen_range` on `lo..hi`: a uniform sample
/// from the half-open range. It panics only on an empty range, which
/// the precondition excludes; every outcome lies in the range.
#[verifier::external_body]
pub fn rng_range(rng: &mut StdRng, lo: i64, hi: i64) -> (r: i64)
    requires
        lo < hi,
    ensures
        lo <= r < hi,
{
    rng.gen_range(lo..hi)
}

} // verus!
