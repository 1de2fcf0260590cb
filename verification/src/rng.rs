//! The single sequential randomness source threaded through every operation
//! that needs entropy. Nothing is promised of individual draws beyond their
//! range, so everything proved downstream holds for every possible outcome.

use vstd::prelude::*;

use crate::gene::alphanumeric_byte;
use rand::Rng;
use rand::SeedableRng;

verus! {

/// Declares rand::rngs::StdRng, the generator held inside `RandomSource`, so
/// that it can stand in a field; the value is opaque here.
#[verifier::external_type_specification]
#[verifier::external_body]
pub struct ExStdRng(rand::rngs::StdRng);

/// A handle on one pseudo-random generator.
pub struct RandomSource {
    rng: rand::rngs::StdRng,
}

impl RandomSource {
    /// Relies on rand::SeedableRng::seed_from_u64: builds a generator whose
    /// draws are a fixed function of the seed.
    #[verifier::external_body]
    pub fn from_seed(seed: u64) -> (r: RandomSource) {
        RandomSource { rng: rand::rngs::StdRng::seed_from_u64(seed) }
    }

    /// Relies on rand::Rng::gen::<bool>: a fair coin; nothing is promised of
    /// the outcome.
    #[verifier::external_body]
    pub fn coin(&mut self) -> (r: bool) {
        self.rng.gen::<bool>()
    }

    /// Relies on rand::Rng::gen_range over `0..n`: a uniform draw strictly
    /// below `n`; the call panics on an empty range, so `n` must be positive.
    #[verifier::external_body]
    pub fn index_below(&mut self, n: usize) -> (r: usize)
        requires
            n > 0,
        ensures
            r < n,
    {
        self.rng.gen_range(0..n)
    }

    /// Relies on rand::distributions::Alphanumeric: a uniform draw over the
    /// ASCII letters and digits.
    #[verifier::external_body]
    pub fn text_byte(&mut self) -> (r: u8)
        ensures
            alphanumeric_byte(r),
    {
        self.rng.sample(rand::distributions::Alphanumeric)
    }
}

} // verus!
