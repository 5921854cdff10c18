use vstd::prelude::*;

verus! {

/// A stream of random bits that drives sampling. Nothing is promised of the
/// values drawn; every contract downstream holds for every possible draw.
pub trait RandomSource {
    /// The next 64 random bits from the source.
    fn next_u64(&mut self) -> u64;
}

#[verifier::external_type_specification]
#[verifier::external_body]
pub struct ExStdRng(rand::rngs::StdRng);

/// Relies on rand's `SeedableRng::seed_from_u64` for `StdRng`: builds a
/// deterministic generator from a 64-bit seed.
#[verifier::external_body]
fn stdrng_from_seed(seed: u64) -> rand::rngs::StdRng {
    <rand::rngs::StdRng as rand::SeedableRng>::seed_from_u64(seed)
}

/// Relies on rand's `SeedableRng::from_entropy` for `StdRng`: builds a
/// generator seeded from system entropy.
#[verifier::external_body]
fn stdrng_from_entropy() -> rand::rngs::StdRng {
    <rand::rngs::StdRng as rand::SeedableRng>::from_entropy()
}

/// Relies on rand's `RngCore::next_u64` for `StdRng`: returns the
/// generator's next 64 random bits.
#[verifier::external_body]
fn stdrng_next_u64(rng: &mut rand::rngs::StdRng) -> u64 {
    rand::RngCore::next_u64(rng)
}

/// A randomness source backed by rand's standard generator.
pub struct StdSource {
    inner: rand::rngs::StdRng,
}

impl StdSource {
    /// A reproducible source: the same seed yields the same stream.
    pub fn from_seed(seed: u64) -> StdSource {
        StdSource { inner: stdrng_from_seed(seed) }
    }

    /// A source seeded from system entropy.
    pub fn from_entropy() -> StdSource {
        StdSource { inner: stdrng_from_entropy() }
    }
}

impl RandomSource for StdSource {
    fn next_u64(&mut self) -> u64 {
        stdrng_next_u64(&mut self.inner)
    }
}

} // verus!
