//! Seeded random number source for map generation.
//!
//! Randomness is injected into the generator functions as an explicit seeded
//! parameter, so that generation is reproducible and testable. The numbers
//! come from rltk's xorshift generator.

use vstd::prelude::*;

verus! {

/// Declares rltk's random number generator type so that it can be held in a
/// field; nothing of its inside is visible to the verifier.
#[verifier::external_type_specification]
#[verifier::external_body]
pub struct ExRandomNumberGenerator(rltk::RandomNumberGenerator);

/// A seeded stream of random numbers. Two streams built from the same seed
/// yield the same numbers, so generation runs are reproducible.
pub struct Rng {
    inner: rltk::RandomNumberGenerator,
}

impl Rng {
    /// Relies on rltk's `RandomNumberGenerator::seeded`, which builds the
    /// generator deterministically from the given seed.
    #[verifier::external_body]
    pub fn seeded(seed: u64) -> (r: Rng) {
        Rng { inner: rltk::RandomNumberGenerator::seeded(seed) }
    }

    /// Relies on rltk's `RandomNumberGenerator::range`, which returns a value
    /// at least `min` and strictly below `max`; it panics on an empty range,
    /// which the precondition rules out.
    #[verifier::external_body]
    pub fn range(&mut self, min: i32, max: i32) -> (r: i32)
        requires
            min < max,
        ensures
            min <= r < max,
    {
        self.inner.range(min, max)
    }
}

} // verus!
