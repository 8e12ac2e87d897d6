//! Pseudo-random scalars for sampling.
//!
//! The entropy source is passed explicitly wherever sampling happens, so
//! renders are reproducible from a seed and workers can hold independent
//! generators.  Nothing is assumed about the values a generator produces:
//! every consumer states what holds of each possible outcome.

use vstd::prelude::*;
use crate::fixed::ONE;

verus! {

#[verifier::external_type_specification]
#[verifier::external_body]
pub struct ExStdRng(rand::rngs::StdRng);

/// An explicitly threaded pseudo-random generator.
pub struct Randomizer {
    rng: rand::rngs::StdRng,
}

/// Relies on rand_core::SeedableRng::seed_from_u64 for rand::rngs::StdRng:
/// expands a 64-bit seed into a generator state; it never fails.
#[verifier::external_body]
fn seed_std_rng(seed: u64) -> rand::rngs::StdRng {
    <rand::rngs::StdRng as rand::SeedableRng>::seed_from_u64(seed)
}

/// Relies on rand_core::Rng::next_u64 for rand::rngs::StdRng: draws the
/// next word of the stream; any value may come back.
#[verifier::external_body]
fn std_rng_next(rng: &mut rand::rngs::StdRng) -> u64 {
    rand::Rng::next_u64(rng)
}

impl Randomizer {
    /// A generator whose stream is a function of the seed alone.
    pub fn new(seed: u64) -> Randomizer {
        Randomizer { rng: seed_std_rng(seed) }
    }

    /// The next raw 64-bit word; nothing is known of its value.
    pub fn next_bits(&mut self) -> u64 {
        std_rng_next(&mut self.rng)
    }
}

/// A fixed-point sample in `[0, 1)`.
pub fn random(rng: &mut Randomizer) -> (r: i64)
    ensures
        0 <= r < ONE,
{
    let bits = rng.next_bits();
    (bits % (ONE as u64)) as i64
}

/// A fixed-point sample in `[min, max)`.
pub fn random_interval(rng: &mut Randomizer, min: i64, max: i64) -> (r: i64)
    requires
        min < max,
    ensures
        min <= r < max,
{
    let span: u64 = ((max as i128) - (min as i128)) as u64;
    let bits = rng.next_bits();
    let off = bits % span;
    ((min as i128) + (off as i128)) as i64
}

/// A uniformly chosen index below `n`.
pub fn random_index(rng: &mut Randomizer, n: usize) -> (r: usize)
    requires
        n > 0,
    ensures
        r < n,
{
    let bits = rng.next_bits();
    (bits % (n as u64)) as usize
}

} // verus!
