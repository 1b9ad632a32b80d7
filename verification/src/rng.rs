//! A seedable uniform integer generator.
//!
//! The interpreter draws indices into match lists through this type; the
//! generator is an explicit parameter of every step, so a run can be
//! replayed deterministically from its seed.

use vstd::prelude::*;

verus! {

#[verifier::external_type_specification]
#[verifier::external_body]
pub struct ExChaCha20Rng(rand_chacha::ChaCha20Rng);

/// Relies on rand_core::SeedableRng::seed_from_u64 for
/// rand_chacha::ChaCha20Rng: builds a generator from a 64-bit seed.
/// Nothing is promised of the stream it produces.
#[verifier::external_body]
fn chacha_from_seed(seed: u64) -> rand_chacha::ChaCha20Rng {
    <rand_chacha::ChaCha20Rng as rand::SeedableRng>::seed_from_u64(seed)
}

/// Relies on rand::Rng::gen_range over the half-open range `0..n`: the
/// sample lies in that range, which the precondition keeps non-empty
/// (gen_range panics on an empty range).
#[verifier::external_body]
fn chacha_index(rng: &mut rand_chacha::ChaCha20Rng, n: usize) -> (r: usize)
    requires
        n > 0,
    ensures
        r < n,
{
    rand::Rng::gen_range(rng, 0..n)
}

/// A seedable uniform integer generator backed by the ChaCha stream.
pub struct Rng {
    inner: rand_chacha::ChaCha20Rng,
}

impl Rng {
    /// A generator seeded deterministically from a 64-bit seed.
    pub fn seeded(seed: u64) -> Rng {
        Rng { inner: chacha_from_seed(seed) }
    }

    /// Draws an index from `[0, n)`.
    pub fn index(&mut self, n: usize) -> (r: usize)
        requires
            n > 0,
        ensures
            r < n,
    {
        chacha_index(&mut self.inner, n)
    }
}

} // verus!
