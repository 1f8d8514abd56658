//! Seedable cryptographically-strong byte generator used by the samplers.
//!
//! The generator is a ChaCha20 stream cipher keyed by a 32-byte seed. The
//! verifier treats its output as opaque: nothing is assumed of the drawn
//! values beyond their length, so everything proved downstream holds for
//! every possible stream.

use vstd::prelude::*;

verus! {

#[verifier::external_type_specification]
#[verifier::external_body]
pub struct ExChaCha20Rng(rand_chacha::ChaCha20Rng);

/// A seeded random generator. Equal seeds give equal streams, which makes
/// generation reproducible; the contracts deliberately do not say which
/// bytes come out.
pub struct WbRng {
    inner: rand_chacha::ChaCha20Rng,
}

impl WbRng {
    /// Relies on rand_chacha::ChaCha20Rng::from_seed (SeedableRng): builds
    /// the generator deterministically from a 32-byte seed.
    #[verifier::external_body]
    pub fn from_seed(seed: &Vec<u8>) -> (r: WbRng)
        requires
            seed@.len() == 32,
    {
        let mut s = [0u8; 32];
        s.copy_from_slice(seed.as_slice());
        WbRng { inner: <rand_chacha::ChaCha20Rng as rand::SeedableRng>::from_seed(s) }
    }

    /// Relies on rand::RngCore::next_u32 for ChaCha20Rng: draws the next
    /// 32-bit word of the stream. Nothing is promised of its value.
    #[verifier::external_body]
    pub fn next_u32(&mut self) -> (r: u32) {
        rand::RngCore::next_u32(&mut self.inner)
    }

    /// Relies on rand::RngCore::fill_bytes for ChaCha20Rng: draws the next
    /// bytes of the stream. Only the length of the result is promised.
    #[verifier::external_body]
    pub fn random_bytes(&mut self, n: usize) -> (r: Vec<u8>)
        ensures
            r@.len() == n,
    {
        let mut buf = vec![0u8; n];
        rand::RngCore::fill_bytes(&mut self.inner, buf.as_mut_slice());
        buf
    }
}

} // verus!
