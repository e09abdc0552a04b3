//! Randomness for MEV obfuscation and secret generation.
//!
//! Production paths draw from a cryptographically secure source
//! (`ChaCha20Rng` seeded from the operating system, or the thread RNG);
//! a seeded generator exists so that tests can reproduce decoy counts
//! and permutations. Nothing is assumed about the values drawn beyond
//! their documented ranges and lengths.

use rand::Rng;
use rand::RngCore;
use rand::SeedableRng;
use rand_chacha::ChaCha20Rng;
use vstd::prelude::*;

verus! {

#[verifier::external_type_specification]
#[verifier::external_body]
pub struct ExChaCha20Rng(ChaCha20Rng);

/// Relies on rand_core's `SeedableRng::from_entropy`: a fresh
/// cryptographically secure generator; nothing is assumed of its stream.
#[verifier::external_body]
pub fn rng_from_entropy() -> ChaCha20Rng {
    ChaCha20Rng::from_entropy()
}

/// Relies on rand_core's `SeedableRng::seed_from_u64`: a deterministic
/// generator for reproducible tests; nothing is assumed of its stream.
#[verifier::external_body]
pub fn rng_from_seed(seed: u64) -> ChaCha20Rng {
    ChaCha20Rng::seed_from_u64(seed)
}

/// Relies on rand's `Rng::gen_range` over an inclusive range: the sample
/// lies in the range; the call panics only on an empty range, which the
/// precondition excludes.
#[verifier::external_body]
pub fn rng_range(rng: &mut ChaCha20Rng, lo: usize, hi: usize) -> (r: usize)
    requires
        lo <= hi,
    ensures
        lo <= r <= hi,
{
    rng.gen_range(lo..=hi)
}

/// Relies on rand_core's `RngCore::fill_bytes`: fills the buffer, so the
/// result has exactly the requested length.
#[verifier::external_body]
pub fn rng_bytes(rng: &mut ChaCha20Rng, n: usize) -> (r: Vec<u8>)
    ensures
        r@.len() == n,
{
    let mut buf = vec![0u8; n];
    rng.fill_bytes(&mut buf);
    buf
}

/// Relies on rand's `thread_rng` and `Rng::gen` for a 32-byte array: a
/// secure secret of exactly 32 bytes; nothing is assumed of its value.
#[verifier::external_body]
pub fn random_bytes_32() -> (r: Vec<u8>)
    ensures
        r@.len() == 32,
{
    let bytes: [u8; 32] = rand::thread_rng().gen();
    bytes.to_vec()
}

} // verus!
