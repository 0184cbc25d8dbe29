//! The seeded ChaCha20 stream behind the simulated oracles.
//!
//! A generator is held as plain values: the `u64` it was seeded with and
//! its position in the stream, counted in 32-bit words. What the stream
//! holds at a position is named, not stated: ChaCha20 with the key that
//! `seed_from_u64` derives is fixed by the seed alone (rand_core promises
//! the same output for the same seed on every run and platform).

use vstd::prelude::*;
use rand_chacha::ChaCha20Rng;
use rand_chacha::rand_core::{RngCore, SeedableRng};

verus! {

/// The 16 bytes that `fill_bytes` hands out from a `ChaCha20Rng` made by
/// `seed_from_u64(seed)` once its word position is set to `word_pos`.
pub uninterp spec fn chacha20_block_at(seed: u64, word_pos: u128) -> Seq<u8>;

/// The word that `next_u32` hands out from a `ChaCha20Rng` made by
/// `seed_from_u64(seed)` once its word position is set to `word_pos`.
pub uninterp spec fn chacha20_word_at(seed: u64, word_pos: u128) -> u32;

/// Four bytes read as a little-endian 32-bit word.
pub open spec fn le_word(b: Seq<u8>) -> u32 {
    (b[0] as u32) | ((b[1] as u32) << 8u32) | ((b[2] as u32) << 16u32) | ((b[3] as u32) << 24u32)
}

/// The low bit of a little-endian word is the low bit of its first byte.
pub proof fn lemma_le_word_low_bit(b: Seq<u8>)
    ensures
        (le_word(b) & 1u32 == 1u32) == (b[0] & 1u8 == 1u8),
{
    let (b0, b1, b2, b3) = (b[0], b[1], b[2], b[3]);
    assert((((b0 as u32) | ((b1 as u32) << 8u32) | ((b2 as u32) << 16u32) | ((b3 as u32)
        << 24u32)) & 1u32 == 1u32) == (b0 & 1u8 == 1u8)) by (bit_vector);
}

/// `RngCore::fill_bytes` of a 16-byte buffer on `ChaCha20Rng` seeded by
/// `SeedableRng::seed_from_u64(seed)` and moved to `word_pos` by
/// `set_word_pos`: claimed to be the named stream block. `set_word_pos`
/// takes every `u128` (it drops the bits above the 68-bit period) and none
/// of the three calls panics.
#[verifier::external_body]
pub(crate) fn chacha_block_at(seed: u64, word_pos: u128) -> (out: [u8; 16])
    ensures
        out@ == chacha20_block_at(seed, word_pos),
{
    let mut rng = ChaCha20Rng::seed_from_u64(seed);
    rng.set_word_pos(word_pos);
    let mut block = [0u8; 16];
    rng.fill_bytes(&mut block);
    block
}

/// `RngCore::next_u32` on `ChaCha20Rng` seeded by
/// `SeedableRng::seed_from_u64(seed)` and moved to `word_pos` by
/// `set_word_pos`: claimed to be the named stream word, and to be the
/// first four bytes that `fill_bytes` hands out from the same position read
/// little-endian. Both read the generator's buffer at the same word:
/// `next_u32` returns `results[index]`, and `fill_bytes` copies
/// `results[index..]` through `fill_via_u32_chunks`, which writes each word
/// little-endian on every target (rand_core's `block.rs` and `impls.rs`).
#[verifier::external_body]
pub(crate) fn chacha_word_at(seed: u64, word_pos: u128) -> (w: u32)
    ensures
        w == chacha20_word_at(seed, word_pos),
        w == le_word(chacha20_block_at(seed, word_pos)),
{
    let mut rng = ChaCha20Rng::seed_from_u64(seed);
    rng.set_word_pos(word_pos);
    rng.next_u32()
}

} // verus!
