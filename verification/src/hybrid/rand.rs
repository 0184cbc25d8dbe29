//! F_Rand — coin-tossing ideal functionality.
//!
//! Both parties receive the same uniformly random λ-bit block.
//! In the real protocol this is realised from COT; here it is simulated.

use vstd::prelude::*;
use crate::hybrid::chacha::{chacha20_block_at, chacha_block_at};

verus! {

pub trait RandOracle {
    /// The blocks this oracle has handed out so far, oldest first.
    spec fn drawn(&self) -> Seq<Seq<u8>>;

    /// Sample a shared random 16-byte block (one call to F_Rand).
    fn sample_block(&mut self) -> (w: [u8; 16])
        ensures
            final(self).drawn() == old(self).drawn().push(w@),
    ;
}

// ---------------------------------------------------------------------------
// Ideal (shared-seed) implementation — for testing
// ---------------------------------------------------------------------------

/// F_Rand simulated by a seeded ChaCha20 stream, read 16 bytes at a time.
pub struct IdealRand {
    seed: u64,
    word_pos: u128,
    history: Ghost<Seq<Seq<u8>>>,
}

impl IdealRand {
    /// The stream this oracle reads: its seed and the word position of
    /// the next block.
    pub closed spec fn stream(&self) -> (u64, u128) {
        (self.seed, self.word_pos)
    }

    /// A coin-tossing oracle at the start of the ChaCha20 stream seeded
    /// with `seed`; it has handed out nothing yet.
    pub fn new(seed: u64) -> (rand: Self)
        ensures
            rand.stream() == (seed, 0u128),
            rand.drawn() == Seq::<Seq<u8>>::empty(),
    {
        IdealRand { seed, word_pos: 0, history: Ghost(Seq::empty()) }
    }
}

impl RandOracle for IdealRand {
    closed spec fn drawn(&self) -> Seq<Seq<u8>> {
        self.history@
    }

    /// The next 16 bytes (four words) of the stream.
    fn sample_block(&mut self) -> (w: [u8; 16])
        ensures
            w@ == chacha20_block_at(old(self).stream().0, old(self).stream().1),
            final(self).stream() == (old(self).stream().0, old(self).stream().1.wrapping_add(4)),
    {
        let w = chacha_block_at(self.seed, self.word_pos);
        self.word_pos = self.word_pos.wrapping_add(4);
        self.history = Ghost(self.history@.push(w@));
        w
    }
}

} // verus!
