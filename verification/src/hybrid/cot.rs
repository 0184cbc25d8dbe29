//! F_COT — Correlated Oblivious Transfer ideal functionality.
//!
//! COT provides IT-MAC tuples:
//!   the sender gets:   Δ  and  K[rᵢ]
//!   the receiver gets: rᵢ  and  M[rᵢ] = K[rᵢ] ⊕ rᵢ·Δ
//!
//! The `CotOracle` trait abstracts this; `IdealCot` simulates it locally
//! (trusted third party — for testing only).

use vstd::prelude::*;
use crate::bits::{lsb_spec, set_lsb_spec, xor_block, xor_spec};
use crate::hybrid::chacha::{
    chacha20_block_at, chacha20_word_at, chacha_block_at, chacha_word_at, lemma_le_word_low_bit,
};

verus! {

/// One COT tuple from the receiver's perspective.
#[derive(Clone, Copy, Debug)]
pub struct CotTuple {
    /// The receiver's choice bit.
    pub r: bool,
    /// The receiver's MAC value M[r] = K[r] ⊕ r·Δ.
    pub m: [u8; 16],
}

/// A batch of n COT tuples returned by one `extend` call.
#[derive(Clone, Debug)]
pub struct CotBatch {
    /// Sender's keys K[r₁], …, K[rₙ] (one per tuple).
    pub sender_keys: Vec<[u8; 16]>,
    /// Receiver's tuples (rᵢ, M[rᵢ]) for i ∈ [1,n].
    pub receiver: Vec<CotTuple>,
}

/// The MAC that key `k` gives choice bit `r` under Δ: K ⊕ r·Δ.
pub open spec fn mac_spec(k: Seq<u8>, r: bool, delta: Seq<u8>) -> Seq<u8> {
    if r {
        xor_spec(k, delta)
    } else {
        k
    }
}

/// `batch` holds at least `n` tuples, the first `n` under Δ = `delta`:
/// M[rᵢ] = K[rᵢ] ⊕ rᵢ·Δ.
pub open spec fn cot_batch_ok(batch: CotBatch, n: nat, delta: Seq<u8>) -> bool {
    &&& batch.sender_keys@.len() >= n
    &&& batch.receiver@.len() >= n
    &&& forall|i: int|
        #![trigger batch.receiver@[i]]
        0 <= i < n ==> batch.receiver@[i].m@ == mac_spec(
            batch.sender_keys@[i]@,
            batch.receiver@[i].r,
            delta,
        )
}

/// Abstract COT oracle (F_COT).
pub trait CotOracle {
    /// The sender's global offset Δ.
    spec fn delta_spec(&self) -> Seq<u8>;

    /// One-time initialisation: returns Δ to the sender.
    fn delta(&self) -> (d: [u8; 16])
        ensures
            d@ == self.delta_spec(),
    ;

    /// The `extend` calls answered so far, oldest first: each with the
    /// number of tuples asked for and the batch handed out.
    spec fn extensions(&self) -> Seq<(nat, CotBatch)>;

    /// Extend: generate (at least) `n` fresh COT tuples under the stored Δ.
    fn extend(&mut self, n: usize) -> (batch: CotBatch)
        ensures
            final(self).delta_spec() == old(self).delta_spec(),
            final(self).extensions() == old(self).extensions().push((n as nat, batch)),
            cot_batch_ok(batch, n as nat, old(self).delta_spec()),
    ;
}

// ---------------------------------------------------------------------------
// Ideal (simulated) COT — trusted-dealer model, for testing
// ---------------------------------------------------------------------------

/// The word position at which `IdealCot::extend` draws its `i`-th tuple
/// when it starts at `pos`: each tuple takes five words, a 16-byte key and
/// then one word for the choice bit.
pub open spec fn cot_tuple_pos(pos: u128, i: nat) -> u128
    decreases i,
{
    if i == 0 {
        pos
    } else {
        cot_tuple_pos(pos, (i - 1) as nat).wrapping_add(5)
    }
}

/// F_COT simulated by a trusted dealer that reads a seeded ChaCha20 stream.
pub struct IdealCot {
    delta: [u8; 16],
    seed: u64,
    word_pos: u128,
    history: Ghost<Seq<(nat, CotBatch)>>,
}

impl IdealCot {
    /// The stream this oracle reads: its seed and the word position of
    /// the next draw.
    pub closed spec fn stream(&self) -> (u64, u128) {
        (self.seed, self.word_pos)
    }

    /// A COT oracle whose Δ is the first 16 bytes of the ChaCha20 stream
    /// seeded with `seed`, with its LSB forced to 1.
    pub fn new(seed: u64) -> (cot: Self)
        ensures
            cot.delta_spec() == set_lsb_spec(chacha20_block_at(seed, 0), true),
            lsb_spec(cot.delta_spec()),
            cot.stream() == (seed, 4u128),
            cot.extensions() == Seq::<(nat, CotBatch)>::empty(),
    {
        let mut delta = chacha_block_at(seed, 0);
        let b = delta[15];
        delta[15] = b | 1;  // ensure LSB = 1
        proof {
            assert((b | 1u8) & 1u8 == 1u8) by (bit_vector);
        }
        IdealCot { delta, seed, word_pos: 4, history: Ghost(Seq::empty()) }
    }

    /// A COT oracle with the given Δ, whose LSB must be 1, drawing its
    /// tuples from the start of the ChaCha20 stream seeded with `seed`.
    pub fn new_with_delta(delta: [u8; 16], seed: u64) -> (cot: Self)
        requires
            lsb_spec(delta@),
        ensures
            cot.delta_spec() == delta@,
            cot.stream() == (seed, 0u128),
            cot.extensions() == Seq::<(nat, CotBatch)>::empty(),
    {
        IdealCot { delta, seed, word_pos: 0, history: Ghost(Seq::empty()) }
    }
}

impl CotOracle for IdealCot {
    closed spec fn delta_spec(&self) -> Seq<u8> {
        self.delta@
    }

    closed spec fn extensions(&self) -> Seq<(nat, CotBatch)> {
        self.history@
    }

    fn delta(&self) -> (d: [u8; 16]) {
        self.delta
    }

    /// Exactly `n` fresh tuples, read from the stream five words each:
    /// the sender key, then a word whose low bit is the choice bit.
    fn extend(&mut self, n: usize) -> (batch: CotBatch)
        ensures
            batch.sender_keys@.len() == n,
            batch.receiver@.len() == n,
            final(self).stream() == (
                old(self).stream().0,
                cot_tuple_pos(old(self).stream().1, n as nat),
            ),
            forall|i: int|
                #![trigger batch.receiver@[i]]
                0 <= i < n ==> {
                    let pos = cot_tuple_pos(old(self).stream().1, i as nat);
                    &&& batch.sender_keys@[i]@ == chacha20_block_at(old(self).stream().0, pos)
                    &&& batch.receiver@[i].r == (chacha20_word_at(
                        old(self).stream().0,
                        pos.wrapping_add(4),
                    ) & 1 == 1)
                    &&& batch.receiver@[i].r == (chacha20_block_at(
                        old(self).stream().0,
                        pos.wrapping_add(4),
                    )[0] & 1 == 1)
                },
    {
        let mut sender_keys: Vec<[u8; 16]> = Vec::with_capacity(n);
        let mut receiver: Vec<CotTuple> = Vec::with_capacity(n);
        let ghost delta = self.delta@;
        let mut i: usize = 0;
        while i < n
            invariant
                i <= n,
                self.delta@ == delta,
                self.history == old(self).history,
                self.seed == old(self).seed,
                self.word_pos == cot_tuple_pos(old(self).word_pos, i as nat),
                sender_keys@.len() == i,
                receiver@.len() == i,
                forall|j: int|
                    #![trigger receiver@[j]]
                    0 <= j < i ==> receiver@[j].m@ == mac_spec(
                        sender_keys@[j]@,
                        receiver@[j].r,
                        delta,
                    ),
                forall|j: int|
                    #![trigger sender_keys@[j]]
                    0 <= j < i ==> sender_keys@[j]@ == chacha20_block_at(
                        self.seed,
                        cot_tuple_pos(old(self).word_pos, j as nat),
                    ),
                forall|j: int|
                    #![trigger receiver@[j]]
                    0 <= j < i ==> receiver@[j].r == (chacha20_word_at(
                        self.seed,
                        cot_tuple_pos(old(self).word_pos, j as nat).wrapping_add(4),
                    ) & 1 == 1),
                forall|j: int|
                    #![trigger receiver@[j]]
                    0 <= j < i ==> receiver@[j].r == (chacha20_block_at(
                        self.seed,
                        cot_tuple_pos(old(self).word_pos, j as nat).wrapping_add(4),
                    )[0] & 1 == 1),
            decreases n - i,
        {
            let ghost pos = self.word_pos;
            let k = chacha_block_at(self.seed, self.word_pos);
            let word = chacha_word_at(self.seed, self.word_pos.wrapping_add(4));
            let r: bool = (word & 1) == 1;
            proof {
                lemma_le_word_low_bit(chacha20_block_at(self.seed, self.word_pos.wrapping_add(4)));
            }
            self.word_pos = self.word_pos.wrapping_add(5);

            // M[r] = K[r] ⊕ r·Δ
            let m = if r {
                xor_block(&k, &self.delta)
            } else {
                k
            };

            sender_keys.push(k);
            receiver.push(CotTuple { r, m });
            proof {
                assert(receiver@[i as int].r == (chacha20_word_at(self.seed, pos.wrapping_add(4))
                    & 1 == 1));
                assert(sender_keys@[i as int]@ == chacha20_block_at(self.seed, pos));
            }
            i = i + 1;
        }
        let batch = CotBatch { sender_keys, receiver };
        self.history = Ghost(self.history@.push((n as nat, batch)));
        batch
    }
}

} // verus!
