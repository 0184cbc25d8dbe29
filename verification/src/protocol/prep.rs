//! Π_PREP — preprocessing sub-protocol.
//!
//! Produces, from two correlated-OT oracles (one with each party as sender):
//!   • ⟨Δ⟩_b      — each party's share of the global offset Δ
//!   • K_b[⟨αᵢ⟩_{1-b}] — sender key for the other party's i-th path bit
//!   • M_b[⟨αᵢ⟩_b]     — MAC for own i-th path bit
//! for i ∈ [1, n], such that for every i
//!   K₀ ⊕ M₀ ⊕ K₁ ⊕ M₁ = αᵢ · Δ   where Δ = ⟨Δ⟩₀ ⊕ ⟨Δ⟩₁ has LSB 1.

use vstd::prelude::*;
use crate::bits::{flip_lsb_spec, lemma_xor_lsb_high, lsb, lsb_spec, xor_block, xor_spec, zero_block};
use crate::hybrid::cot::{CotBatch, CotOracle, cot_batch_ok, mac_spec};

verus! {

/// Per-party output of Π_PREP.
#[derive(Clone, Debug)]
pub struct PrepOutput {
    /// This party's share ⟨Δ⟩_b (λ bits).
    pub delta_share: [u8; 16],
    /// K_b[⟨αᵢ⟩_{1-b}] for i ∈ [1,n] — "sender keys" for opposite path bits.
    pub k_vals: Vec<[u8; 16]>,
    /// M_b[⟨αᵢ⟩_b]     for i ∈ [1,n] — IT-MAC values for own path bits.
    pub m_vals: Vec<[u8; 16]>,
}

/// ⟨Δ⟩₀ := Δ'₀ ⊕ (0^{λ-1} ‖ lsb(Δ'₁)).
pub open spec fn delta_share0_spec(d0: Seq<u8>, d1: Seq<u8>) -> Seq<u8> {
    if lsb_spec(d1) {
        flip_lsb_spec(d0)
    } else {
        d0
    }
}

/// ⟨Δ⟩₁ := Δ'₁ ⊕ (0^{λ-1} ‖ (lsb(Δ'₀) ⊕ 1)).
pub open spec fn delta_share1_spec(d0: Seq<u8>, d1: Seq<u8>) -> Seq<u8> {
    if !lsb_spec(d0) {
        flip_lsb_spec(d1)
    } else {
        d1
    }
}

/// The Π_PREP outputs computed from the oracles' offsets Δ'₀, Δ'₁ and
/// their batches. `batch0` comes from the oracle with P₀ as sender (P₁
/// receives), `batch1` from the one with P₁ as sender (P₀ receives).
pub open spec fn prep_outputs_from(
    alpha: Seq<bool>,
    d0: Seq<u8>,
    d1: Seq<u8>,
    batch0: CotBatch,
    batch1: CotBatch,
    p0: PrepOutput,
    p1: PrepOutput,
) -> bool {
    let n = alpha.len();
    let ds0 = delta_share0_spec(d0, d1);
    let ds1 = delta_share1_spec(d0, d1);
    &&& p0.delta_share@ == ds0
    &&& p1.delta_share@ == ds1
    &&& p0.k_vals@.len() == n
    &&& p0.m_vals@.len() == n
    &&& p1.k_vals@.len() == n
    &&& p1.m_vals@.len() == n
    &&& forall|i: int|
        0 <= i < n ==> #[trigger] prep_entry_ok(
            alpha,
            ds0,
            ds1,
            lsb_spec(d0),
            lsb_spec(d1),
            batch0,
            batch1,
            p0.k_vals@,
            p0.m_vals@,
            p1.k_vals@,
            p1.m_vals@,
            i,
        )
}

/// The correlation Π_PREP establishes: Δ = ⟨Δ⟩₀ ⊕ ⟨Δ⟩₁ has LSB 1, and for
/// each i, K₀ ⊕ M₀ ⊕ K₁ ⊕ M₁ = αᵢ · Δ.
pub open spec fn prep_correlated(alpha: Seq<bool>, p0: PrepOutput, p1: PrepOutput) -> bool {
    let n = alpha.len();
    let delta = xor_spec(p0.delta_share@, p1.delta_share@);
    &&& lsb_spec(delta)
    &&& p0.k_vals@.len() == n
    &&& p0.m_vals@.len() == n
    &&& p1.k_vals@.len() == n
    &&& p1.m_vals@.len() == n
    &&& forall|i: int|
        #![trigger p0.k_vals@[i]]
        0 <= i < n ==> xor_spec(
            xor_spec(p0.k_vals@[i]@, p0.m_vals@[i]@),
            xor_spec(p1.k_vals@[i]@, p1.m_vals@[i]@),
        ) == (if alpha[i] {
            delta
        } else {
            zero_block()
        })
}

/// Entry `j` of the Π_PREP outputs, as computed from the two batches.
pub open spec fn prep_entry_ok(
    alpha: Seq<bool>,
    ds0: Seq<u8>,
    ds1: Seq<u8>,
    lsb0: bool,
    lsb1: bool,
    batch0: CotBatch,
    batch1: CotBatch,
    k0: Seq<[u8; 16]>,
    m0: Seq<[u8; 16]>,
    k1: Seq<[u8; 16]>,
    m1: Seq<[u8; 16]>,
    j: int,
) -> bool {
    // P₀ is the receiver of the second oracle, P₁ of the first.
    let r0 = batch1.receiver@[j].r;
    let mac0 = batch1.receiver@[j].m@;
    let r1 = batch0.receiver@[j].r;
    let mac1 = batch0.receiver@[j].m@;
    &&& k0[j]@ == mac_spec(batch0.sender_keys@[j]@, alpha[j] != r1, ds0)
    &&& m0[j]@ == (if r0 && !lsb0 {
        flip_lsb_spec(mac0)
    } else {
        mac0
    })
    &&& k1[j]@ == mac_spec(batch1.sender_keys@[j]@, alpha[j] != r0, ds1)
    &&& m1[j]@ == (if r1 && lsb1 {
        flip_lsb_spec(mac1)
    } else {
        mac1
    })
}

/// Flip the LSB of a block when `cond` holds.
fn flip_lsb_if(b: [u8; 16], cond: bool) -> (out: [u8; 16])
    ensures
        out@ == (if cond {
            flip_lsb_spec(b@)
        } else {
            b@
        }),
{
    let mut out = b;
    if cond {
        out[15] = out[15] ^ 1;
        assert(out@ =~= flip_lsb_spec(b@));
    }
    out
}

/// Compute both parties' Π_PREP outputs from the oracles' offsets and
/// batches (local simulation of the exchange).
///
/// * `alpha_bits` — the *full* path α (MSB first, length n).
/// * `delta0_prime`, `batch0` — Δ'₀ and the batch of the oracle with P₀ as sender.
/// * `delta1_prime`, `batch1` — Δ'₁ and the batch of the oracle with P₁ as sender.
pub fn prep_from_batches(
    alpha_bits: &[bool],
    delta0_prime: [u8; 16],
    delta1_prime: [u8; 16],
    batch0: &CotBatch,
    batch1: &CotBatch,
) -> (out: (PrepOutput, PrepOutput))
    requires
        batch0.sender_keys@.len() >= alpha_bits@.len(),
        batch0.receiver@.len() >= alpha_bits@.len(),
        batch1.sender_keys@.len() >= alpha_bits@.len(),
        batch1.receiver@.len() >= alpha_bits@.len(),
    ensures
        prep_outputs_from(alpha_bits@, delta0_prime@, delta1_prime@, *batch0, *batch1, out.0, out.1),
{
    let n = alpha_bits.len();

    // Exchange LSBs so that lsb(⟨Δ⟩₀ ⊕ ⟨Δ⟩₁) = 1:
    // ⟨Δ⟩_b := Δ'_b ⊕ (0^{λ-1} ‖ (lsb(Δ'_{1-b}) ⊕ b))
    let lsb0 = lsb(&delta0_prime);
    let lsb1 = lsb(&delta1_prime);
    let delta_share0 = flip_lsb_if(delta0_prime, lsb1);
    let delta_share1 = flip_lsb_if(delta1_prime, !lsb0);

    let mut k_vals0: Vec<[u8; 16]> = Vec::with_capacity(n);
    let mut m_vals0: Vec<[u8; 16]> = Vec::with_capacity(n);
    let mut k_vals1: Vec<[u8; 16]> = Vec::with_capacity(n);
    let mut m_vals1: Vec<[u8; 16]> = Vec::with_capacity(n);

    let ghost alpha = alpha_bits@;
    let ghost ds0 = delta_share0@;
    let ghost ds1 = delta_share1@;
    let mut i: usize = 0;
    while i < n
        invariant
            n == alpha.len(),
            alpha == alpha_bits@,
            i <= n,
            batch0.sender_keys@.len() >= n,
            batch0.receiver@.len() >= n,
            batch1.sender_keys@.len() >= n,
            batch1.receiver@.len() >= n,
            ds0 == delta_share0@,
            ds1 == delta_share1@,
            lsb0 == lsb_spec(delta0_prime@),
            lsb1 == lsb_spec(delta1_prime@),
            k_vals0@.len() == i,
            m_vals0@.len() == i,
            k_vals1@.len() == i,
            m_vals1@.len() == i,
            forall|j: int|
                0 <= j < i ==> #[trigger] prep_entry_ok(
                    alpha,
                    ds0,
                    ds1,
                    lsb0,
                    lsb1,
                    *batch0,
                    *batch1,
                    k_vals0@,
                    m_vals0@,
                    k_vals1@,
                    m_vals1@,
                    j,
                ),
        decreases n - i,
    {
        let alpha_i = alpha_bits[i];

        let ghost old_k0 = k_vals0@;
        let ghost old_m0 = m_vals0@;
        let ghost old_k1 = k_vals1@;
        let ghost old_m1 = m_vals1@;

        // ---- P₀ side: sender of the first oracle, receiver of the second ----
        let r0 = batch1.receiver[i].r;  // P₀'s random choice bit as receiver
        let m0 = batch1.receiver[i].m;  // P₀'s MAC from the second oracle
        let r1 = batch0.receiver[i].r;  // P₁'s random choice bit as receiver

        // g₁ = ⟨αᵢ⟩₁ ⊕ r₁ is received from P₁, and
        // K₀[⟨αᵢ⟩₁] = K₀[r₁] ⊕ g₁·⟨Δ⟩₀.
        let g1 = alpha_i != r1;
        let k0 = if g1 {
            xor_block(&batch0.sender_keys[i], &delta_share0)
        } else {
            batch0.sender_keys[i]
        };

        // M₀ is re-based from Δ'₁ onto ⟨Δ⟩₁ (which differs in the LSB).
        let m0_adj = flip_lsb_if(m0, r0 && !lsb0);

        k_vals0.push(k0);
        m_vals0.push(m0_adj);

        // ---- P₁ side: sender of the second oracle, receiver of the first ----
        let g0 = alpha_i != r0;
        let k1 = if g0 {
            xor_block(&batch1.sender_keys[i], &delta_share1)
        } else {
            batch1.sender_keys[i]
        };

        let m1 = batch0.receiver[i].m;
        let m1_adj = flip_lsb_if(m1, r1 && lsb1);

        k_vals1.push(k1);
        m_vals1.push(m1_adj);
        proof {
            assert forall|j: int| 0 <= j <= i implies #[trigger] prep_entry_ok(
                alpha,
                ds0,
                ds1,
                lsb0,
                lsb1,
                *batch0,
                *batch1,
                k_vals0@,
                m_vals0@,
                k_vals1@,
                m_vals1@,
                j,
            ) by {
                if j < i {
                    assert(prep_entry_ok(
                        alpha,
                        ds0,
                        ds1,
                        lsb0,
                        lsb1,
                        *batch0,
                        *batch1,
                        old_k0,
                        old_m0,
                        old_k1,
                        old_m1,
                        j,
                    ));
                }
            }
        }
        i = i + 1;
    }

    (
        PrepOutput { delta_share: delta_share0, k_vals: k_vals0, m_vals: m_vals0 },
        PrepOutput { delta_share: delta_share1, k_vals: k_vals1, m_vals: m_vals1 },
    )
}

/// Run Π_PREP for both parties simultaneously (local simulation).
///
/// * `alpha_bits` — the *full* path α (MSB first, length n).
/// * `cot0`  — COT oracle with P₀ as sender.
/// * `cot1`  — COT oracle with P₁ as sender.
///
/// Returns `(prep0, prep1)`.
pub fn run_prep<C: CotOracle>(alpha_bits: &[bool], cot0: &mut C, cot1: &mut C) -> (out: (
    PrepOutput,
    PrepOutput,
))
    ensures
        final(cot0).delta_spec() == old(cot0).delta_spec(),
        final(cot1).delta_spec() == old(cot1).delta_spec(),
        // each oracle is asked once, for n = |α| tuples
        final(cot0).extensions() == old(cot0).extensions().push(
            (alpha_bits@.len(), final(cot0).extensions().last().1),
        ),
        final(cot1).extensions() == old(cot1).extensions().push(
            (alpha_bits@.len(), final(cot1).extensions().last().1),
        ),
        out.0.delta_share@ == delta_share0_spec(old(cot0).delta_spec(), old(cot1).delta_spec()),
        out.1.delta_share@ == delta_share1_spec(old(cot0).delta_spec(), old(cot1).delta_spec()),
        prep_outputs_from(
            alpha_bits@,
            old(cot0).delta_spec(),
            old(cot1).delta_spec(),
            final(cot0).extensions().last().1,
            final(cot1).extensions().last().1,
            out.0,
            out.1,
        ),
        prep_correlated(alpha_bits@, out.0, out.1),
{
    let n = alpha_bits.len();

    // Initialise: obtain Δ'_b from each COT oracle.
    let delta0_prime = cot0.delta();
    let delta1_prime = cot1.delta();

    // Extend: get n COT tuples from each oracle.
    let batch0 = cot0.extend(n);
    let batch1 = cot1.extend(n);

    let out = prep_from_batches(alpha_bits, delta0_prime, delta1_prime, &batch0, &batch1);
    proof {
        lemma_prep_correlated(
            alpha_bits@,
            delta0_prime@,
            delta1_prime@,
            batch0,
            batch1,
            out.0,
            out.1,
        );
        assert(prep_outputs_from(
            alpha_bits@,
            delta0_prime@,
            delta1_prime@,
            batch0,
            batch1,
            out.0,
            out.1,
        ));
    }
    out
}

/// Byte-level view of the Π_PREP correlation; `fk` marks the byte that
/// holds the LSB.
proof fn lemma_prep_byte(
    s0: u8,
    s1: u8,
    d0: u8,
    d1: u8,
    fk: bool,
    lsb0: bool,
    lsb1: bool,
    r0: bool,
    r1: bool,
    a: bool,
)
    by (bit_vector)
    ensures
        ({
            let ds0 = if lsb1 && fk {
                d0 ^ 1u8
            } else {
                d0
            };
            let ds1 = if !lsb0 && fk {
                d1 ^ 1u8
            } else {
                d1
            };
            let mm0 = if r0 {
                s1 ^ d1
            } else {
                s1
            };
            let mm1 = if r1 {
                s0 ^ d0
            } else {
                s0
            };
            let m0 = if r0 && !lsb0 && fk {
                mm0 ^ 1u8
            } else {
                mm0
            };
            let m1 = if r1 && lsb1 && fk {
                mm1 ^ 1u8
            } else {
                mm1
            };
            let k0 = if a != r1 {
                s0 ^ ds0
            } else {
                s0
            };
            let k1 = if a != r0 {
                s1 ^ ds1
            } else {
                s1
            };
            ((k0 ^ m0) ^ (k1 ^ m1)) == (if a {
                ds0 ^ ds1
            } else {
                0u8
            })
        }),
{
}

/// Π_PREP computed from two correct COT batches establishes the
/// correlation: Δ = ⟨Δ⟩₀ ⊕ ⟨Δ⟩₁ has LSB 1 whatever the oracles' offsets,
/// and K₀ ⊕ M₀ ⊕ K₁ ⊕ M₁ = αᵢ · Δ for each i.
pub proof fn lemma_prep_correlated(
    alpha: Seq<bool>,
    d0: Seq<u8>,
    d1: Seq<u8>,
    batch0: CotBatch,
    batch1: CotBatch,
    p0: PrepOutput,
    p1: PrepOutput,
)
    requires
        d0.len() == 16,
        d1.len() == 16,
        cot_batch_ok(batch0, alpha.len(), d0),
        cot_batch_ok(batch1, alpha.len(), d1),
        prep_outputs_from(alpha, d0, d1, batch0, batch1, p0, p1),
    ensures
        prep_correlated(alpha, p0, p1),
{
    let ds0 = p0.delta_share@;
    let ds1 = p1.delta_share@;
    let delta = xor_spec(ds0, ds1);
    let lsb0 = lsb_spec(d0);
    let lsb1 = lsb_spec(d1);
    lemma_xor_lsb_high(ds0, ds1);
    let x0: u8 = d0[15];
    let x1: u8 = d1[15];
    assert((x0 ^ 1u8) & 1u8 == 1u8 <==> x0 & 1u8 != 1u8) by (bit_vector);
    assert((x1 ^ 1u8) & 1u8 == 1u8 <==> x1 & 1u8 != 1u8) by (bit_vector);
    assert(lsb_spec(delta));
    assert forall|i: int| 0 <= i < alpha.len() implies xor_spec(
        xor_spec(#[trigger] p0.k_vals@[i]@, p0.m_vals@[i]@),
        xor_spec(p1.k_vals@[i]@, p1.m_vals@[i]@),
    ) == (if alpha[i] {
        delta
    } else {
        zero_block()
    }) by {
        let s0 = batch0.sender_keys@[i]@;
        let s1 = batch1.sender_keys@[i]@;
        let r0 = batch1.receiver@[i].r;
        let r1 = batch0.receiver@[i].r;
        assert(prep_entry_ok(
            alpha,
            ds0,
            ds1,
            lsb0,
            lsb1,
            batch0,
            batch1,
            p0.k_vals@,
            p0.m_vals@,
            p1.k_vals@,
            p1.m_vals@,
            i,
        ));
        assert(batch1.receiver@[i].m@ == mac_spec(s1, r0, d1));
        assert(batch0.receiver@[i].m@ == mac_spec(s0, r1, d0));
        let lhs = xor_spec(
            xor_spec(p0.k_vals@[i]@, p0.m_vals@[i]@),
            xor_spec(p1.k_vals@[i]@, p1.m_vals@[i]@),
        );
        let rhs = if alpha[i] {
            delta
        } else {
            zero_block()
        };
        assert forall|k: int| 0 <= k < 16 implies #[trigger] lhs[k] == rhs[k] by {
            lemma_prep_byte(s0[k], s1[k], d0[k], d1[k], k == 15, lsb0, lsb1, r0, r1, alpha[i]);
        }
        assert(lhs =~= rhs);
    }
}

} // verus!
