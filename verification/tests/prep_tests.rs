//! Tests for the Π_PREP preprocessing sub-protocol.

use half_tree_dpf::bits::{lsb, xor_block};
use half_tree_dpf::hybrid::cot::{CotBatch, CotOracle, CotTuple, IdealCot};
use half_tree_dpf::protocol::prep::{prep_from_batches, run_prep};

#[test]
fn prep_delta_lsb_xor_is_one() {
    let alpha = vec![true, false, true, true];
    let mut cot0 = IdealCot::new(1);
    let mut cot1 = IdealCot::new(2);
    let (p0, p1) = run_prep(&alpha, &mut cot0, &mut cot1);
    let xor_lsb = (p0.delta_share[15] ^ p1.delta_share[15]) & 1;
    assert_eq!(xor_lsb, 1, "lsb(⟨Δ⟩₀ ⊕ ⟨Δ⟩₁) must be 1");
}

#[test]
fn prep_output_lengths_match_n() {
    let n = 6;
    let alpha = vec![false; n];
    let mut cot0 = IdealCot::new(10);
    let mut cot1 = IdealCot::new(20);
    let (p0, p1) = run_prep(&alpha, &mut cot0, &mut cot1);
    assert_eq!(p0.k_vals.len(), n);
    assert_eq!(p0.m_vals.len(), n);
    assert_eq!(p1.k_vals.len(), n);
    assert_eq!(p1.m_vals.len(), n);
}

#[test]
fn prep_tests_delta_lsb_xor_is_one() {
    for seed in [0u64, 1, 42, 0xdead_beef] {
        let alpha = vec![true, false, true, true];
        let mut cot0 = IdealCot::new(seed);
        let mut cot1 = IdealCot::new(seed + 1000);
        let (p0, p1) = run_prep(&alpha, &mut cot0, &mut cot1);
        let xor_lsb = (p0.delta_share[15] ^ p1.delta_share[15]) & 1;
        assert_eq!(xor_lsb, 1, "lsb(⟨Δ⟩₀ ⊕ ⟨Δ⟩₁) must be 1 (seed={seed})");
    }
}

#[test]
fn output_lengths_equal_n() {
    for n in [1, 4, 8, 16] {
        let alpha = vec![false; n];
        let mut cot0 = IdealCot::new(7);
        let mut cot1 = IdealCot::new(13);
        let (p0, p1) = run_prep(&alpha, &mut cot0, &mut cot1);
        assert_eq!(p0.k_vals.len(), n);
        assert_eq!(p0.m_vals.len(), n);
        assert_eq!(p1.k_vals.len(), n);
        assert_eq!(p1.m_vals.len(), n);
    }
}

/// K₀ ⊕ M₀ ⊕ K₁ ⊕ M₁ = αᵢ · Δ with Δ = ⟨Δ⟩₀ ⊕ ⟨Δ⟩₁.
#[test]
fn prep_macs_carry_alpha_times_delta() {
    let alpha = vec![true, false, false, true, true, false];
    let mut cot0 = IdealCot::new(77);
    let mut cot1 = IdealCot::new(78);
    let (p0, p1) = run_prep(&alpha, &mut cot0, &mut cot1);
    let delta = xor_block(&p0.delta_share, &p1.delta_share);
    assert!(lsb(&delta));
    for i in 0..alpha.len() {
        let s = xor_block(
            &xor_block(&p0.k_vals[i], &p0.m_vals[i]),
            &xor_block(&p1.k_vals[i], &p1.m_vals[i]),
        );
        let expected = if alpha[i] { delta } else { [0u8; 16] };
        assert_eq!(s, expected, "i={i}");
    }
}

/// The Δ shares flip the LSB of the oracles' offsets as the protocol says.
#[test]
fn prep_delta_shares_from_oracle_offsets() {
    let mut d0 = [0x20u8; 16];
    d0[15] = 0x01;
    let mut d1 = [0x40u8; 16];
    d1[15] = 0x01;
    let mut cot0 = IdealCot::new_with_delta(d0, 1);
    let mut cot1 = IdealCot::new_with_delta(d1, 2);
    let (p0, p1) = run_prep(&[true], &mut cot0, &mut cot1);
    // lsb(Δ'₁) = 1 flips ⟨Δ⟩₀'s LSB; lsb(Δ'₀) = 1 leaves ⟨Δ⟩₁ alone.
    let mut e0 = d0;
    e0[15] = 0x00;
    assert_eq!(p0.delta_share, e0);
    assert_eq!(p1.delta_share, d1);
    assert_eq!(cot0.delta(), d0);
    assert_eq!(cot1.delta(), d1);
}

/// Exact outputs of Π_PREP on hand-made batches.
#[test]
fn prep_from_hand_made_batches() {
    let d0 = [0u8; 16]; // lsb 0
    let mut d1 = [0u8; 16];
    d1[0] = 0x80; // lsb 0
    let k0 = [0x11u8; 16];
    let k1 = [0x22u8; 16];
    // batch0: P₀ sender with Δ'₀, P₁ receives with r = true.
    let batch0 = CotBatch {
        sender_keys: vec![k0],
        receiver: vec![CotTuple { r: true, m: xor_block(&k0, &d0) }],
    };
    // batch1: P₁ sender with Δ'₁, P₀ receives with r = false.
    let batch1 = CotBatch { sender_keys: vec![k1], receiver: vec![CotTuple { r: false, m: k1 }] };
    let (p0, p1) = prep_from_batches(&[true], d0, d1, &batch0, &batch1);
    // ⟨Δ⟩₀ = Δ'₀ (lsb(Δ'₁) = 0); ⟨Δ⟩₁ = Δ'₁ with LSB flipped (lsb(Δ'₀) = 0).
    assert_eq!(p0.delta_share, d0);
    let mut ds1 = d1;
    ds1[15] = 0x01;
    assert_eq!(p1.delta_share, ds1);
    // g₁ = α ⊕ r₁ = 0: K₀ stays; g₀ = α ⊕ r₀ = 1: K₁ gets ⟨Δ⟩₁.
    assert_eq!(p0.k_vals[0], k0);
    assert_eq!(p1.k_vals[0], xor_block(&k1, &ds1));
    // M₀ comes from the second oracle (r₀ = 0, unchanged), M₁ from the first.
    assert_eq!(p0.m_vals[0], k1);
    assert_eq!(p1.m_vals[0], xor_block(&k0, &d0));
    let s = xor_block(
        &xor_block(&p0.k_vals[0], &p0.m_vals[0]),
        &xor_block(&p1.k_vals[0], &p1.m_vals[0]),
    );
    assert_eq!(s, xor_block(&p0.delta_share, &p1.delta_share));
}
