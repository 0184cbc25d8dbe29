//! End-to-end correctness tests for Π_DPF.
//!
//! Core invariant: for all x ∈ [0, N),
//!   eval(0, k0, x) + eval(1, k1, x) = β  if x = α
//!                                   = 0  otherwise.

use half_tree_dpf::{
    bits::{decompose_bits_msb, lsb, xor_block},
    dpf::eval::eval,
    field::{DpfRange, F2},
    hash::{AesExpander, XorExpander},
    hybrid::{
        cot::{CotOracle, IdealCot},
        rand::{IdealRand, RandOracle},
    },
    protocol::fig10::{gen_binary, gen_binary_from_prep},
    protocol::prep::run_prep,
};

fn run_fig10_correctness_f2(n: usize, alpha: u128, cot_seed: u64, rand_seed: u64) {
    let expander = XorExpander::new([0xabu8; 16]);
    let mut cot0 = IdealCot::new(cot_seed);
    let mut cot1 = IdealCot::new(cot_seed + 1);
    let mut rand = IdealRand::new(rand_seed);

    let alpha_bits = decompose_bits_msb(alpha, n);
    let pair = gen_binary(&expander, &mut cot0, &mut cot1, &mut rand, &alpha_bits, F2(true));

    for x in 0u128..(1 << n) {
        let x_bits = decompose_bits_msb(x, n);
        let y0 = eval(false, &expander, &pair.key0, &x_bits);
        let y1 = eval(true, &expander, &pair.key1, &x_bits);
        let y = y0 + y1;

        let expected = if x == alpha { F2(true) } else { F2(false) };
        assert_eq!(y, expected, "fig10 F2: n={n} alpha={alpha} x={x}: got {y:?} expected {expected:?}");
    }
}

#[test]
fn fig10_f2_n1_all_alpha() {
    for alpha in 0u128..2 {
        run_fig10_correctness_f2(1, alpha, 100, 200);
    }
}

#[test]
fn fig10_f2_n2_all_alpha() {
    for alpha in 0u128..4 {
        run_fig10_correctness_f2(2, alpha, 300, 400);
    }
}

#[test]
fn fig10_f2_n4_exhaustive() {
    for alpha in 0u128..16 {
        run_fig10_correctness_f2(4, alpha, alpha as u64 * 17 + 1, alpha as u64 * 31 + 2);
    }
}

#[test]
fn fig10_f2_n8_spot_check() {
    for alpha in [0u128, 1, 127, 128, 255] {
        run_fig10_correctness_f2(8, alpha, 999, 888);
    }
}

#[test]
fn fig10_f2_aes_expander() {
    let expander = AesExpander::new([0x3cu8; 16]);
    let n = 5;
    let alpha = 19u128;
    let mut cot0 = IdealCot::new(5);
    let mut cot1 = IdealCot::new(6);
    let mut rand = IdealRand::new(7);
    let alpha_bits = decompose_bits_msb(alpha, n);
    let pair = gen_binary(&expander, &mut cot0, &mut cot1, &mut rand, &alpha_bits, F2(true));
    for x in 0u128..(1 << n) {
        let x_bits = decompose_bits_msb(x, n);
        let y = eval(false, &expander, &pair.key0, &x_bits)
            .plus(eval(true, &expander, &pair.key1, &x_bits));
        assert_eq!(y, F2(x == alpha), "x={x}");
    }
}

#[test]
fn fig10_roots_differ_by_delta_with_lsb_one() {
    let expander = XorExpander::new([0x01u8; 16]);
    let mut cot0 = IdealCot::new(41);
    let mut cot1 = IdealCot::new(42);
    let d0 = cot0.delta();
    let d1 = cot1.delta();
    let mut rand = IdealRand::new(43);
    let alpha_bits = decompose_bits_msb(6, 3);
    let pair = gen_binary(&expander, &mut cot0, &mut cot1, &mut rand, &alpha_bits, F2(true));
    let delta = xor_block(&pair.key0.root.0, &pair.key1.root.0);
    assert!(lsb(&delta));
    // Both oracles' offsets have LSB 1, so ⟨Δ⟩₀ has its LSB flipped and
    // ⟨Δ⟩₁ is Δ'₁: Δ = Δ'₀ ⊕ Δ'₁ ⊕ 1.
    let mut expected = xor_block(&d0, &d1);
    expected[15] ^= 1;
    assert_eq!(delta, expected);
    assert_eq!(pair.key0.prefix_cws, pair.key1.prefix_cws);
    assert_eq!(pair.key0.prefix_cws.len(), 2);
    assert_eq!(cot0.delta(), d0);
    assert_eq!(cot1.delta(), d1);
}

#[test]
fn fig10_from_prep_with_fixed_w() {
    let expander = XorExpander::new([0x77u8; 16]);
    let n = 4;
    let alpha = 10u128;
    let alpha_bits = decompose_bits_msb(alpha, n);
    let mut cot0 = IdealCot::new(500);
    let mut cot1 = IdealCot::new(501);
    let (p0, p1) = run_prep(&alpha_bits, &mut cot0, &mut cot1);
    let w = [0x9au8; 16];
    let pair = gen_binary_from_prep(&expander, &p0, &p1, w, &alpha_bits, F2(true));
    assert_eq!(pair.key0.root.0, xor_block(&p0.delta_share, &w));
    assert_eq!(pair.key1.root.0, xor_block(&p1.delta_share, &w));
    for x in 0u128..(1 << n) {
        let x_bits = decompose_bits_msb(x, n);
        let y = eval(false, &expander, &pair.key0, &x_bits) + eval(true, &expander, &pair.key1, &x_bits);
        assert_eq!(y, F2(x == alpha), "x={x}");
    }
}

#[test]
fn fig10_roots_are_delta_shares_masked_by_the_drawn_block() {
    let expander = XorExpander::new([0x2cu8; 16]);
    let mut cot0 = IdealCot::new(61);
    let mut cot1 = IdealCot::new(62);
    let d0 = cot0.delta();
    let d1 = cot1.delta();
    let alpha_bits = decompose_bits_msb(5, 3);
    let pair = gen_binary(
        &expander,
        &mut cot0,
        &mut cot1,
        &mut IdealRand::new(63),
        &alpha_bits,
        F2(true),
    );
    // A second oracle on the same seed hands out the same first block W.
    let w = IdealRand::new(63).sample_block();
    // Both offsets have LSB 1: ⟨Δ⟩₀ = Δ'₀ ⊕ 1 and ⟨Δ⟩₁ = Δ'₁.
    let mut ds0 = d0;
    ds0[15] ^= 1;
    assert_eq!(xor_block(&pair.key0.root.0, &w), ds0);
    assert_eq!(xor_block(&pair.key1.root.0, &w), d1);
}
