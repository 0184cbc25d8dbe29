//! Tests for the reference (dealer) DPF.Gen + DPF.Eval.

use half_tree_dpf::{
    bits::{decompose_bits_msb, lsb, xor_block},
    dpf::{
        eval::eval,
        gen_ref::gen,
        key::DpfKey,
        next_level::{next_level_last, next_level_prefix},
    },
    seed::{Seed, SeedTag},
    field::{DpfRange, F2, U64},
    hash::{AesExpander, SeedExpander, XorExpander},
};

fn check_dpf_correctness<R: DpfRange + std::fmt::Debug, E: SeedExpander>(
    n: usize,
    alpha: u128,
    beta: R,
    expander: &E,
) {
    let alpha_bits = decompose_bits_msb(alpha, n);

    // random-looking but deterministic delta and root
    let mut delta = [0u8; 16];
    delta[0] = 0xde;
    delta[15] = 0x01; // LSB = 1

    let mut root0 = [0u8; 16];
    root0[0] = 0xca;
    root0[1] = 0xfe;

    let (k0, k1) = gen(expander, &alpha_bits, beta.clone(), delta, root0);

    for x in 0u128..(1 << n) {
        let x_bits = decompose_bits_msb(x, n);
        let y0 = eval(false, expander, &k0, &x_bits);
        let y1 = eval(true, expander, &k1, &x_bits);
        let y = y0 + y1;

        let expected = if x == alpha { beta.clone() } else { R::zero() };
        assert_eq!(y, expected, "n={n} alpha={alpha} x={x}: got {y:?} expected {expected:?}");
    }
}

#[test]
fn ref_dpf_f2_n1() {
    let exp = XorExpander::new([0x42u8; 16]);
    check_dpf_correctness(1, 0, F2(true), &exp);
    check_dpf_correctness(1, 1, F2(true), &exp);
}

#[test]
fn ref_dpf_f2_small() {
    let exp = XorExpander::new([0x11u8; 16]);
    for n in 2..=6usize {
        for alpha in 0u128..(1 << n) {
            check_dpf_correctness(n, alpha, F2(true), &exp);
        }
    }
}

#[test]
fn ref_dpf_u64_small() {
    let exp = XorExpander::new([0x55u8; 16]);
    for n in 1..=5usize {
        check_dpf_correctness(n, 0, U64(42), &exp);
        check_dpf_correctness(n, (1 << n) - 1, U64(999), &exp);
    }
}

#[test]
fn ref_dpf_aes_u64_every_alpha() {
    let exp = AesExpander::new([0x07u8; 16]);
    for n in 1..=4usize {
        for alpha in 0u128..(1 << n) {
            check_dpf_correctness(n, alpha, U64(0xdead_beef_0000_0001), &exp);
        }
    }
}

#[test]
fn ref_dpf_aes_f2() {
    let exp = AesExpander::new([0xa5u8; 16]);
    check_dpf_correctness(7, 93, F2(true), &exp);
}

#[test]
fn ref_dpf_zero_beta_gives_zero_everywhere() {
    let exp = XorExpander::new([0x33u8; 16]);
    check_dpf_correctness(3, 5, U64(0), &exp);
}

#[test]
fn ref_keys_share_correction_words() {
    let exp = XorExpander::new([0x5eu8; 16]);
    let alpha_bits = decompose_bits_msb(9, 5);
    let mut delta = [0x31u8; 16];
    delta[15] = 0x03;
    let root0 = [0x77u8; 16];
    let (k0, k1) = gen(&exp, &alpha_bits, U64(5), delta, root0);
    assert_eq!(k0.root.0, root0);
    let mut root1 = root0;
    for i in 0..16 {
        root1[i] ^= delta[i];
    }
    assert_eq!(k1.root.0, root1);
    assert_eq!(k0.prefix_cws.len(), 4);
    assert_eq!(k0.prefix_cws, k1.prefix_cws);
    assert_eq!(k0.last_cw, k1.last_cw);
    assert_eq!(k0.out_cw, k1.out_cw);
}

#[test]
fn eval_peels_its_first_level() {
    let exp = XorExpander::new([0x4bu8; 16]);
    let alpha_bits = decompose_bits_msb(6, 4);
    let mut delta = [0x15u8; 16];
    delta[15] = 0x81;
    let (k0, k1) = gen(&exp, &alpha_bits, U64(11), delta, [0x3cu8; 16]);
    for key in [&k0, &k1] {
        for x in 0u128..16 {
            let x_bits = decompose_bits_msb(x, 4);
            let r = key.root.0;
            let mut c = exp.hash(&r);
            if x_bits[0] {
                c = xor_block(&c, &r);
            }
            if lsb(&r) {
                c = xor_block(&c, &key.prefix_cws[0].0);
            }
            let peeled = DpfKey {
                root: Seed(c),
                prefix_cws: key.prefix_cws[1..].to_vec(),
                last_cw: key.last_cw,
                out_cw: key.out_cw,
            };
            for party in [false, true] {
                assert_eq!(
                    eval(party, &exp, key, &x_bits),
                    eval(party, &exp, &peeled, &x_bits[1..]),
                );
            }
        }
    }
}

#[test]
fn eval_reads_the_expanded_leaf_level() {
    let exp = AesExpander::new([0x62u8; 16]);
    let n = 4;
    let mut delta = [0x0fu8; 16];
    delta[15] = 0x33;
    let (k0, k1) = gen(&exp, &decompose_bits_msb(11, n), U64(23), delta, [0x90u8; 16]);
    for (party, key) in [(false, &k0), (true, &k1)] {
        let levels = key
            .prefix_cws
            .iter()
            .fold(vec![SeedTag::from_block(key.root.0)], |p, cw| next_level_prefix(&exp, &p, cw));
        let leaves = next_level_last(&exp, &levels, &key.last_cw, true);
        assert_eq!(leaves.len(), 1 << n);
        for x in 0u128..(1 << n) {
            let x_bits = decompose_bits_msb(x, n);
            let j = x_bits.iter().fold(0usize, |acc, &bit| 2 * acc + bit as usize);
            let raw = U64::convert(&leaves[j].seed.0) + key.out_cw * leaves[j].tag.0;
            let expected = if party { -raw } else { raw };
            assert_eq!(eval(party, &exp, key, &x_bits), expected, "x={x}");
        }
    }
}
