use half_tree_dpf::bits::{decompose_bits_msb, high_bits, lsb, set_lsb, xor_block, xor_block_inplace};

#[test]
fn decompose_round_trips() {
    let x = 0b1011u128;
    let bits = decompose_bits_msb(x, 4);
    assert_eq!(bits, vec![true, false, true, true]);
}

#[test]
fn xor_block_self_is_zero() {
    let a = [0xabu8; 16];
    let r = xor_block(&a, &a);
    assert_eq!(r, [0u8; 16]);
}

#[test]
fn lsb_correct() {
    let mut b = [0u8; 16];
    b[15] = 0b00000011;
    assert!(lsb(&b));
    b[15] = 0b00000010;
    assert!(!lsb(&b));
}

#[test]
fn decompose_zero_bits_is_empty() {
    assert_eq!(decompose_bits_msb(0xffu128, 0), Vec::<bool>::new());
}

#[test]
fn decompose_keeps_only_low_bits() {
    assert_eq!(decompose_bits_msb(0b1_0110u128, 3), vec![true, true, false]);
    assert_eq!(decompose_bits_msb(u128::MAX, 128).len(), 128);
    let top = decompose_bits_msb(1u128 << 127, 128);
    assert!(top[0]);
    assert!(top[1..].iter().all(|b| !*b));
}

#[test]
fn xor_block_values() {
    let mut a = [0u8; 16];
    let mut b = [0u8; 16];
    for i in 0..16 {
        a[i] = i as u8;
        b[i] = 0xf0;
    }
    let r = xor_block(&a, &b);
    for i in 0..16 {
        assert_eq!(r[i], (i as u8) ^ 0xf0);
    }
    // XOR is commutative and undoing it gives back the block.
    assert_eq!(xor_block(&b, &a), r);
    assert_eq!(xor_block(&r, &b), a);
}

#[test]
fn xor_block_inplace_matches_xor_block() {
    let a = [0x5au8; 16];
    let mut b = [0u8; 16];
    b[3] = 0x11;
    b[15] = 0x01;
    let expected = xor_block(&a, &b);
    let mut c = a;
    xor_block_inplace(&mut c, &b);
    assert_eq!(c, expected);
    assert_eq!(c[3], 0x5a ^ 0x11);
    assert_eq!(c[15], 0x5b);
}

#[test]
fn high_bits_and_set_lsb() {
    let mut b = [0xffu8; 16];
    let h = high_bits(&b);
    assert_eq!(h[15], 0xfe);
    assert_eq!(&h[..15], &[0xffu8; 15][..]);
    assert!(!lsb(&h));
    set_lsb(&mut b, false);
    assert_eq!(b[15], 0xfe);
    set_lsb(&mut b, true);
    assert_eq!(b[15], 0xff);
    let mut z = [0u8; 16];
    set_lsb(&mut z, true);
    assert_eq!(z[15], 1);
    assert!(lsb(&z));
    // Clearing the LSB and setting it back restores the block.
    let mut c = [0x37u8; 16];
    let t = lsb(&c);
    let mut d = high_bits(&c);
    set_lsb(&mut d, t);
    assert_eq!(d, c);
    set_lsb(&mut c, false);
    assert_eq!(c, high_bits(&c));
}

#[test]
fn decompose_distinguishes_points_below_two_to_the_n() {
    let n = 5;
    for x in 0u128..(1 << n) {
        for y in 0u128..(1 << n) {
            assert_eq!(decompose_bits_msb(x, n) == decompose_bits_msb(y, n), x == y);
        }
    }
}

#[test]
fn decompose_then_fold_gives_low_bits() {
    for (x, n) in [(0b1011u128, 4usize), (0xdead_beefu128, 12), (u128::MAX, 128), (77, 0), (300, 8)] {
        let bits = decompose_bits_msb(x, n);
        let v = bits.iter().fold(0u128, |acc, &b| acc.wrapping_shl(1) | b as u128);
        let expected = if n == 128 { x } else { x % (1u128 << n) };
        assert_eq!(v, expected, "x={x} n={n}");
    }
}
