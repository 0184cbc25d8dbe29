use half_tree_dpf::field::{DpfRange, F2, U64};

#[test]
fn f2_arithmetic() {
    assert_eq!(F2::zero(), F2(false));
    assert_eq!(F2::one(), F2(true));
    assert_eq!(F2(true).plus(F2(true)), F2(false));
    assert_eq!(F2(true).plus(F2(false)), F2(true));
    assert_eq!(F2(false).minus(F2(true)), F2(true));
    assert_eq!(F2(true).negate(), F2(true));
    assert_eq!(F2(true).times_bit(true), F2(true));
    assert_eq!(F2(true).times_bit(false), F2(false));
    // Every element is its own inverse.
    for a in [F2(false), F2(true)] {
        assert_eq!(a.plus(a), F2::zero());
    }
}

#[test]
fn f2_convert_uses_lsb() {
    let mut b = [0xffu8; 16];
    b[15] = 0xfe;
    assert_eq!(F2::convert(&b), F2(false));
    b[15] = 0x01;
    assert_eq!(F2::convert(&b), F2(true));
}

#[test]
fn u64_wrapping_arithmetic() {
    assert_eq!(U64::zero(), U64(0));
    assert_eq!(U64::one(), U64(1));
    assert_eq!(U64(u64::MAX).plus(U64(2)), U64(1));
    assert_eq!(U64(3).minus(U64(5)), U64(u64::MAX - 1));
    assert_eq!(U64(1).negate(), U64(u64::MAX));
    assert_eq!(U64(0).negate(), U64(0));
    assert_eq!(U64(77).times_bit(true), U64(77));
    assert_eq!(U64(77).times_bit(false), U64(0));
    // a - b == a + (-b), and a + (-a) == 0
    for (a, b) in [(5u64, 9u64), (u64::MAX, 1), (0, 0), (1 << 63, 1 << 63)] {
        assert_eq!(U64(a).minus(U64(b)), U64(a).plus(U64(b).negate()));
        assert_eq!(U64(a).plus(U64(a).negate()), U64::zero());
        assert_eq!(U64(a).plus(U64(b)), U64(b).plus(U64(a)));
    }
}

#[test]
fn u64_convert_reads_first_eight_bytes_little_endian() {
    let mut b = [0u8; 16];
    for i in 0..16 {
        b[i] = (i + 1) as u8;
    }
    assert_eq!(U64::convert(&b), U64(0x0807_0605_0403_0201));
    assert_eq!(U64::convert(&[0xffu8; 16]), U64(u64::MAX));
    assert_eq!(U64::convert(&[0u8; 16]), U64(0));
}
