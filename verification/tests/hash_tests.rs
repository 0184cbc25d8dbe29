use half_tree_dpf::bits::{high_bits, lsb, xor_block};
use half_tree_dpf::hash::{AesExpander, SeedExpander, XorExpander};

/// FIPS-197 appendix C.1: AES-128 with key 00..0f on 00112233..ff gives
/// 69c4e0d86a7b0430d8cdb78070b4c55a. H_S(x) = E_S(S ⊕ x) ⊕ (S ⊕ x), so with
/// x = S ⊕ pt the hash is ct ⊕ pt.
#[test]
fn aes_hash_known_answer() {
    let key: [u8; 16] = [0, 1, 2, 3, 4, 5, 6, 7, 8, 9, 10, 11, 12, 13, 14, 15];
    let pt: [u8; 16] = [
        0x00, 0x11, 0x22, 0x33, 0x44, 0x55, 0x66, 0x77, 0x88, 0x99, 0xaa, 0xbb, 0xcc, 0xdd, 0xee,
        0xff,
    ];
    let ct: [u8; 16] = [
        0x69, 0xc4, 0xe0, 0xd8, 0x6a, 0x7b, 0x04, 0x30, 0xd8, 0xcd, 0xb7, 0x80, 0x70, 0xb4, 0xc5,
        0x5a,
    ];
    let exp = AesExpander::new(key);
    let x = xor_block(&key, &pt);
    assert_eq!(exp.hash(&x), xor_block(&ct, &pt));
}

#[test]
fn xor_hash_known_answer() {
    let exp = XorExpander::new([0u8; 16]);
    let mut x = [0u8; 16];
    x[0] = 0xe1; // top three bits wrap into the last byte
    x[1] = 0x20;
    let h = exp.hash(&x);
    let mut expected = [0u8; 16];
    expected[0] = 0x09; // (0xe1 << 3) | (0x20 >> 5)
    expected[1] = 0x00; // 0x20 << 3 truncated
    expected[15] = 0x07; // carry 0xe1 >> 5
    assert_eq!(h, expected);
    // The key is XORed in first.
    let exp2 = XorExpander::new(x);
    assert_eq!(exp2.hash(&x), [0u8; 16]);
}

fn check_expansions<E: SeedExpander>(exp: &E) {
    let mut node = [0x5au8; 16];
    node[15] = 0x21;
    let h = exp.hash(&node);
    let ex = exp.expand(&node);
    assert_eq!(ex.left, h);
    assert_eq!(ex.right, xor_block(&h, &node));
    assert_eq!(ex.left_seed(), high_bits(&ex.left));
    assert_eq!(ex.left_tag(), lsb(&ex.left));
    assert_eq!(ex.right_seed(), high_bits(&ex.right));
    assert_eq!(ex.right_tag(), lsb(&ex.right));
    let last = exp.expand_last(&node);
    let mut flipped = node;
    flipped[15] ^= 1;
    assert_eq!(last.sigma0, h);
    assert_eq!(last.sigma1, exp.hash(&flipped));
    assert_eq!(last.high0(), high_bits(&last.sigma0));
    assert_eq!(last.low0(), lsb(&last.sigma0));
    assert_eq!(last.high1(), high_bits(&last.sigma1));
    assert_eq!(last.low1(), lsb(&last.sigma1));
}

#[test]
fn expansions_agree_with_hash() {
    check_expansions(&XorExpander::new([0x12u8; 16]));
    check_expansions(&AesExpander::new([0x34u8; 16]));
}
