//! Keyed hash / seed-expansion interface used by the GGM tree.
//!
//! The tree uses H_S(x) = H(S ⊕ x) where H is a correlation-robust hash
//! (one AES call). An AES-based implementation and a simple rotate-and-XOR
//! stub that is cheap to use in tests are provided.

use vstd::prelude::*;
use aes::Aes128;
use aes::cipher::{BlockEncrypt, KeyInit};
use aes::cipher::generic_array::GenericArray;
use crate::bits::{
    flip_lsb_spec, high_bits, high_bits_spec, lsb, lsb_spec, xor_block, xor_spec,
};

verus! {

/// Output of expanding a non-last-level node into two children.
#[derive(Clone, Copy, Debug)]
pub struct ExpandedNode {
    /// Left child: the high 127 bits (seed) and tag (LSB).
    pub left: [u8; 16],
    /// Right child: the high 127 bits (seed) and tag (LSB).
    pub right: [u8; 16],
}

impl ExpandedNode {
    pub fn left_seed(&self) -> (s: [u8; 16])
        ensures
            s@ == high_bits_spec(self.left@),
    {
        high_bits(&self.left)
    }

    pub fn left_tag(&self) -> (t: bool)
        ensures
            t == lsb_spec(self.left@),
    {
        lsb(&self.left)
    }

    pub fn right_seed(&self) -> (s: [u8; 16])
        ensures
            s@ == high_bits_spec(self.right@),
    {
        high_bits(&self.right)
    }

    pub fn right_tag(&self) -> (t: bool)
        ensures
            t == lsb_spec(self.right@),
    {
        lsb(&self.right)
    }
}

/// Output of expanding a last-level node (level n-1 → level n).
///
/// The hash output is split into a "high" part (seed, λ-1 bits) and a
/// "low" part (control bit) for each σ ∈ {0,1}.
#[derive(Clone, Copy, Debug)]
pub struct LastExpandedNode {
    /// H_S(node ⊕ 0): high bits = seed, LSB = control bit.
    pub sigma0: [u8; 16],
    /// H_S(node ⊕ 1): high bits = seed, LSB = control bit.
    pub sigma1: [u8; 16],
}

impl LastExpandedNode {
    pub fn high0(&self) -> (s: [u8; 16])
        ensures
            s@ == high_bits_spec(self.sigma0@),
    {
        high_bits(&self.sigma0)
    }

    pub fn low0(&self) -> (t: bool)
        ensures
            t == lsb_spec(self.sigma0@),
    {
        lsb(&self.sigma0)
    }

    pub fn high1(&self) -> (s: [u8; 16])
        ensures
            s@ == high_bits_spec(self.sigma1@),
    {
        high_bits(&self.sigma1)
    }

    pub fn low1(&self) -> (t: bool)
        ensures
            t == lsb_spec(self.sigma1@),
    {
        lsb(&self.sigma1)
    }
}

/// Trait abstracting the keyed hash used for tree expansion.
pub trait SeedExpander: Send + Sync {
    /// The keyed hash H_S as a function on blocks.
    spec fn hash_spec(&self, x: Seq<u8>) -> Seq<u8>;

    /// Every hash output is a 16-byte block.
    proof fn lemma_hash_len(&self, x: Seq<u8>)
        ensures
            self.hash_spec(x).len() == 16,
    ;

    /// Expand a non-leaf node into left and right children (Half-Tree):
    /// left = H_S(node), right = H_S(node) ⊕ node.
    fn expand(&self, node: &[u8; 16]) -> (ex: ExpandedNode)
        ensures
            ex.left@ == self.hash_spec(node@),
            ex.right@ == xor_spec(self.hash_spec(node@), node@),
    ;

    /// Expand a level-(n-1) node into the two last-level candidates:
    /// sigma0 = H_S(node), sigma1 = H_S(node ⊕ 1).
    fn expand_last(&self, node: &[u8; 16]) -> (ex: LastExpandedNode)
        ensures
            ex.sigma0@ == self.hash_spec(node@),
            ex.sigma1@ == self.hash_spec(flip_lsb_spec(node@)),
    ;

    /// Raw keyed hash: H_S(x) = H(S ⊕ x).
    fn hash(&self, x: &[u8; 16]) -> (h: [u8; 16])
        ensures
            h@ == self.hash_spec(x@),
    ;
}

/// Flip the least significant bit of a block.
fn flip_lsb(node: &[u8; 16]) -> (out: [u8; 16])
    ensures
        out@ == flip_lsb_spec(node@),
{
    let mut out = *node;
    out[15] = out[15] ^ 0x01;
    assert(out@ =~= flip_lsb_spec(node@));
    out
}

// ---------------------------------------------------------------------------
// AES-based expander  (one fixed-key AES call per hash)
// ---------------------------------------------------------------------------

/// AES-128 encryption of `block` under `key`.
pub uninterp spec fn aes128_encrypt(key: Seq<u8>, block: Seq<u8>) -> Seq<u8>;

/// `Aes128::encrypt_block` from the `aes` crate, on a cipher keyed with
/// `key` by `KeyInit::new`: the result is the AES-128 encryption of
/// `block` under `key`, a function of the two arguments alone.
#[verifier::external_body]
fn aes128_encrypt_block(key: &[u8; 16], block: &[u8; 16]) -> (out: [u8; 16])
    ensures
        out@ == aes128_encrypt(key@, block@),
{
    let cipher = Aes128::new(GenericArray::from_slice(key));
    let mut b = GenericArray::clone_from_slice(block);
    cipher.encrypt_block(&mut b);
    let mut out = [0u8; 16];
    out.copy_from_slice(&b);
    out
}

/// Matyas-Meyer-Oseas: E_key(y) ⊕ y.
pub open spec fn aes_mmo(key: Seq<u8>, y: Seq<u8>) -> Seq<u8> {
    xor_spec(aes128_encrypt(key, y), y)
}

pub struct AesExpander {
    key: [u8; 16],
}

impl AesExpander {
    /// The hash key S.
    pub closed spec fn key_spec(&self) -> Seq<u8> {
        self.key@
    }

    pub fn new(key: [u8; 16]) -> (ex: Self)
        ensures
            ex.key_spec() == key@,
    {
        AesExpander { key }
    }

    fn aes_eval(&self, x: &[u8; 16]) -> (out: [u8; 16])
        ensures
            out@ == aes_mmo(self.key@, x@),
    {
        let e = aes128_encrypt_block(&self.key, x);
        // MMO (Matyas-Meyer-Oseas): output = E(x) ⊕ x
        xor_block(&e, x)
    }
}

impl SeedExpander for AesExpander {
    /// H_S(x) = AES_MMO(S ⊕ x).
    open spec fn hash_spec(&self, x: Seq<u8>) -> Seq<u8> {
        aes_mmo(self.key_spec(), xor_spec(self.key_spec(), x))
    }

    proof fn lemma_hash_len(&self, x: Seq<u8>) {
    }

    fn hash(&self, x: &[u8; 16]) -> (h: [u8; 16]) {
        // H_S(x) = AES_MMO(S ⊕ x)
        let sx = xor_block(&self.key, x);
        self.aes_eval(&sx)
    }

    /// Half-Tree intermediate-level expansion (one hash call per node):
    ///   left  = H_S(node)
    ///   right = H_S(node) ⊕ node
    fn expand(&self, node: &[u8; 16]) -> (ex: ExpandedNode) {
        let left = self.hash(node);
        let right = xor_block(&left, node);
        ExpandedNode { left, right }
    }

    /// Last-level expansion (two hash calls, one per σ ∈ {0,1}):
    ///   sigma0 = H_S(node)
    ///   sigma1 = H_S(node ⊕ 1)   (flip LSB)
    fn expand_last(&self, node: &[u8; 16]) -> (ex: LastExpandedNode) {
        let n1 = flip_lsb(node);
        LastExpandedNode { sigma0: self.hash(node), sigma1: self.hash(&n1) }
    }
}

// ---------------------------------------------------------------------------
// XOR-stub expander  — deterministic, fast, NOT secure; for tests only
// ---------------------------------------------------------------------------

/// Rotate a 16-byte block left by 3 bits.
pub open spec fn rotl3_spec(b: Seq<u8>) -> Seq<u8> {
    Seq::new(
        16,
        |i: int|
            if i < 15 {
                (b[i] << 3u8) | (b[i + 1] >> 5u8)
            } else {
                (b[15] << 3u8) | (b[0] >> 5u8)
            },
    )
}

/// Sixteen bytes read as one 128-bit big-endian integer.
pub open spec fn be_u128(
    b0: u8,
    b1: u8,
    b2: u8,
    b3: u8,
    b4: u8,
    b5: u8,
    b6: u8,
    b7: u8,
    b8: u8,
    b9: u8,
    b10: u8,
    b11: u8,
    b12: u8,
    b13: u8,
    b14: u8,
    b15: u8,
) -> u128 {
    ((b0 as u128) << 120u128) | ((b1 as u128) << 112u128) | ((b2 as u128) << 104u128) | ((
    b3 as u128) << 96u128) | ((b4 as u128) << 88u128) | ((b5 as u128) << 80u128) | ((b6 as u128)
        << 72u128) | ((b7 as u128) << 64u128) | ((b8 as u128) << 56u128) | ((b9 as u128) << 48u128)
        | ((b10 as u128) << 40u128) | ((b11 as u128) << 32u128) | ((b12 as u128) << 24u128) | ((
    b13 as u128) << 16u128) | ((b14 as u128) << 8u128) | (b15 as u128)
}

/// A 16-byte block read as a 128-bit big-endian integer (byte 0 most
/// significant).
pub open spec fn block_value(b: Seq<u8>) -> u128 {
    be_u128(
        b[0],
        b[1],
        b[2],
        b[3],
        b[4],
        b[5],
        b[6],
        b[7],
        b[8],
        b[9],
        b[10],
        b[11],
        b[12],
        b[13],
        b[14],
        b[15],
    )
}

/// A 128-bit word rotated left by 3 bits.
pub open spec fn rotate_left3_u128(v: u128) -> u128 {
    (v << 3u128) | (v >> 125u128)
}

/// Rotating the bytes left by 3 bits as `rotl3_spec` does is rotating the
/// block's 128-bit big-endian value.
proof fn lemma_rotl3_bytes(
    b0: u8,
    b1: u8,
    b2: u8,
    b3: u8,
    b4: u8,
    b5: u8,
    b6: u8,
    b7: u8,
    b8: u8,
    b9: u8,
    b10: u8,
    b11: u8,
    b12: u8,
    b13: u8,
    b14: u8,
    b15: u8,
)
    by (bit_vector)
    ensures
        be_u128(
            (b0 << 3u8) | (b1 >> 5u8),
            (b1 << 3u8) | (b2 >> 5u8),
            (b2 << 3u8) | (b3 >> 5u8),
            (b3 << 3u8) | (b4 >> 5u8),
            (b4 << 3u8) | (b5 >> 5u8),
            (b5 << 3u8) | (b6 >> 5u8),
            (b6 << 3u8) | (b7 >> 5u8),
            (b7 << 3u8) | (b8 >> 5u8),
            (b8 << 3u8) | (b9 >> 5u8),
            (b9 << 3u8) | (b10 >> 5u8),
            (b10 << 3u8) | (b11 >> 5u8),
            (b11 << 3u8) | (b12 >> 5u8),
            (b12 << 3u8) | (b13 >> 5u8),
            (b13 << 3u8) | (b14 >> 5u8),
            (b14 << 3u8) | (b15 >> 5u8),
            (b15 << 3u8) | (b0 >> 5u8),
        ) == rotate_left3_u128(
            be_u128(b0, b1, b2, b3, b4, b5, b6, b7, b8, b9, b10, b11, b12, b13, b14, b15),
        ),
{
}

/// Two 16-byte blocks with the same 128-bit value are the same block.
pub proof fn lemma_block_value_injective(a: Seq<u8>, b: Seq<u8>)
    requires
        a.len() == 16,
        b.len() == 16,
        block_value(a) == block_value(b),
    ensures
        a == b,
{
    assert forall|i: int| 0 <= i < 16 implies a[i] == b[i] by {
        lemma_be_u128_bytes(
            a[0], a[1], a[2], a[3], a[4], a[5], a[6], a[7], a[8], a[9], a[10], a[11], a[12], a[13],
            a[14], a[15],
            b[0], b[1], b[2], b[3], b[4], b[5], b[6], b[7], b[8], b[9], b[10], b[11], b[12], b[13],
            b[14], b[15],
        );
    }
    assert(a =~= b);
}

/// The 128-bit big-endian value fixes every byte.
proof fn lemma_be_u128_bytes(
    a0: u8,
    a1: u8,
    a2: u8,
    a3: u8,
    a4: u8,
    a5: u8,
    a6: u8,
    a7: u8,
    a8: u8,
    a9: u8,
    a10: u8,
    a11: u8,
    a12: u8,
    a13: u8,
    a14: u8,
    a15: u8,
    b0: u8,
    b1: u8,
    b2: u8,
    b3: u8,
    b4: u8,
    b5: u8,
    b6: u8,
    b7: u8,
    b8: u8,
    b9: u8,
    b10: u8,
    b11: u8,
    b12: u8,
    b13: u8,
    b14: u8,
    b15: u8,
)
    by (bit_vector)
    requires
        be_u128(a0, a1, a2, a3, a4, a5, a6, a7, a8, a9, a10, a11, a12, a13, a14, a15) == be_u128(
            b0,
            b1,
            b2,
            b3,
            b4,
            b5,
            b6,
            b7,
            b8,
            b9,
            b10,
            b11,
            b12,
            b13,
            b14,
            b15,
        ),
    ensures
        a0 == b0 && a1 == b1 && a2 == b2 && a3 == b3 && a4 == b4 && a5 == b5 && a6 == b6 && a7
            == b7,
        a8 == b8 && a9 == b9 && a10 == b10 && a11 == b11 && a12 == b12 && a13 == b13 && a14 == b14
            && a15 == b15,
{
}

/// The rotate-and-XOR hash rotates S ⊕ x, read as one 128-bit big-endian
/// word, left by 3 bits: bits leaving the top of byte 0 re-enter at the
/// bottom of byte 15, and every other bit moves 3 places up.
pub proof fn lemma_xor_hash_rotates_u128(ex: &XorExpander, x: Seq<u8>)
    requires
        x.len() == 16,
    ensures
        ex.hash_spec(x).len() == 16,
        block_value(ex.hash_spec(x)) == rotate_left3_u128(
            block_value(xor_spec(ex.key_spec(), x)),
        ),
{
    let b = xor_spec(ex.key_spec(), x);
    let h = ex.hash_spec(x);
    lemma_rotl3_bytes(
        b[0], b[1], b[2], b[3], b[4], b[5], b[6], b[7], b[8], b[9], b[10], b[11], b[12], b[13],
        b[14], b[15],
    );
    assert(h[0] == (b[0] << 3u8) | (b[1] >> 5u8));
    assert(h[14] == (b[14] << 3u8) | (b[15] >> 5u8));
    assert(h[15] == (b[15] << 3u8) | (b[0] >> 5u8));
}

pub struct XorExpander {
    key: [u8; 16],
}

impl XorExpander {
    /// The hash key S.
    pub closed spec fn key_spec(&self) -> Seq<u8> {
        self.key@
    }

    pub fn new(key: [u8; 16]) -> (ex: Self)
        ensures
            ex.key_spec() == key@,
    {
        XorExpander { key }
    }
}

impl SeedExpander for XorExpander {
    /// Rotate (S ⊕ x) left by 3 bits.
    open spec fn hash_spec(&self, x: Seq<u8>) -> Seq<u8> {
        rotl3_spec(xor_spec(self.key_spec(), x))
    }

    proof fn lemma_hash_len(&self, x: Seq<u8>) {
    }

    fn hash(&self, x: &[u8; 16]) -> (h: [u8; 16])
        ensures
            block_value(h@) == rotate_left3_u128(block_value(xor_spec(self.key_spec(), x@))),
    {
        // XOR with the key first, then rotate the result left by 3 bits.
        let mut out = xor_block(&self.key, x);
        let ghost o = out@;
        let carry = out[0] >> 5;
        let mut i: usize = 0;
        while i < 15
            invariant
                i <= 15,
                out@.len() == 16,
                o.len() == 16,
                carry == o[0] >> 5u8,
                forall|k: int| 0 <= k < i ==> out@[k] == rotl3_spec(o)[k],
                forall|k: int| i <= k < 16 ==> out@[k] == o[k],
            decreases 15 - i,
        {
            out[i] = (out[i] << 3) | (out[i + 1] >> 5);
            i = i + 1;
        }
        out[15] = (out[15] << 3) | carry;
        assert(out@ =~= rotl3_spec(o));
        proof {
            lemma_xor_hash_rotates_u128(self, x@);
        }
        out
    }

    fn expand(&self, node: &[u8; 16]) -> (ex: ExpandedNode) {
        let left = self.hash(node);
        let right = xor_block(&left, node);
        ExpandedNode { left, right }
    }

    fn expand_last(&self, node: &[u8; 16]) -> (ex: LastExpandedNode) {
        let n1 = flip_lsb(node);
        LastExpandedNode { sigma0: self.hash(node), sigma1: self.hash(&n1) }
    }
}

} // verus!
