//! Bit and byte helpers on 16-byte blocks.
//!
//! A block is read big-endian: byte 15 holds the least significant bit,
//! which the tree uses as the node's control tag.

use vstd::prelude::*;
use vstd::arithmetic::power2::{lemma2_to64, lemma_pow2_pos, lemma_pow2_unfold, pow2};
use vstd::arithmetic::div_mod::{lemma_div_denominator, lemma_fundamental_div_mod, lemma_mod_breakdown};
use vstd::bits::lemma_u128_shr_is_div;

verus! {

/// Bytewise XOR of two 16-byte blocks.
pub open spec fn xor_spec(a: Seq<u8>, b: Seq<u8>) -> Seq<u8> {
    Seq::new(16, |i: int| a[i] ^ b[i])
}

/// The all-zero block.
pub open spec fn zero_block() -> Seq<u8> {
    Seq::new(16, |i: int| 0u8)
}

/// The least significant bit of a block (bit 0 of byte 15).
pub open spec fn lsb_spec(b: Seq<u8>) -> bool {
    b[15] & 1u8 == 1u8
}

/// The block with its least significant bit cleared.
pub open spec fn high_bits_spec(b: Seq<u8>) -> Seq<u8> {
    b.update(15, b[15] & 0xfeu8)
}

/// The block with its least significant bit set to `bit`.
pub open spec fn set_lsb_spec(b: Seq<u8>, bit: bool) -> Seq<u8> {
    b.update(15, if bit { b[15] | 1u8 } else { b[15] & 0xfeu8 })
}

/// The block with its least significant bit flipped.
pub open spec fn flip_lsb_spec(b: Seq<u8>) -> Seq<u8> {
    b.update(15, b[15] ^ 1u8)
}

/// Bit `i` (counted from the most significant of the low `n`) of `x`.
pub open spec fn msb_bit(x: u128, n: nat, i: int) -> bool {
    (x >> ((n - 1 - i) as u128)) & 1u128 == 1u128
}

/// The `n` low bits of `x`, most significant first.
pub open spec fn msb_bits(x: u128, n: nat) -> Seq<bool> {
    Seq::new(n, |i: int| msb_bit(x, n, i))
}

/// Decompose `x` into `n` bits, MSB first (bit 0 = most significant).
pub fn decompose_bits_msb(x: u128, n: usize) -> (bits: Vec<bool>)
    requires
        n <= 128,
    ensures
        bits@ == msb_bits(x, n as nat),
{
    let mut bits: Vec<bool> = Vec::new();
    let mut i: usize = 0;
    while i < n
        invariant
            i <= n <= 128,
            bits@.len() == i,
            forall|k: int| 0 <= k < i ==> bits@[k] == msb_bit(x, n as nat, k),
        decreases n - i,
    {
        let shift: u32 = (n - 1 - i) as u32;
        let b: bool = (x >> shift) & 1 == 1;
        proof {
            assert(shift as u128 == (n - 1 - i) as u128);
        }
        bits.push(b);
        i = i + 1;
    }
    assert(bits@ =~= msb_bits(x, n as nat));
    bits
}

/// XOR two 16-byte blocks, returning the result.
pub fn xor_block(a: &[u8; 16], b: &[u8; 16]) -> (out: [u8; 16])
    ensures
        out@ == xor_spec(a@, b@),
{
    let mut out = [0u8; 16];
    let mut i: usize = 0;
    while i < 16
        invariant
            i <= 16,
            forall|k: int| 0 <= k < i ==> out@[k] == a@[k] ^ b@[k],
        decreases 16 - i,
    {
        out[i] = a[i] ^ b[i];
        i = i + 1;
    }
    assert(out@ =~= xor_spec(a@, b@));
    out
}

/// XOR `b` into `a` in place.
pub fn xor_block_inplace(a: &mut [u8; 16], b: &[u8; 16])
    ensures
        final(a)@ == xor_spec(old(a)@, b@),
{
    let ghost a0 = a@;
    let mut i: usize = 0;
    while i < 16
        invariant
            i <= 16,
            a@.len() == 16,
            forall|k: int| 0 <= k < i ==> a@[k] == a0[k] ^ b@[k],
            forall|k: int| i <= k < 16 ==> a@[k] == a0[k],
        decreases 16 - i,
    {
        a[i] = a[i] ^ b[i];
        i = i + 1;
    }
    assert(a@ =~= xor_spec(a0, b@));
}

/// Return the least significant bit of a block.
pub fn lsb(block: &[u8; 16]) -> (bit: bool)
    ensures
        bit == lsb_spec(block@),
{
    block[15] & 1 == 1
}

/// Return the high 127 bits (clear LSB) of a block.
pub fn high_bits(block: &[u8; 16]) -> (out: [u8; 16])
    ensures
        out@ == high_bits_spec(block@),
{
    let mut out = *block;
    out[15] = out[15] & 0xfe;
    assert(out@ =~= high_bits_spec(block@));
    out
}

/// Set the least significant bit of a block.
pub fn set_lsb(block: &mut [u8; 16], bit: bool)
    ensures
        final(block)@ == set_lsb_spec(old(block)@, bit),
{
    let ghost b0 = block@;
    if bit {
        block[15] = block[15] | 1;
    } else {
        block[15] = block[15] & 0xfe;
    }
    assert(block@ =~= set_lsb_spec(b0, bit));
}


/// Byte-level facts behind the block laws below.
proof fn lemma_byte_facts(x: u8, y: u8, z: u8)
    by (bit_vector)
    ensures
        x ^ y == y ^ x,
        (x ^ y) ^ z == x ^ (y ^ z),
        x ^ x == 0u8,
        x ^ 0u8 == x,
        ((x ^ y) & 1u8 == 1u8) == ((x & 1u8 == 1u8) != (y & 1u8 == 1u8)),
        (x ^ y) & 0xfeu8 == (x & 0xfeu8) ^ (y & 0xfeu8),
        (x | 1u8) & 1u8 == 1u8,
        (x & 0xfeu8) & 1u8 == 0u8,
        (x | 1u8) & 0xfeu8 == x & 0xfeu8,
        (x & 0xfeu8) & 0xfeu8 == x & 0xfeu8,
        (x & 1u8 == 1u8) ==> (x & 0xfeu8) | 1u8 == x,
        (x & 1u8 != 1u8) ==> x & 0xfeu8 == x,
        ((x ^ 1u8) & 1u8 == 1u8) == (x & 1u8 != 1u8),
        (x ^ 1u8) & 0xfeu8 == x & 0xfeu8,
        (0u8 & 1u8) != 1u8,
{
}

/// XOR of blocks is commutative.
pub proof fn lemma_xor_comm(a: Seq<u8>, b: Seq<u8>)
    ensures
        xor_spec(a, b) == xor_spec(b, a),
{
    assert forall|i: int| 0 <= i < 16 implies #[trigger] xor_spec(a, b)[i] == xor_spec(b, a)[i] by {
        lemma_byte_facts(a[i], b[i], 0);
    }
    assert(xor_spec(a, b) =~= xor_spec(b, a));
}

/// XOR of blocks is associative.
pub proof fn lemma_xor_assoc(a: Seq<u8>, b: Seq<u8>, c: Seq<u8>)
    ensures
        xor_spec(xor_spec(a, b), c) == xor_spec(a, xor_spec(b, c)),
{
    assert forall|i: int| 0 <= i < 16 implies #[trigger] xor_spec(xor_spec(a, b), c)[i]
        == xor_spec(a, xor_spec(b, c))[i] by {
        lemma_byte_facts(a[i], b[i], c[i]);
    }
    assert(xor_spec(xor_spec(a, b), c) =~= xor_spec(a, xor_spec(b, c)));
}

/// A block XORed with itself is the zero block.
pub proof fn lemma_xor_self(a: Seq<u8>)
    ensures
        xor_spec(a, a) == zero_block(),
{
    assert forall|i: int| 0 <= i < 16 implies #[trigger] xor_spec(a, a)[i] == zero_block()[i] by {
        lemma_byte_facts(a[i], a[i], 0);
    }
    assert(xor_spec(a, a) =~= zero_block());
}

/// The zero block is neutral for XOR.
pub proof fn lemma_xor_zero(a: Seq<u8>)
    requires
        a.len() == 16,
    ensures
        xor_spec(a, zero_block()) == a,
        xor_spec(zero_block(), a) == a,
{
    assert forall|i: int| 0 <= i < 16 implies #[trigger] xor_spec(a, zero_block())[i] == a[i] by {
        lemma_byte_facts(a[i], 0, 0);
    }
    assert(xor_spec(a, zero_block()) =~= a);
    lemma_xor_comm(a, zero_block());
}

/// XORing the same block twice gives back the first block.
pub proof fn lemma_xor_cancel(a: Seq<u8>, b: Seq<u8>)
    requires
        a.len() == 16,
    ensures
        xor_spec(xor_spec(a, b), b) == a,
        xor_spec(b, xor_spec(b, a)) == a,
{
    lemma_xor_assoc(a, b, b);
    lemma_xor_self(b);
    lemma_xor_zero(a);
    lemma_xor_assoc(b, b, a);
}

/// The control bit of an XOR is the XOR of the control bits, and the
/// high bits of an XOR are the XOR of the high bits.
pub proof fn lemma_xor_lsb_high(a: Seq<u8>, b: Seq<u8>)
    requires
        a.len() == 16,
        b.len() == 16,
    ensures
        lsb_spec(xor_spec(a, b)) == (lsb_spec(a) != lsb_spec(b)),
        high_bits_spec(xor_spec(a, b)) == xor_spec(high_bits_spec(a), high_bits_spec(b)),
{
    lemma_byte_facts(a[15], b[15], 0);
    assert forall|i: int| 0 <= i < 16 implies #[trigger] high_bits_spec(xor_spec(a, b))[i]
        == xor_spec(high_bits_spec(a), high_bits_spec(b))[i] by {
        lemma_byte_facts(a[i], b[i], 0);
    }
    assert(high_bits_spec(xor_spec(a, b)) =~= xor_spec(high_bits_spec(a), high_bits_spec(b)));
}

/// How the control bit and the high bits of a block relate to
/// `set_lsb_spec`, `high_bits_spec` and `flip_lsb_spec`.
pub proof fn lemma_lsb_high_parts(b: Seq<u8>, bit: bool)
    requires
        b.len() == 16,
    ensures
        lsb_spec(set_lsb_spec(b, bit)) == bit,
        high_bits_spec(set_lsb_spec(b, bit)) == high_bits_spec(b),
        set_lsb_spec(high_bits_spec(b), lsb_spec(b)) == b,
        !lsb_spec(high_bits_spec(b)),
        high_bits_spec(high_bits_spec(b)) == high_bits_spec(b),
        !lsb_spec(b) ==> high_bits_spec(b) == b,
        lsb_spec(flip_lsb_spec(b)) == !lsb_spec(b),
        high_bits_spec(flip_lsb_spec(b)) == high_bits_spec(b),
        !lsb_spec(zero_block()),
{
    lemma_byte_facts(b[15], 0, 0);
    assert(high_bits_spec(set_lsb_spec(b, bit)) =~= high_bits_spec(b));
    assert(set_lsb_spec(high_bits_spec(b), lsb_spec(b)) =~= b);
    assert(high_bits_spec(high_bits_spec(b)) =~= high_bits_spec(b));
    if !lsb_spec(b) {
        assert(high_bits_spec(b) =~= b);
    }
    assert(high_bits_spec(flip_lsb_spec(b)) =~= high_bits_spec(b));
}


/// XORing a common block into both sides does not change their XOR.
pub proof fn lemma_xor_common(a: Seq<u8>, b: Seq<u8>, c: Seq<u8>)
    ensures
        xor_spec(xor_spec(a, c), xor_spec(b, c)) == xor_spec(a, b),
{
    assert forall|i: int| 0 <= i < 16 implies #[trigger] xor_spec(xor_spec(a, c), xor_spec(b, c))[i]
        == xor_spec(a, b)[i] by {
        let x = a[i];
        let y = b[i];
        let z = c[i];
        assert((x ^ z) ^ (y ^ z) == x ^ y) by (bit_vector);
    }
    assert(xor_spec(xor_spec(a, c), xor_spec(b, c)) =~= xor_spec(a, b));
}


/// Numbers below 2^n are determined by their n low bits (as quotients by
/// powers of two, taken mod 2).
proof fn lemma_low_bits_determine(x: nat, y: nat, n: nat)
    requires
        x < pow2(n),
        y < pow2(n),
        forall|k: nat| k < n ==> (x / #[trigger] pow2(k)) % 2 == (y / pow2(k)) % 2,
    ensures
        x == y,
    decreases n,
{
    if n == 0 {
        lemma_pow2_unfold(1);
        assert(pow2(0) == 1) by {
            reveal(pow2);
            reveal(vstd::arithmetic::power::pow);
        }
    } else {
        let m = (n - 1) as nat;
        lemma_pow2_unfold(n);
        lemma_pow2_pos(m);
        assert(pow2(0) == 1) by {
            reveal(pow2);
            reveal(vstd::arithmetic::power::pow);
        }
        assert(x % 2 == y % 2) by {
            assert((x / pow2(0)) % 2 == (y / pow2(0)) % 2);
        }
        let hx = x / 2;
        let hy = y / 2;
        assert forall|k: nat| k < m implies (hx / #[trigger] pow2(k)) % 2 == (hy / pow2(k)) % 2 by {
            lemma_pow2_pos(k);
            lemma_pow2_unfold(k + 1);
            lemma_div_denominator(x as int, 2, pow2(k) as int);
            lemma_div_denominator(y as int, 2, pow2(k) as int);
            assert((x / pow2(k + 1)) % 2 == (y / pow2(k + 1)) % 2);
        }
        assert(hx < pow2(m)) by (nonlinear_arith)
            requires
                x < pow2(n),
                pow2(n) == 2 * pow2(m),
                hx == x / 2,
        ;
        assert(hy < pow2(m)) by (nonlinear_arith)
            requires
                y < pow2(n),
                pow2(n) == 2 * pow2(m),
                hy == y / 2,
        ;
        lemma_low_bits_determine(hx, hy, m);
        lemma_fundamental_div_mod(x as int, 2);
        lemma_fundamental_div_mod(y as int, 2);
    }
}

/// Decomposition into n bits loses nothing below 2^n: two numbers below
/// 2^n with the same MSB-first bits are equal.
pub proof fn lemma_msb_bits_injective(x: u128, y: u128, n: nat)
    requires
        n <= 128,
        x < pow2(n),
        y < pow2(n),
        msb_bits(x, n) == msb_bits(y, n),
    ensures
        x == y,
{
    assert forall|k: nat| k < n implies (x as nat / #[trigger] pow2(k)) % 2 == (y as nat / pow2(k))
        % 2 by {
        let i = n - 1 - k;
        assert(msb_bits(x, n)[i] == msb_bits(y, n)[i]);
        assert(msb_bits(x, n)[i] == msb_bit(x, n, i));
        assert(msb_bits(y, n)[i] == msb_bit(y, n, i));
        let s = k as u128;
        assert(((n - 1 - i) as u128) == s);
        lemma_u128_shr_is_div(x, s);
        lemma_u128_shr_is_div(y, s);
        let a = x >> s;
        let b = y >> s;
        assert((a & 1u128 == 1u128) == (a % 2 == 1)) by (bit_vector);
        assert((b & 1u128 == 1u128) == (b % 2 == 1)) by (bit_vector);
        assert(msb_bit(x, n, i) == (a & 1u128 == 1u128));
        assert(msb_bit(y, n, i) == (b & 1u128 == 1u128));
        assert((a % 2 == 1) == (b % 2 == 1));
        assert(a as nat == x as nat / pow2(k));
        assert(b as nat == y as nat / pow2(k));
    }
    lemma_low_bits_determine(x as nat, y as nat, n);
}

/// The number that MSB-first bits spell: folding `acc * 2 + bit` from zero.
pub open spec fn msb_value(bits: Seq<bool>) -> nat
    decreases bits.len(),
{
    if bits.len() == 0 {
        0
    } else {
        2 * msb_value(bits.drop_last()) + (if bits.last() {
            1nat
        } else {
            0nat
        })
    }
}

/// Decomposing into n bits and folding them back gives the low n bits of
/// x: x mod 2^n.
pub proof fn lemma_msb_bits_recompose(x: u128, n: nat)
    requires
        n <= 128,
    ensures
        msb_value(msb_bits(x, n)) == x as nat % pow2(n),
    decreases n,
{
    lemma2_to64();
    if n == 0 {
        assert(x as nat % 1 == 0);
    } else {
        let m = (n - 1) as nat;
        let h = x >> 1u128;
        lemma_msb_bits_recompose(h, m);
        let bs = msb_bits(x, n);
        assert forall|i: int| 0 <= i < m implies #[trigger] bs.drop_last()[i] == msb_bits(h, m)[i] by {
            let k = (m - 1 - i) as u128;
            assert(((n - 1 - i) as u128) == k + 1);
            assert((x >> 1u128) >> k == x >> (k + 1u128)) by (bit_vector)
                requires
                    k < 127u128,
            ;
        }
        assert(bs.drop_last() =~= msb_bits(h, m));
        assert(bs.last() == msb_bit(x, n, m as int));
        assert(((n - 1 - m) as u128) == 0u128);
        assert((x >> 0u128) & 1u128 == 1u128 <==> x % 2 == 1) by (bit_vector);
        assert(h == x / 2) by (bit_vector)
            requires
                h == x >> 1u128,
        ;
        lemma_pow2_unfold(n);
        lemma_pow2_pos(m);
        lemma_mod_breakdown(x as int, 2, pow2(m) as int);
    }
}

} // verus!
