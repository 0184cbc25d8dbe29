//! Output ranges of the DPF: abelian groups with a map from seed blocks.

use vstd::prelude::*;
use crate::bits::{lsb, lsb_spec};

verus! {

/// Algebraic range that DPF outputs live in: an abelian group with a
/// conversion from 16-byte seed blocks (ConvertR).
pub trait DpfRange:
    Sized + Clone + PartialEq + Eq + core::fmt::Debug + core::ops::Add<Output = Self> + core::ops::Sub<
        Output = Self,
    > + core::ops::Neg<Output = Self> + core::ops::Mul<bool, Output = Self> {
    /// The neutral element.
    spec fn zero_spec() -> Self;

    /// The element `one()` returns.
    spec fn one_spec() -> Self;

    /// The group operation.
    spec fn plus_spec(self, rhs: Self) -> Self;

    /// The group inverse.
    spec fn negate_spec(self) -> Self;

    /// ConvertR: the element a seed block maps to.
    spec fn convert_spec(bytes: Seq<u8>) -> Self;

    /// The abelian-group laws, which every range must satisfy.
    proof fn lemma_group_laws(a: Self, b: Self, c: Self)
        ensures
            a.plus_spec(b) == b.plus_spec(a),
            a.plus_spec(b).plus_spec(c) == a.plus_spec(b.plus_spec(c)),
            a.plus_spec(Self::zero_spec()) == a,
            a.plus_spec(a.negate_spec()) == Self::zero_spec(),
    ;

    fn zero() -> (r: Self)
        ensures
            r == Self::zero_spec(),
    ;

    /// A copy of `self`.
    fn duplicate(&self) -> (r: Self)
        ensures
            r == *self,
    ;

    fn one() -> (r: Self)
        ensures
            r == Self::one_spec(),
    ;

    /// Map a 16-byte seed block to a range element (ConvertR).
    fn convert(bytes: &[u8; 16]) -> (r: Self)
        ensures
            r == Self::convert_spec(bytes@),
    ;

    /// `self + rhs`.
    fn plus(self, rhs: Self) -> (r: Self)
        ensures
            r == self.plus_spec(rhs),
    ;

    /// `self - rhs`.
    fn minus(self, rhs: Self) -> (r: Self)
        ensures
            r == self.plus_spec(rhs.negate_spec()),
    ;

    /// `-self`.
    fn negate(self) -> (r: Self)
        ensures
            r == self.negate_spec(),
    ;

    /// Scalar multiplication by a control bit: `self` when `bit`, else zero.
    fn times_bit(self, bit: bool) -> (r: Self)
        ensures
            r == (if bit { self } else { Self::zero_spec() }),
    ;
}

/// Inverting a sum inverts each summand, and inverting twice is the
/// identity.
pub proof fn lemma_negate_facts<R: DpfRange>(a: R, b: R)
    ensures
        a.plus_spec(b).negate_spec() == a.negate_spec().plus_spec(b.negate_spec()),
        a.negate_spec().negate_spec() == a,
        R::zero_spec().plus_spec(a) == a,
        R::zero_spec().negate_spec() == R::zero_spec(),
{
    let z = R::zero_spec();
    let na = a.negate_spec();
    let nb = b.negate_spec();
    let s = a.plus_spec(b);
    let ns = s.negate_spec();
    // Inverses are unique: if x + y == 0 then y == -x.
    assert forall|x: R, y: R| x.plus_spec(y) == z implies y == x.negate_spec() by {
        let nx = x.negate_spec();
        R::lemma_group_laws(y, x, nx);
        R::lemma_group_laws(x, y, nx);
        R::lemma_group_laws(x, nx, y);
        R::lemma_group_laws(nx, z, y);
        R::lemma_group_laws(y, z, z);
        R::lemma_group_laws(nx, y, z);
    }
    R::lemma_group_laws(a, b, na);
    R::lemma_group_laws(na, nb, s);
    R::lemma_group_laws(b, a, na);
    R::lemma_group_laws(na, a, b);
    R::lemma_group_laws(nb, b, z);
    R::lemma_group_laws(a, na, b);
    R::lemma_group_laws(z, b, nb);
    R::lemma_group_laws(na.plus_spec(nb), a, b);
    R::lemma_group_laws(nb, na, a);
    R::lemma_group_laws(nb, z, z);
    R::lemma_group_laws(na, a, z);
    R::lemma_group_laws(z, a, z);
    R::lemma_group_laws(z, z, z);
    assert(s.plus_spec(na.plus_spec(nb)) == z) by {
        // (a + b) + (-a + -b) == a + (b + (-a + -b)) == a + (-a + (b + -b))
        R::lemma_group_laws(b, na, nb);
        R::lemma_group_laws(na, b, nb);
        R::lemma_group_laws(a, b, na.plus_spec(nb));
        R::lemma_group_laws(a, na, b.plus_spec(nb));
    }
}

// ---------------------------------------------------------------------------
// F₂  — the simplest possible range (single bit)
// ---------------------------------------------------------------------------

#[derive(Clone, Copy, Debug, PartialEq, Eq)]
pub struct F2(pub bool);

impl DpfRange for F2 {
    open spec fn zero_spec() -> Self {
        F2(false)
    }

    open spec fn one_spec() -> Self {
        F2(true)
    }

    open spec fn plus_spec(self, rhs: Self) -> Self {
        F2(self.0 != rhs.0)
    }

    open spec fn negate_spec(self) -> Self {
        self
    }

    /// The LSB of the block.
    open spec fn convert_spec(bytes: Seq<u8>) -> Self {
        F2(lsb_spec(bytes))
    }

    proof fn lemma_group_laws(a: Self, b: Self, c: Self) {
    }

    fn zero() -> (r: Self) {
        F2(false)
    }

    fn duplicate(&self) -> (r: Self) {
        *self
    }

    fn one() -> (r: Self) {
        F2(true)
    }

    fn convert(bytes: &[u8; 16]) -> (r: Self) {
        // Use the LSB of the block as the F2 element.
        F2(lsb(bytes))
    }

    fn plus(self, rhs: Self) -> (r: Self) {
        F2(self.0 ^ rhs.0)
    }

    fn minus(self, rhs: Self) -> (r: Self) {
        F2(self.0 ^ rhs.0)
    }

    fn negate(self) -> (r: Self) {
        self
    }

    fn times_bit(self, bit: bool) -> (r: Self) {
        F2(self.0 && bit)
    }
}

impl core::ops::Add for F2 {
    type Output = F2;

    fn add(self, rhs: F2) -> (r: F2) {
        F2(self.0 ^ rhs.0)
    }
}

impl vstd::std_specs::ops::AddSpecImpl for F2 {
    open spec fn obeys_add_spec() -> bool {
        true
    }

    open spec fn add_req(self, rhs: F2) -> bool {
        true
    }

    open spec fn add_spec(self, rhs: F2) -> F2 {
        self.plus_spec(rhs)
    }
}

impl core::ops::AddAssign for F2 {
    fn add_assign(&mut self, rhs: F2)
        ensures
            *final(self) == old(self).plus_spec(rhs),
    {
        self.0 = self.0 ^ rhs.0;
    }
}

impl core::ops::Sub for F2 {
    type Output = F2;

    fn sub(self, rhs: F2) -> (r: F2) {
        F2(self.0 ^ rhs.0)
    }
}

impl vstd::std_specs::ops::SubSpecImpl for F2 {
    open spec fn obeys_sub_spec() -> bool {
        true
    }

    open spec fn sub_req(self, rhs: F2) -> bool {
        true
    }

    open spec fn sub_spec(self, rhs: F2) -> F2 {
        self.plus_spec(rhs.negate_spec())
    }
}

impl core::ops::Neg for F2 {
    type Output = F2;

    fn neg(self) -> (r: F2) {
        self
    }
}

impl vstd::std_specs::ops::NegSpecImpl for F2 {
    open spec fn obeys_neg_spec() -> bool {
        true
    }

    open spec fn neg_req(self) -> bool {
        true
    }

    open spec fn neg_spec(self) -> F2 {
        self.negate_spec()
    }
}

impl core::ops::Mul<bool> for F2 {
    type Output = F2;

    /// Scalar multiplication by a control bit.
    fn mul(self, rhs: bool) -> (r: F2) {
        F2(self.0 && rhs)
    }
}

impl vstd::std_specs::ops::MulSpecImpl<bool> for F2 {
    open spec fn obeys_mul_spec() -> bool {
        true
    }

    open spec fn mul_req(self, rhs: bool) -> bool {
        true
    }

    open spec fn mul_spec(self, rhs: bool) -> F2 {
        if rhs {
            self
        } else {
            F2::zero_spec()
        }
    }
}

/// In F₂ every element is its own inverse: `a + a == 0`.
pub proof fn lemma_f2_characteristic_two()
    ensures
        forall|a: F2| #[trigger] a.plus_spec(a) == F2::zero_spec(),
{
}

// ---------------------------------------------------------------------------
// u64 — useful for testing with integer arithmetic
// ---------------------------------------------------------------------------

#[derive(Clone, Copy, Debug, PartialEq, Eq)]
pub struct U64(pub u64);

/// The little-endian value of a byte sequence.
pub open spec fn le_value(s: Seq<u8>) -> nat
    decreases s.len(),
{
    if s.len() == 0 {
        0
    } else {
        s[0] as nat + 256 * le_value(s.drop_first())
    }
}

/// `256^n`.
pub open spec fn pow256(n: nat) -> nat
    decreases n,
{
    if n == 0 {
        1
    } else {
        256 * pow256((n - 1) as nat)
    }
}

proof fn lemma_le_value_bound(s: Seq<u8>)
    ensures
        le_value(s) < pow256(s.len()),
    decreases s.len(),
{
    if s.len() > 0 {
        lemma_le_value_bound(s.drop_first());
        let v = le_value(s.drop_first());
        let p = pow256(s.drop_first().len());
        let b = s[0];
        assert(b + 256 * v < 256 * p) by (nonlinear_arith)
            requires
                v < p,
                b < 256,
        ;
    }
}

impl DpfRange for U64 {
    open spec fn zero_spec() -> Self {
        U64(0)
    }

    open spec fn one_spec() -> Self {
        U64(1)
    }

    /// Addition modulo 2^64.
    open spec fn plus_spec(self, rhs: Self) -> Self {
        U64(
            if self.0 + rhs.0 > u64::MAX {
                (self.0 + rhs.0 - 0x1_0000_0000_0000_0000) as u64
            } else {
                (self.0 + rhs.0) as u64
            },
        )
    }

    /// Negation modulo 2^64.
    open spec fn negate_spec(self) -> Self {
        U64(
            if self.0 == 0 {
                0
            } else {
                (0x1_0000_0000_0000_0000 - self.0) as u64
            },
        )
    }

    /// The first 8 bytes of the block, read as a little-endian integer.
    open spec fn convert_spec(bytes: Seq<u8>) -> Self {
        U64(le_value(bytes.take(8)) as u64)
    }

    proof fn lemma_group_laws(a: Self, b: Self, c: Self) {
    }

    fn zero() -> (r: Self) {
        U64(0)
    }

    fn duplicate(&self) -> (r: Self) {
        *self
    }

    fn one() -> (r: Self) {
        U64(1)
    }

    fn convert(bytes: &[u8; 16]) -> (r: Self) {
        // Take the first 8 bytes as a little-endian u64.
        let mut v: u64 = 0;
        let mut k: usize = 8;
        proof {
            assert(bytes@.subrange(8, 8) =~= Seq::<u8>::empty());
        }
        while k > 0
            invariant
                k <= 8,
                bytes@.len() == 16,
                v as nat == le_value(bytes@.subrange(k as int, 8)),
            decreases k,
        {
            let ghost tail = bytes@.subrange(k as int, 8);
            let ghost ext = bytes@.subrange(k - 1, 8);
            proof {
                assert(ext.drop_first() =~= tail);
                lemma_le_value_bound(ext);
                assert(pow256(ext.len()) <= pow256(8)) by {
                    reveal_with_fuel(pow256, 9);
                }
                assert(pow256(8) == 0x1_0000_0000_0000_0000) by {
                    reveal_with_fuel(pow256, 9);
                }
            }
            k = k - 1;
            v = (bytes[k] as u64) + 256 * v;
        }
        proof {
            assert(bytes@.subrange(0, 8) =~= bytes@.take(8));
        }
        U64(v)
    }

    fn plus(self, rhs: Self) -> (r: Self) {
        U64(self.0.wrapping_add(rhs.0))
    }

    fn minus(self, rhs: Self) -> (r: Self) {
        U64(self.0.wrapping_sub(rhs.0))
    }

    fn negate(self) -> (r: Self) {
        U64(0u64.wrapping_sub(self.0))
    }

    fn times_bit(self, bit: bool) -> (r: Self) {
        if bit {
            self
        } else {
            U64(0)
        }
    }
}

impl core::ops::Add for U64 {
    type Output = U64;

    fn add(self, rhs: U64) -> (r: U64) {
        U64(self.0.wrapping_add(rhs.0))
    }
}

impl vstd::std_specs::ops::AddSpecImpl for U64 {
    open spec fn obeys_add_spec() -> bool {
        true
    }

    open spec fn add_req(self, rhs: U64) -> bool {
        true
    }

    open spec fn add_spec(self, rhs: U64) -> U64 {
        self.plus_spec(rhs)
    }
}

impl core::ops::AddAssign for U64 {
    fn add_assign(&mut self, rhs: U64)
        ensures
            *final(self) == old(self).plus_spec(rhs),
    {
        self.0 = self.0.wrapping_add(rhs.0);
    }
}

impl core::ops::Sub for U64 {
    type Output = U64;

    fn sub(self, rhs: U64) -> (r: U64) {
        U64(self.0.wrapping_sub(rhs.0))
    }
}

impl vstd::std_specs::ops::SubSpecImpl for U64 {
    open spec fn obeys_sub_spec() -> bool {
        true
    }

    open spec fn sub_req(self, rhs: U64) -> bool {
        true
    }

    open spec fn sub_spec(self, rhs: U64) -> U64 {
        self.plus_spec(rhs.negate_spec())
    }
}

impl core::ops::Neg for U64 {
    type Output = U64;

    fn neg(self) -> (r: U64) {
        U64(0u64.wrapping_sub(self.0))
    }
}

impl vstd::std_specs::ops::NegSpecImpl for U64 {
    open spec fn obeys_neg_spec() -> bool {
        true
    }

    open spec fn neg_req(self) -> bool {
        true
    }

    open spec fn neg_spec(self) -> U64 {
        self.negate_spec()
    }
}

impl core::ops::Mul<bool> for U64 {
    type Output = U64;

    /// Scalar multiplication by a control bit.
    fn mul(self, rhs: bool) -> (r: U64) {
        if rhs {
            self
        } else {
            U64(0)
        }
    }
}

impl vstd::std_specs::ops::MulSpecImpl<bool> for U64 {
    open spec fn obeys_mul_spec() -> bool {
        true
    }

    open spec fn mul_req(self, rhs: bool) -> bool {
        true
    }

    open spec fn mul_spec(self, rhs: bool) -> U64 {
        if rhs {
            self
        } else {
            U64::zero_spec()
        }
    }
}

} // verus!
