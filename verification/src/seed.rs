//! Tree-node seeds and control tags.

use vstd::prelude::*;
use crate::bits::{high_bits, high_bits_spec, lsb, lsb_spec, set_lsb, set_lsb_spec, lemma_lsb_high_parts};

verus! {

/// A 128-bit seed (the λ-bit "s" part of a GGM tree node).
#[derive(Clone, Debug, PartialEq, Eq)]
pub struct Seed(pub [u8; 16]);

/// The single-bit control tag attached to each tree node.
#[derive(Clone, Copy, Debug, PartialEq, Eq)]
pub struct Tag(pub bool);

/// A combined node: seed (high 127 bits) + control bit (LSB).
#[derive(Clone, Debug, PartialEq, Eq)]
pub struct SeedTag {
    pub seed: Seed,
    pub tag: Tag,
}

impl SeedTag {
    /// The block that `to_block` packs this node into.
    pub open spec fn block_spec(self) -> Seq<u8> {
        set_lsb_spec(self.seed.0@, self.tag.0)
    }

    /// This node is what `from_block` makes of block `b`.
    pub open spec fn unpacks(self, b: Seq<u8>) -> bool {
        self.seed.0@ == high_bits_spec(b) && self.tag.0 == lsb_spec(b)
    }

    /// Pack into a 16-byte block with the tag in the LSB.
    pub fn to_block(&self) -> (b: [u8; 16])
        ensures
            b@ == self.block_spec(),
    {
        let mut b = self.seed.0;
        set_lsb(&mut b, self.tag.0);
        b
    }

    /// Unpack from a 16-byte block (LSB = tag).
    pub fn from_block(b: [u8; 16]) -> (st: Self)
        ensures
            st.unpacks(b@),
    {
        let tag = lsb(&b);
        let seed = Seed(high_bits(&b));
        SeedTag { seed, tag: Tag(tag) }
    }
}

/// Unpacking a block and packing it again gives back the same block.
pub proof fn lemma_block_round_trip(b: Seq<u8>, st: SeedTag)
    requires
        b.len() == 16,
        st.unpacks(b),
    ensures
        st.block_spec() == b,
{
    lemma_lsb_high_parts(b, false);
}

/// Packing a node whose seed has a clear LSB and unpacking the block gives
/// back the same node.
pub proof fn lemma_node_round_trip(st: SeedTag, st2: SeedTag)
    requires
        !lsb_spec(st.seed.0@),
        st2.unpacks(st.block_spec()),
    ensures
        st2 == st,
{
    lemma_lsb_high_parts(st.seed.0@, st.tag.0);
    assert(st2.seed.0@ == st.seed.0@);
    assert(st2.seed.0 =~= st.seed.0);
}

} // verus!
