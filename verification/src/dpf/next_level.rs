//! `DPF.NextLevel` — expand one whole tree level given the current node
//! shares and the corresponding public correction word.

use vstd::prelude::*;
use crate::bits::{lemma_lsb_high_parts, set_lsb, xor_block_inplace};
use crate::dpf::eval::{last_step, prefix_step};
use crate::dpf::key::{LastCw, PrefixCw};
use crate::hash::SeedExpander;
use crate::seed::SeedTag;

verus! {

/// `out` is the intermediate level expanded from the parents `prev` under
/// the correction word `cw`: the children of `prev[j]` are at `2j` (bit 0)
/// and `2j + 1` (bit 1).
pub open spec fn prefix_level_ok<E: SeedExpander>(
    ex: &E,
    prev: Seq<SeedTag>,
    cw: PrefixCw,
    out: Seq<SeedTag>,
) -> bool {
    &&& out.len() == 2 * prev.len()
    &&& forall|j: int|
        #![trigger prev[j]]
        0 <= j < prev.len() ==> {
            &&& out[2 * j].unpacks(prefix_step(ex, prev[j].block_spec(), false, cw.0@))
            &&& out[2 * j + 1].unpacks(prefix_step(ex, prev[j].block_spec(), true, cw.0@))
        }
}

/// Expand one intermediate level (levels 1 .. n-1).
///
/// `prev` holds the 2^{i-1} parent shares.
/// Returns the 2^i child shares in left-right order: the children of
/// `prev[j]` are at `2j` (bit 0) and `2j + 1` (bit 1).
pub fn next_level_prefix<E: SeedExpander>(
    expander: &E,
    prev: &[SeedTag],
    cw: &PrefixCw,
) -> (out: Vec<SeedTag>)
    requires
        prev@.len() * 2 <= usize::MAX,
    ensures
        prefix_level_ok(expander, prev@, *cw, out@),
{
    let mut out: Vec<SeedTag> = Vec::with_capacity(prev.len() * 2);
    let mut k: usize = 0;
    while k < prev.len()
        invariant
            k <= prev@.len(),
            prev@.len() * 2 <= usize::MAX,
            out@.len() == 2 * k,
            forall|j: int|
                #![trigger prev@[j]]
                0 <= j < k ==> {
                    &&& out@[2 * j].unpacks(
                        prefix_step(expander, prev@[j].block_spec(), false, cw.0@),
                    )
                    &&& out@[2 * j + 1].unpacks(
                        prefix_step(expander, prev@[j].block_spec(), true, cw.0@),
                    )
                },
        decreases prev@.len() - k,
    {
        let node = &prev[k];
        // Pass the full (seed ‖ tag) block; expand uses the half-tree formula:
        //   left  = H_S(block)
        //   right = H_S(block) ⊕ block
        let block = node.to_block();
        let ex = expander.expand(&block);
        proof {
            lemma_lsb_high_parts(node.seed.0@, node.tag.0);
        }

        // If tag == 1, XOR the correction word into both children (full block).
        let mut left = ex.left;
        let mut right = ex.right;
        if node.tag.0 {
            xor_block_inplace(&mut left, &cw.0);
            xor_block_inplace(&mut right, &cw.0);
        }
        let l = SeedTag::from_block(left);
        let r = SeedTag::from_block(right);
        out.push(l);
        out.push(r);
        k = k + 1;
    }
    out
}

/// `out` is the last level expanded from the parents `prev` under the
/// structured correction word `cw`: the children of `prev[j]` are at `2j`
/// (σ = 0) and `2j + 1` (σ = 1).
pub open spec fn last_level_ok<E: SeedExpander>(
    ex: &E,
    prev: Seq<SeedTag>,
    cw: LastCw,
    out: Seq<SeedTag>,
) -> bool {
    &&& out.len() == 2 * prev.len()
    &&& forall|j: int|
        #![trigger prev[j]]
        0 <= j < prev.len() ==> {
            &&& out[2 * j].unpacks(last_step(ex, prev[j].block_spec(), false, cw))
            &&& out[2 * j + 1].unpacks(last_step(ex, prev[j].block_spec(), true, cw))
        }
}

/// Expand the last level (level n-1 → level n).
///
/// Uses the structured correction word (HCW, LCW₀, LCW₁); σ = 0 gives the
/// left child (at `2j`) and σ = 1 the right child (at `2j + 1`). The path
/// bit `_alpha_n` is not needed: every node is expanded both ways.
///
/// Returns the 2^n leaf shares.
pub fn next_level_last<E: SeedExpander>(
    expander: &E,
    prev: &[SeedTag],
    cw: &LastCw,
    _alpha_n: bool,
) -> (out: Vec<SeedTag>)
    requires
        prev@.len() * 2 <= usize::MAX,
    ensures
        last_level_ok(expander, prev@, *cw, out@),
{
    let mut out: Vec<SeedTag> = Vec::with_capacity(prev.len() * 2);
    let mut k: usize = 0;
    while k < prev.len()
        invariant
            k <= prev@.len(),
            prev@.len() * 2 <= usize::MAX,
            out@.len() == 2 * k,
            forall|j: int|
                #![trigger prev@[j]]
                0 <= j < k ==> {
                    &&& out@[2 * j].unpacks(last_step(expander, prev@[j].block_spec(), false, *cw))
                    &&& out@[2 * j + 1].unpacks(
                        last_step(expander, prev@[j].block_spec(), true, *cw),
                    )
                },
        decreases prev@.len() - k,
    {
        let node = &prev[k];
        let block = node.to_block();
        let ex = expander.expand_last(&block);
        proof {
            lemma_lsb_high_parts(node.seed.0@, node.tag.0);
        }

        // sigma=0 child
        let mut s0 = ex.high0();
        let mut t0 = ex.low0();
        // sigma=1 child
        let mut s1 = ex.high1();
        let mut t1 = ex.low1();

        if node.tag.0 {
            xor_block_inplace(&mut s0, &cw.hcw);
            xor_block_inplace(&mut s1, &cw.hcw);
            t0 = t0 != cw.lcw0;
            t1 = t1 != cw.lcw1;
        }

        // sigma=0 → left child, sigma=1 → right child
        let mut left = s0;
        set_lsb(&mut left, t0);
        let mut right = s1;
        set_lsb(&mut right, t1);

        let l = SeedTag::from_block(left);
        let r = SeedTag::from_block(right);
        out.push(l);
        out.push(r);
        k = k + 1;
    }
    out
}

/// A node is fixed by the block it unpacks.
proof fn lemma_unpacks_unique(a: SeedTag, b: SeedTag, blk: Seq<u8>)
    requires
        a.unpacks(blk),
        b.unpacks(blk),
    ensures
        a == b,
{
    assert(a.seed.0 =~= b.seed.0);
}

/// The last level does not depend on the secret path bit α_n: the parents
/// and the correction word fix it, so two expansions of the same parents
/// under the same correction word (whatever path bit each call was handed)
/// are equal.
pub proof fn lemma_last_level_ignores_path_bit<E: SeedExpander>(
    ex: &E,
    prev: Seq<SeedTag>,
    cw: LastCw,
    out_a: Seq<SeedTag>,
    out_b: Seq<SeedTag>,
)
    requires
        last_level_ok(ex, prev, cw, out_a),
        last_level_ok(ex, prev, cw, out_b),
    ensures
        out_a == out_b,
{
    assert forall|k: int| 0 <= k < out_a.len() implies out_a[k] == out_b[k] by {
        let j = k / 2;
        assert(0 <= j < prev.len());
        let _ = prev[j];
        if k % 2 == 0 {
            assert(k == 2 * j);
            lemma_unpacks_unique(
                out_a[k],
                out_b[k],
                last_step(ex, prev[j].block_spec(), false, cw),
            );
        } else {
            assert(k == 2 * j + 1);
            lemma_unpacks_unique(
                out_a[k],
                out_b[k],
                last_step(ex, prev[j].block_spec(), true, cw),
            );
        }
    }
    assert(out_a =~= out_b);
}

} // verus!
