//! Whole tree levels, as the two-party protocol expands them, and the
//! facts that let it compute correction words from XORs over a level.
//!
//! Level i holds 2^i node blocks; the children of node j are at 2j (bit 0)
//! and 2j + 1 (bit 1). Along a correct key pair the two parties' levels
//! agree everywhere except at the node on α's path.

use vstd::prelude::*;
use crate::bits::{
    high_bits_spec, lemma_xor_assoc, lemma_xor_common, lemma_xor_zero, lsb_spec, xor_spec,
    zero_block,
};
use crate::dpf::correctness::{
    last_cw_ok, lemma_last_step_pair, lemma_prefix_step_pair, prefix_cw_spec,
};
use crate::dpf::eval::{eval_spec, last_step, leaf_node, output_share, path_node, prefix_step};
use crate::dpf::key::{DpfKey, LastCw, PrefixCw};
use crate::dpf::next_level::{last_level_ok, prefix_level_ok};
use crate::field::DpfRange;
use crate::hash::SeedExpander;
use crate::seed::{SeedTag, lemma_block_round_trip};

verus! {

/// 2^i.
pub open spec fn pow2_nat(i: nat) -> nat
    decreases i,
{
    if i == 0 {
        1
    } else {
        2 * pow2_nat((i - 1) as nat)
    }
}

/// 2^i grows with i.
pub proof fn lemma_pow2_mono(i: nat, j: nat)
    requires
        i <= j,
    ensures
        1 <= pow2_nat(i) <= pow2_nat(j),
    decreases j,
{
    if i < j {
        lemma_pow2_mono(i, (j - 1) as nat);
    } else if j > 0 {
        lemma_pow2_mono((i - 1) as nat, (j - 1) as nat);
    }
}

/// The index within level i of the node on α's path: α's first i bits
/// read as a binary number.
pub open spec fn path_index(alpha: Seq<bool>, i: nat) -> int
    decreases i,
{
    if i == 0 {
        0
    } else {
        2 * path_index(alpha, (i - 1) as nat) + (if alpha[i - 1] {
            1int
        } else {
            0int
        })
    }
}

/// The next intermediate level: child k is the (k mod 2)-child of node k/2.
pub open spec fn expand_level<E: SeedExpander>(ex: &E, prev: Seq<Seq<u8>>, cw: Seq<u8>) -> Seq<
    Seq<u8>,
> {
    Seq::new(2 * prev.len(), |k: int| prefix_step(ex, prev[k / 2], k % 2 == 1, cw))
}

/// The leaf level: leaf k is the last-level (k mod 2)-child of node k/2.
pub open spec fn leaf_level<E: SeedExpander>(ex: &E, prev: Seq<Seq<u8>>, cw: LastCw) -> Seq<
    Seq<u8>,
> {
    Seq::new(2 * prev.len(), |k: int| last_step(ex, prev[k / 2], k % 2 == 1, cw))
}

/// The 2^i blocks of level i of the tree grown from `root`.
pub open spec fn level_blocks<E: SeedExpander>(
    ex: &E,
    root: Seq<u8>,
    cws: Seq<PrefixCw>,
    i: nat,
) -> Seq<Seq<u8>>
    decreases i,
{
    if i == 0 {
        seq![root]
    } else {
        expand_level(ex, level_blocks(ex, root, cws, (i - 1) as nat), cws[i - 1].0@)
    }
}

/// XOR of all blocks in a sequence.
pub open spec fn xor_all(s: Seq<Seq<u8>>) -> Seq<u8>
    decreases s.len(),
{
    if s.len() == 0 {
        zero_block()
    } else {
        xor_spec(xor_all(s.drop_last()), s.last())
    }
}

/// XOR of all bits in a sequence.
pub open spec fn parity(s: Seq<bool>) -> bool
    decreases s.len(),
{
    if s.len() == 0 {
        false
    } else {
        parity(s.drop_last()) != s.last()
    }
}

/// Σ_j ConvertR(seed j), summed left to right from zero.
pub open spec fn convert_sum<R: DpfRange>(seeds: Seq<Seq<u8>>) -> R
    decreases seeds.len(),
{
    if seeds.len() == 0 {
        R::zero_spec()
    } else {
        convert_sum::<R>(seeds.drop_last()).plus_spec(R::convert_spec(seeds.last()))
    }
}

/// The seeds (high bits) of a sequence of blocks.
pub open spec fn seeds_of(blocks: Seq<Seq<u8>>) -> Seq<Seq<u8>> {
    Seq::new(blocks.len(), |j: int| high_bits_spec(blocks[j]))
}

/// Every block of level i is a 16-byte block, and level i has 2^i blocks.
pub proof fn lemma_level_blocks_len<E: SeedExpander>(
    ex: &E,
    root: Seq<u8>,
    cws: Seq<PrefixCw>,
    i: nat,
)
    requires
        root.len() == 16,
    ensures
        level_blocks(ex, root, cws, i).len() == pow2_nat(i),
        forall|j: int|
            0 <= j < pow2_nat(i) ==> (#[trigger] level_blocks(ex, root, cws, i)[j]).len() == 16,
    decreases i,
{
    if i > 0 {
        let p = (i - 1) as nat;
        lemma_level_blocks_len(ex, root, cws, p);
        let q = level_blocks(ex, root, cws, p);
        assert forall|j: int| 0 <= j < pow2_nat(i) implies (#[trigger] level_blocks(
            ex,
            root,
            cws,
            i,
        )[j]).len() == 16 by {
            ex.lemma_hash_len(q[j / 2]);
        }
    }
}

/// A level depends only on the first i correction words.
pub proof fn lemma_level_blocks_prefix<E: SeedExpander>(
    ex: &E,
    root: Seq<u8>,
    cws: Seq<PrefixCw>,
    cws2: Seq<PrefixCw>,
    i: nat,
)
    requires
        forall|k: int| 0 <= k < i ==> cws[k] == cws2[k],
    ensures
        level_blocks(ex, root, cws, i) == level_blocks(ex, root, cws2, i),
    decreases i,
{
    if i > 0 {
        lemma_level_blocks_prefix(ex, root, cws, cws2, (i - 1) as nat);
    }
}

/// Along a key pair whose correction words are the on-path ones, level i
/// of the two parties' trees has 2^i blocks, agrees everywhere except at
/// α's node, and there holds the two on-path nodes, which differ by Δ.
pub proof fn lemma_level_structure<E: SeedExpander>(
    ex: &E,
    r0: Seq<u8>,
    r1: Seq<u8>,
    cws: Seq<PrefixCw>,
    alpha: Seq<bool>,
    delta: Seq<u8>,
    i: nat,
)
    requires
        r0.len() == 16,
        r1.len() == 16,
        xor_spec(r0, r1) == delta,
        lsb_spec(delta),
        i <= alpha.len(),
        i <= cws.len(),
        forall|k: int|
            #![trigger cws[k]]
            0 <= k < i ==> cws[k].0@ == prefix_cw_spec(
                ex,
                path_node(ex, r0, cws, alpha, k as nat),
                path_node(ex, r1, cws, alpha, k as nat),
                alpha[k],
                delta,
            ),
    ensures
        ({
            let l0 = level_blocks(ex, r0, cws, i);
            let l1 = level_blocks(ex, r1, cws, i);
            let a = path_index(alpha, i);
            &&& l0.len() == pow2_nat(i)
            &&& l1.len() == pow2_nat(i)
            &&& 0 <= a < pow2_nat(i)
            &&& l0[a] == path_node(ex, r0, cws, alpha, i)
            &&& l1[a] == path_node(ex, r1, cws, alpha, i)
            &&& xor_spec(l0[a], l1[a]) == delta
            &&& forall|j: int| 0 <= j < pow2_nat(i) && j != a ==> #[trigger] l0[j] == l1[j]
            &&& forall|j: int| 0 <= j < pow2_nat(i) ==> (#[trigger] l0[j]).len() == 16
            &&& forall|j: int| 0 <= j < pow2_nat(i) ==> (#[trigger] l1[j]).len() == 16
        }),
    decreases i,
{
    if i > 0 {
        let p = (i - 1) as nat;
        lemma_level_structure(ex, r0, r1, cws, alpha, delta, p);
        let q0 = level_blocks(ex, r0, cws, p);
        let q1 = level_blocks(ex, r1, cws, p);
        let l0 = level_blocks(ex, r0, cws, i);
        let l1 = level_blocks(ex, r1, cws, i);
        let b = path_index(alpha, p);
        let a = path_index(alpha, i);
        let g0 = q0[b];
        let g1 = q1[b];
        let cw = cws[p as int].0@;
        let bit = alpha[p as int];
        assert(cw == prefix_cw_spec(ex, g0, g1, bit, delta));
        lemma_prefix_step_pair(ex, g0, g1, delta, bit, bit);
        lemma_prefix_step_pair(ex, g0, g1, delta, bit, !bit);
        assert(a / 2 == b && (a % 2 == 1) == bit);
        assert forall|j: int| 0 <= j < pow2_nat(i) && j != a implies #[trigger] l0[j] == l1[j] by {
            if j / 2 != b {
            } else {
                assert((j % 2 == 1) != bit);
            }
        }
        assert forall|j: int| 0 <= j < pow2_nat(i) implies (#[trigger] l0[j]).len() == 16 by {
            ex.lemma_hash_len(q0[j / 2]);
        }
        assert forall|j: int| 0 <= j < pow2_nat(i) implies (#[trigger] l1[j]).len() == 16 by {
            ex.lemma_hash_len(q1[j / 2]);
        }
    }
}

/// Two block sequences that agree everywhere except at index a have XORs
/// that differ by exactly the two blocks at a.
pub proof fn lemma_xor_all_one_diff(s0: Seq<Seq<u8>>, s1: Seq<Seq<u8>>, a: int)
    requires
        s0.len() == s1.len(),
        0 <= a < s0.len(),
        forall|j: int| 0 <= j < s0.len() && j != a ==> s0[j] == s1[j],
    ensures
        xor_spec(xor_all(s0), xor_all(s1)) == xor_spec(s0[a], s1[a]),
    decreases s0.len(),
{
    let n = s0.len();
    let t0 = s0.drop_last();
    let t1 = s1.drop_last();
    if a == n - 1 {
        assert(t0 =~= t1);
        lemma_xor_common(s0[a], s1[a], xor_all(t0));
        crate::bits::lemma_xor_comm(xor_all(t0), s0[a]);
        crate::bits::lemma_xor_comm(xor_all(t1), s1[a]);
    } else {
        lemma_xor_all_one_diff(t0, t1, a);
        lemma_xor_common(xor_all(t0), xor_all(t1), s0.last());
    }
}

/// Two bit sequences that agree everywhere except at index a have
/// parities that differ by exactly the two bits at a.
pub proof fn lemma_parity_one_diff(s0: Seq<bool>, s1: Seq<bool>, a: int)
    requires
        s0.len() == s1.len(),
        0 <= a < s0.len(),
        forall|j: int| 0 <= j < s0.len() && j != a ==> s0[j] == s1[j],
    ensures
        (parity(s0) != parity(s1)) == (s0[a] != s1[a]),
    decreases s0.len(),
{
    let n = s0.len();
    let t0 = s0.drop_last();
    let t1 = s1.drop_last();
    if a == n - 1 {
        assert(t0 =~= t1);
    } else {
        lemma_parity_one_diff(t0, t1, a);
    }
}

/// In a range where every element is its own inverse, two seed sequences
/// that agree everywhere except at index a have ConvertR-sums adding up to
/// the ConvertR of the two seeds at a.
pub proof fn lemma_convert_sum_one_diff<R: DpfRange>(s0: Seq<Seq<u8>>, s1: Seq<Seq<u8>>, a: int)
    requires
        forall|x: R| #[trigger] x.plus_spec(x) == R::zero_spec(),
        s0.len() == s1.len(),
        0 <= a < s0.len(),
        forall|j: int| 0 <= j < s0.len() && j != a ==> s0[j] == s1[j],
    ensures
        convert_sum::<R>(s0).plus_spec(convert_sum::<R>(s1)) == R::convert_spec(s0[a]).plus_spec(
            R::convert_spec(s1[a]),
        ),
    decreases s0.len(),
{
    let n = s0.len();
    let t0 = s0.drop_last();
    let t1 = s1.drop_last();
    let x0 = convert_sum::<R>(t0);
    let x1 = convert_sum::<R>(t1);
    let c0 = R::convert_spec(s0.last());
    let c1 = R::convert_spec(s1.last());
    let z = R::zero_spec();
    // (x0 + c0) + (x1 + c1) == (x0 + x1) + (c0 + c1)
    R::lemma_group_laws(x0, c0, x1.plus_spec(c1));
    R::lemma_group_laws(c0, x1, c1);
    R::lemma_group_laws(x1, c0, c1);
    R::lemma_group_laws(x0, x1, c0.plus_spec(c1));
    if a == n - 1 {
        assert(t0 =~= t1);
        assert(x0.plus_spec(x0) == z);
        R::lemma_group_laws(z, c0.plus_spec(c1), z);
        R::lemma_group_laws(c0.plus_spec(c1), z, z);
    } else {
        lemma_convert_sum_one_diff::<R>(t0, t1, a);
        assert(c0 == c1);
        assert(c0.plus_spec(c1) == z);
        R::lemma_group_laws(x0.plus_spec(x1), z, z);
    }
}

/// The two parties' leaf levels, grown from levels that agree except at
/// α's node (whose two nodes differ by Δ), agree except at α's leaf, where
/// the tags differ.
pub proof fn lemma_leaf_level_structure<E: SeedExpander>(
    ex: &E,
    q0: Seq<Seq<u8>>,
    q1: Seq<Seq<u8>>,
    b: int,
    delta: Seq<u8>,
    bit: bool,
    cw: LastCw,
)
    requires
        q0.len() == q1.len(),
        0 <= b < q0.len(),
        forall|j: int| 0 <= j < q0.len() && j != b ==> #[trigger] q0[j] == q1[j],
        q0[b].len() == 16,
        q1[b].len() == 16,
        xor_spec(q0[b], q1[b]) == delta,
        lsb_spec(delta),
        last_cw_ok(ex, q0[b], q1[b], bit, cw),
    ensures
        ({
            let l0 = leaf_level(ex, q0, cw);
            let l1 = leaf_level(ex, q1, cw);
            let a = 2 * b + (if bit {
                1int
            } else {
                0int
            });
            &&& l0.len() == 2 * q0.len()
            &&& l1.len() == 2 * q0.len()
            &&& l0[a] == last_step(ex, q0[b], bit, cw)
            &&& l1[a] == last_step(ex, q1[b], bit, cw)
            &&& lsb_spec(l0[a]) != lsb_spec(l1[a])
            &&& forall|j: int| 0 <= j < l0.len() && j != a ==> #[trigger] l0[j] == l1[j]
        }),
{
    let l0 = leaf_level(ex, q0, cw);
    let l1 = leaf_level(ex, q1, cw);
    let a = 2 * b + (if bit {
        1int
    } else {
        0int
    });
    lemma_last_step_pair(ex, q0[b], q1[b], delta, bit, bit, cw);
    lemma_last_step_pair(ex, q0[b], q1[b], delta, bit, !bit, cw);
    assert forall|j: int| 0 <= j < l0.len() && j != a implies #[trigger] l0[j] == l1[j] by {
        if j / 2 != b {
        } else {
            assert((j % 2 == 1) != bit);
        }
    }
}

/// The index of a path within level i is one of its 2^i positions.
pub proof fn lemma_path_index_bound(x: Seq<bool>, i: nat)
    requires
        i <= x.len(),
    ensures
        0 <= path_index(x, i) < pow2_nat(i),
    decreases i,
{
    if i > 0 {
        lemma_path_index_bound(x, (i - 1) as nat);
    }
}

/// For any root and correction words, level i of the whole tree holds, at
/// the index of path x, the node that evaluation reaches along x.
pub proof fn lemma_level_blocks_at_path<E: SeedExpander>(
    ex: &E,
    root: Seq<u8>,
    cws: Seq<PrefixCw>,
    x: Seq<bool>,
    i: nat,
)
    requires
        i <= x.len(),
    ensures
        level_blocks(ex, root, cws, i).len() == pow2_nat(i),
        level_blocks(ex, root, cws, i)[path_index(x, i)] == path_node(ex, root, cws, x, i),
    decreases i,
{
    lemma_path_index_bound(x, i);
    if i > 0 {
        let p = (i - 1) as nat;
        lemma_level_blocks_at_path(ex, root, cws, x, p);
        lemma_path_index_bound(x, p);
        let a = path_index(x, p);
        let b = path_index(x, i);
        assert(b / 2 == a && (b % 2 == 1) == x[p as int]);
    }
}

/// For any key, the leaf level grown from the whole tree holds, at the
/// index of path x, the leaf that evaluation reaches along x; so each
/// party's share at x is read off that leaf.
pub proof fn lemma_leaf_level_at_path<E: SeedExpander, R: DpfRange>(
    ex: &E,
    key: DpfKey<R>,
    x: Seq<bool>,
)
    requires
        x.len() >= 1,
        key.prefix_cws@.len() == x.len() - 1,
    ensures
        ({
            let n = x.len();
            let q = level_blocks(ex, key.root.0@, key.prefix_cws@, (n - 1) as nat);
            let leaves = leaf_level(ex, q, key.last_cw);
            let j = path_index(x, n);
            &&& leaves.len() == pow2_nat(n)
            &&& 0 <= j < pow2_nat(n)
            &&& leaves[j] == leaf_node(ex, key, x)
            &&& forall|party: bool|
                #[trigger] eval_spec(party, ex, key, x) == output_share(party, leaves[j], key.out_cw)
        }),
{
    let n = x.len();
    let m = (n - 1) as nat;
    lemma_level_blocks_at_path(ex, key.root.0@, key.prefix_cws@, x, m);
    lemma_path_index_bound(x, m);
    lemma_path_index_bound(x, n);
    let a = path_index(x, m);
    let j = path_index(x, n);
    assert(j / 2 == a && (j % 2 == 1) == x[m as int]);
}

/// XOR over a concatenation is the XOR of the XORs of the two parts.
pub proof fn lemma_xor_all_concat(a: Seq<Seq<u8>>, b: Seq<Seq<u8>>)
    ensures
        xor_all(a + b) == xor_spec(xor_all(a), xor_all(b)),
    decreases b.len(),
{
    if b.len() == 0 {
        assert(a + b =~= a);
        assert(xor_all(a).len() == 16);
        lemma_xor_zero(xor_all(a));
    } else {
        let b2 = b.drop_last();
        lemma_xor_all_concat(a, b2);
        assert((a + b).drop_last() =~= a + b2);
        assert((a + b).last() == b.last());
        lemma_xor_assoc(xor_all(a), xor_all(b2), b.last());
    }
}

/// XOR over one block is that block.
pub proof fn lemma_xor_all_single(h: Seq<u8>)
    requires
        h.len() == 16,
    ensures
        xor_all(seq![h]) == h,
{
    let s1 = seq![h];
    assert(s1.drop_last() =~= Seq::<Seq<u8>>::empty());
    assert(xor_all(s1.drop_last()) == zero_block());
    assert(s1.last() == h);
    lemma_xor_zero(h);
    assert(xor_all(s1) == xor_spec(zero_block(), h));
}

/// When each level of nodes is `next_level_prefix` of the one before under
/// `cws`, starting from the node that unpacks `root`, level i unpacks
/// level i of the tree of blocks grown from `root`.
proof fn lemma_expanded_levels_unpack<E: SeedExpander>(
    ex: &E,
    root: Seq<u8>,
    cws: Seq<PrefixCw>,
    levels: Seq<Seq<SeedTag>>,
    i: nat,
)
    requires
        root.len() == 16,
        i < levels.len(),
        i <= cws.len(),
        levels[0].len() == 1,
        levels[0][0].unpacks(root),
        forall|k: int|
            0 <= k < i ==> #[trigger] prefix_level_ok(ex, levels[k], cws[k], levels[k + 1]),
    ensures
        levels[i as int].len() == pow2_nat(i),
        forall|j: int|
            0 <= j < pow2_nat(i) ==> (#[trigger] levels[i as int][j]).unpacks(
                level_blocks(ex, root, cws, i)[j],
            ),
    decreases i,
{
    lemma_level_blocks_len(ex, root, cws, i);
    if i == 0 {
        assert(levels[0][0].unpacks(level_blocks(ex, root, cws, 0)[0]));
    } else {
        let p = (i - 1) as nat;
        lemma_expanded_levels_unpack(ex, root, cws, levels, p);
        lemma_level_blocks_len(ex, root, cws, p);
        let q = level_blocks(ex, root, cws, p);
        let prev = levels[p as int];
        let cur = levels[i as int];
        assert(prefix_level_ok(ex, levels[p as int], cws[p as int], levels[p as int + 1]));
        assert(levels[p as int + 1] == cur);
        assert forall|k: int| 0 <= k < pow2_nat(i) implies (#[trigger] cur[k]).unpacks(
            level_blocks(ex, root, cws, i)[k],
        ) by {
            let j = k / 2;
            assert(prev[j].unpacks(q[j]));
            lemma_block_round_trip(q[j], prev[j]);
            if k % 2 == 0 {
                assert(k == 2 * j);
            } else {
                assert(k == 2 * j + 1);
            }
        }
    }
}

/// DPF.NextLevel grows the tree that DPF.Eval walks. Start from the node
/// that unpacks the key's root, expand each intermediate level with
/// `next_level_prefix` under the key's CW_i and the last with
/// `next_level_last` under CW_n: the leaf at x's index is the leaf that
/// evaluation reaches along x, so party b's share at x is
/// (-1)^b · (ConvertR(s) + t · CW_{n+1}) of that leaf's seed s and tag t.
pub proof fn lemma_eval_reads_expanded_leaves<E: SeedExpander, R: DpfRange>(
    party: bool,
    ex: &E,
    key: DpfKey<R>,
    levels: Seq<Seq<SeedTag>>,
    leaves: Seq<SeedTag>,
    x: Seq<bool>,
)
    requires
        x.len() >= 1,
        key.prefix_cws@.len() == x.len() - 1,
        levels.len() == x.len(),
        levels[0].len() == 1,
        levels[0][0].unpacks(key.root.0@),
        forall|k: int|
            0 <= k < x.len() - 1 ==> #[trigger] prefix_level_ok(
                ex,
                levels[k],
                key.prefix_cws@[k],
                levels[k + 1],
            ),
        last_level_ok(ex, levels[x.len() - 1], key.last_cw, leaves),
    ensures
        ({
            let j = path_index(x, x.len());
            let raw = R::convert_spec(leaves[j].seed.0@).plus_spec(
                if leaves[j].tag.0 {
                    key.out_cw
                } else {
                    R::zero_spec()
                },
            );
            &&& 0 <= j < leaves.len()
            &&& leaves[j].unpacks(leaf_node(ex, key, x))
            &&& eval_spec(party, ex, key, x) == (if party {
                raw.negate_spec()
            } else {
                raw
            })
        }),
{
    let n = x.len();
    let m = (n - 1) as nat;
    let cws = key.prefix_cws@;
    let root = key.root.0@;
    lemma_expanded_levels_unpack(ex, root, cws, levels, m);
    lemma_level_blocks_len(ex, root, cws, m);
    lemma_leaf_level_at_path(ex, key, x);
    let q = level_blocks(ex, root, cws, m);
    let prev = levels[m as int];
    let j = path_index(x, n);
    let b = j / 2;
    assert(prev[b].unpacks(q[b]));
    lemma_block_round_trip(q[b], prev[b]);
    if j % 2 == 0 {
        assert(j == 2 * b);
    } else {
        assert(j == 2 * b + 1);
    }
    assert(leaves[j].unpacks(leaf_level(ex, q, key.last_cw)[j]));
}

} // verus!
