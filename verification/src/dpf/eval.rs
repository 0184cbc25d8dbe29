//! `DPF.Eval` — evaluate a single DPF key at one input point.
//!
//! Intermediate levels (i ∈ [1, n-1]):
//!   node_b := H_S(prev_b) ⊕ x_i · prev_b ⊕ t_{prev,b} · CW_i
//!
//! Last level (level n):
//!   (high ‖ low)_b := H_S(prev_b ⊕ x_n)
//!   node_b := (high ‖ low)_b ⊕ t_{prev,b} · (HCW ‖ LCW_{x_n})
//!
//! Output:
//!   y_b := (-1)^b · (ConvertR(s_n_b) + t_n_b · CW_{n+1})

use vstd::prelude::*;
use crate::bits::{
    flip_lsb_spec, high_bits, high_bits_spec, lsb, lsb_spec, set_lsb, set_lsb_spec, xor_block,
    xor_block_inplace, xor_spec,
};
use crate::dpf::key::{DpfKey, LastCw, PrefixCw};
use crate::field::DpfRange;
use crate::hash::SeedExpander;

verus! {

/// The child block selected by `bit` before correction:
/// H_S(node) ⊕ bit · node.
pub open spec fn child_spec(h: Seq<u8>, node: Seq<u8>, bit: bool) -> Seq<u8> {
    if bit {
        xor_spec(h, node)
    } else {
        h
    }
}

/// One intermediate level: H_S(node) ⊕ bit · node ⊕ t_node · cw.
pub open spec fn prefix_step<E: SeedExpander>(ex: &E, node: Seq<u8>, bit: bool, cw: Seq<u8>) -> Seq<u8> {
    let c = child_spec(ex.hash_spec(node), node, bit);
    if lsb_spec(node) {
        xor_spec(c, cw)
    } else {
        c
    }
}

/// The node reached from `root` after the first `i` intermediate levels
/// along the path `x`.
pub open spec fn path_node<E: SeedExpander>(
    ex: &E,
    root: Seq<u8>,
    cws: Seq<PrefixCw>,
    x: Seq<bool>,
    i: nat,
) -> Seq<u8>
    decreases i,
{
    if i == 0 {
        root
    } else {
        prefix_step(ex, path_node(ex, root, cws, x, (i - 1) as nat), x[i - 1], cws[i - 1].0@)
    }
}

/// H_S(node ⊕ σ), σ flipping the LSB.
pub open spec fn hash_at<E: SeedExpander>(ex: &E, node: Seq<u8>, sigma: bool) -> Seq<u8> {
    ex.hash_spec(if sigma { flip_lsb_spec(node) } else { node })
}

/// The last level: (high ‖ low) := H_S(node ⊕ bit), corrected by
/// t_node · (HCW ‖ LCW_bit).
pub open spec fn last_step<E: SeedExpander>(ex: &E, node: Seq<u8>, bit: bool, cw: LastCw) -> Seq<u8> {
    let h = hash_at(ex, node, bit);
    if lsb_spec(node) {
        set_lsb_spec(
            xor_spec(high_bits_spec(h), cw.hcw@),
            lsb_spec(h) != (if bit { cw.lcw1 } else { cw.lcw0 }),
        )
    } else {
        set_lsb_spec(high_bits_spec(h), lsb_spec(h))
    }
}

/// The leaf reached by a key along the path `x`.
pub open spec fn leaf_node<E: SeedExpander, R>(ex: &E, key: DpfKey<R>, x: Seq<bool>) -> Seq<u8> {
    let n = x.len();
    last_step(
        ex,
        path_node(ex, key.root.0@, key.prefix_cws@, x, (n - 1) as nat),
        x[n - 1],
        key.last_cw,
    )
}

/// Party `party`'s output share at a leaf: (-1)^b · (ConvertR(s) + t · CW_{n+1}).
pub open spec fn output_share<R: DpfRange>(party: bool, leaf: Seq<u8>, out_cw: R) -> R {
    let raw = R::convert_spec(high_bits_spec(leaf)).plus_spec(
        if lsb_spec(leaf) {
            out_cw
        } else {
            R::zero_spec()
        },
    );
    if party {
        raw.negate_spec()
    } else {
        raw
    }
}

/// DPF.Eval: the share that `key` gives party `party` at input `x`.
pub open spec fn eval_spec<E: SeedExpander, R: DpfRange>(
    party: bool,
    ex: &E,
    key: DpfKey<R>,
    x: Seq<bool>,
) -> R {
    output_share(party, leaf_node(ex, key, x), key.out_cw)
}

/// Evaluate the DPF key held by party `b` at input `x` (MSB-first bits).
/// Returns the party's additive share of the output: y_b ∈ R.
pub fn eval<R: DpfRange, E: SeedExpander>(
    party: bool,  // b ∈ {0, 1}
    expander: &E,
    key: &DpfKey<R>,
    x_bits: &[bool],  // length n, MSB first
) -> (y: R)
    requires
        x_bits@.len() >= 1,
        key.prefix_cws@.len() == x_bits@.len() - 1,
    ensures
        y == eval_spec(party, expander, *key, x_bits@),
{
    let n = x_bits.len();

    // Current on-path node (full λ-bit block = seed ‖ tag in LSB).
    let mut node: [u8; 16] = key.root.0;

    // Intermediate levels 1 .. n-1:
    // node_b := H_S(node_b) ⊕ x_i · node_b ⊕ t_{node_b} · CW_i
    let mut i: usize = 0;
    while i < key.prefix_cws.len()
        invariant
            n == x_bits@.len(),
            key.prefix_cws@.len() == n - 1,
            i <= n - 1,
            node@ == path_node(expander, key.root.0@, key.prefix_cws@, x_bits@, i as nat),
        decreases n - 1 - i,
    {
        let cw = &key.prefix_cws[i];
        let t = lsb(&node);
        let h = expander.hash(&node);

        // Select child: H_S(node) ⊕ x_i · node
        let mut child = if x_bits[i] {
            xor_block(&h, &node)  // right child
        } else {
            h  // left child
        };

        // Apply correction if parent tag == 1.
        if t {
            xor_block_inplace(&mut child, &cw.0);
        }
        node = child;
        i = i + 1;
    }

    // Last level n:
    // (high ‖ low)_b := H_S(node_b ⊕ x_n)
    // node_b := (high ‖ low)_b ⊕ t_{prev} · (HCW ‖ LCW_{x_n})
    let t_prev = lsb(&node);
    let x_n = x_bits[n - 1];
    let cw = &key.last_cw;

    // H_S(node ⊕ x_n)  — flip LSB if x_n = 1
    let mut tweaked = node;
    if x_n {
        tweaked[15] = tweaked[15] ^ 0x01;
    }
    assert(tweaked@ =~= (if x_n { flip_lsb_spec(node@) } else { node@ }));
    let hashed = expander.hash(&tweaked);

    // Split into (high, low): high = λ-1 bits (LSB cleared), low = LSB.
    let mut s = high_bits(&hashed);
    let mut t = lsb(&hashed);

    // Apply (HCW ‖ LCW_{x_n}) when parent tag == 1.
    if t_prev {
        xor_block_inplace(&mut s, &cw.hcw);
        t = t != (if x_n { cw.lcw1 } else { cw.lcw0 });
    }

    // Pack back into a full block.
    set_lsb(&mut s, t);
    let node = s;

    // Output: y_b := (-1)^b · (ConvertR(s_n) + t_n · CW_{n+1})
    let s_n = high_bits(&node);  // seed = high λ-1 bits
    let t_n = lsb(&node);  // tag  = LSB

    let convert = R::convert(&s_n);
    let tag_part = key.out_cw.duplicate().times_bit(t_n);
    let raw = convert.plus(tag_part);

    if party {
        raw.negate()
    } else {
        raw
    }
}

/// Walking i + 1 levels from `root` is walking i levels from its first
/// on-path child, along the rest of the path and correction words.
proof fn lemma_path_node_peel<E: SeedExpander>(
    ex: &E,
    root: Seq<u8>,
    cws: Seq<PrefixCw>,
    x: Seq<bool>,
    i: nat,
)
    requires
        i + 1 <= x.len(),
        i + 1 <= cws.len(),
    ensures
        path_node(ex, root, cws, x, i + 1) == path_node(
            ex,
            prefix_step(ex, root, x[0], cws[0].0@),
            cws.drop_first(),
            x.drop_first(),
            i,
        ),
    decreases i,
{
    let c = prefix_step(ex, root, x[0], cws[0].0@);
    if i > 0 {
        lemma_path_node_peel(ex, root, cws, x, (i - 1) as nat);
        assert(x.drop_first()[i - 1] == x[i as int]);
        assert(cws.drop_first()[i - 1] == cws[i as int]);
        assert(path_node(ex, c, cws.drop_first(), x.drop_first(), i) == prefix_step(
            ex,
            path_node(ex, c, cws.drop_first(), x.drop_first(), (i - 1) as nat),
            x[i as int],
            cws[i as int].0@,
        ));
    } else {
        assert(path_node(ex, root, cws, x, 0) == root);
    }
}

/// DPF.Eval peels its first level: evaluating `key` at `x` gives what
/// evaluating `peeled` at the rest of `x` gives, where `peeled` has the
/// first on-path child as its root, the remaining prefix correction words,
/// and the same last and output correction words.
pub proof fn lemma_eval_peel_first_level<E: SeedExpander, R: DpfRange>(
    party: bool,
    ex: &E,
    key: DpfKey<R>,
    peeled: DpfKey<R>,
    x: Seq<bool>,
)
    requires
        x.len() >= 2,
        key.prefix_cws@.len() == x.len() - 1,
        peeled.root.0@ == prefix_step(ex, key.root.0@, x[0], key.prefix_cws@[0].0@),
        peeled.prefix_cws@ == key.prefix_cws@.drop_first(),
        peeled.last_cw == key.last_cw,
        peeled.out_cw == key.out_cw,
    ensures
        eval_spec(party, ex, key, x) == eval_spec(party, ex, peeled, x.drop_first()),
{
    let n = x.len();
    lemma_path_node_peel(ex, key.root.0@, key.prefix_cws@, x, (n - 2) as nat);
    assert(x.drop_first()[n - 2] == x[n - 1]);
}

} // verus!
