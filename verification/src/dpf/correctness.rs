//! Correctness of DPF key pairs: the two parties' evaluations sum to β at
//! the special point α and to zero everywhere else.
//!
//! A key pair is correct whenever its correction words are the ones that
//! the on-path nodes call for (`on_path_conditions`); both the dealer
//! key generation and the two-party protocol produce such pairs.

use vstd::prelude::*;
use crate::bits::{
    flip_lsb_spec, high_bits_spec, lemma_lsb_high_parts, lemma_xor_cancel, lemma_xor_comm,
    lemma_xor_lsb_high, lsb_spec, set_lsb_spec, xor_spec,
};
use crate::dpf::eval::{
    eval_spec, hash_at, last_step, leaf_node, output_share, path_node, prefix_step,
};
use crate::dpf::key::{DpfKey, LastCw, PrefixCw};
use crate::field::DpfRange;
use crate::hash::SeedExpander;

verus! {

/// The prefix correction word for on-path nodes `n0`, `n1`:
/// CW_i = H_S(n0) ⊕ H_S(n1) ⊕ ᾱ_i · Δ.
pub open spec fn prefix_cw_spec<E: SeedExpander>(
    ex: &E,
    n0: Seq<u8>,
    n1: Seq<u8>,
    alpha_i: bool,
    delta: Seq<u8>,
) -> Seq<u8> {
    let h = xor_spec(ex.hash_spec(n0), ex.hash_spec(n1));
    if alpha_i {
        h
    } else {
        xor_spec(h, delta)
    }
}

/// The last correction word for on-path nodes `n0`, `n1`:
/// HCW = high_{ᾱ_n}(n0) ⊕ high_{ᾱ_n}(n1),
/// LCW_0 = low_0(n0) ⊕ low_0(n1) ⊕ α_n ⊕ 1,
/// LCW_1 = low_1(n0) ⊕ low_1(n1) ⊕ α_n.
pub open spec fn last_cw_ok<E: SeedExpander>(
    ex: &E,
    n0: Seq<u8>,
    n1: Seq<u8>,
    alpha_n: bool,
    cw: LastCw,
) -> bool {
    &&& cw.hcw@ == xor_spec(
        high_bits_spec(hash_at(ex, n0, !alpha_n)),
        high_bits_spec(hash_at(ex, n1, !alpha_n)),
    )
    &&& cw.lcw0 == !((lsb_spec(hash_at(ex, n0, false)) != lsb_spec(hash_at(ex, n1, false)))
        != alpha_n)
    &&& cw.lcw1 == ((lsb_spec(hash_at(ex, n0, true)) != lsb_spec(hash_at(ex, n1, true)))
        != alpha_n)
}

/// The on-path node of party `b`'s key after `i` intermediate levels.
pub open spec fn on_path_node<E: SeedExpander, R>(
    ex: &E,
    key: DpfKey<R>,
    alpha: Seq<bool>,
    i: nat,
) -> Seq<u8> {
    path_node(ex, key.root.0@, key.prefix_cws@, alpha, i)
}

/// What a key pair for the point function f_{α,β} must satisfy: the roots
/// differ by Δ (whose LSB is 1), both keys share their correction words,
/// each correction word is the one the on-path nodes call for, and the
/// output correction word makes the on-path shares sum to β.
pub open spec fn on_path_conditions<E: SeedExpander, R: DpfRange>(
    ex: &E,
    alpha: Seq<bool>,
    beta: R,
    delta: Seq<u8>,
    k0: DpfKey<R>,
    k1: DpfKey<R>,
) -> bool {
    let n = alpha.len();
    let cws = k0.prefix_cws@;
    let g0 = on_path_node(ex, k0, alpha, (n - 1) as nat);
    let g1 = on_path_node(ex, k1, alpha, (n - 1) as nat);
    &&& n >= 1
    &&& delta.len() == 16
    &&& lsb_spec(delta)
    &&& xor_spec(k0.root.0@, k1.root.0@) == delta
    &&& k1.prefix_cws@ == cws
    &&& k1.last_cw == k0.last_cw
    &&& k1.out_cw == k0.out_cw
    &&& cws.len() == n - 1
    &&& forall|i: int|
        #![trigger cws[i]]
        0 <= i < n - 1 ==> cws[i].0@ == prefix_cw_spec(
            ex,
            on_path_node(ex, k0, alpha, i as nat),
            on_path_node(ex, k1, alpha, i as nat),
            alpha[i],
            delta,
        )
    &&& last_cw_ok(ex, g0, g1, alpha[n - 1], k0.last_cw)
    &&& output_share(false, last_step(ex, g0, alpha[n - 1], k0.last_cw), k0.out_cw).plus_spec(
        output_share(true, last_step(ex, g1, alpha[n - 1], k0.last_cw), k0.out_cw),
    ) == beta
}

/// Byte-level view of one intermediate level applied to two on-path nodes.
proof fn lemma_step_byte(h0: u8, h1: u8, g0: u8, g1: u8, t0: bool, x: bool, a: bool)
    by (bit_vector)
    ensures
        ({
            let d = g0 ^ g1;
            let cw = if a {
                h0 ^ h1
            } else {
                (h0 ^ h1) ^ d
            };
            let c0 = if x {
                h0 ^ g0
            } else {
                h0
            };
            let c1 = if x {
                h1 ^ g1
            } else {
                h1
            };
            let r0 = if t0 {
                c0 ^ cw
            } else {
                c0
            };
            let r1 = if !t0 {
                c1 ^ cw
            } else {
                c1
            };
            &&& x == a ==> r0 ^ r1 == d
            &&& x != a ==> r0 == r1
        }),
{
}

/// One intermediate level applied to two on-path nodes that differ by Δ:
/// the child chosen by α stays on the path (children differ by Δ), the
/// other child falls off it (children are equal).
pub proof fn lemma_prefix_step_pair<E: SeedExpander>(
    ex: &E,
    g0: Seq<u8>,
    g1: Seq<u8>,
    delta: Seq<u8>,
    a: bool,
    x: bool,
)
    requires
        g0.len() == 16,
        g1.len() == 16,
        delta == xor_spec(g0, g1),
        lsb_spec(delta),
    ensures
        ({
            let cw = prefix_cw_spec(ex, g0, g1, a, delta);
            let r0 = prefix_step(ex, g0, x, cw);
            let r1 = prefix_step(ex, g1, x, cw);
            &&& r0.len() == 16
            &&& r1.len() == 16
            &&& x == a ==> xor_spec(r0, r1) == delta
            &&& x != a ==> r0 == r1
        }),
{
    let h0 = ex.hash_spec(g0);
    let h1 = ex.hash_spec(g1);
    ex.lemma_hash_len(g0);
    ex.lemma_hash_len(g1);
    lemma_xor_lsb_high(g0, g1);
    let t0 = lsb_spec(g0);
    let cw = prefix_cw_spec(ex, g0, g1, a, delta);
    let r0 = prefix_step(ex, g0, x, cw);
    let r1 = prefix_step(ex, g1, x, cw);
    assert(r0.len() == 16 && r1.len() == 16);
    if x == a {
        assert forall|k: int| 0 <= k < 16 implies #[trigger] xor_spec(r0, r1)[k] == delta[k] by {
            lemma_step_byte(h0[k], h1[k], g0[k], g1[k], t0, x, a);
        }
        assert(xor_spec(r0, r1) =~= delta);
    } else {
        assert forall|k: int| 0 <= k < 16 implies #[trigger] r0[k] == r1[k] by {
            lemma_step_byte(h0[k], h1[k], g0[k], g1[k], t0, x, a);
        }
        assert(r0 =~= r1);
    }
}

/// The last level applied to two on-path nodes that differ by Δ: along α
/// the leaves' tags differ; off α the leaves are equal.
pub proof fn lemma_last_step_pair<E: SeedExpander>(
    ex: &E,
    g0: Seq<u8>,
    g1: Seq<u8>,
    delta: Seq<u8>,
    a: bool,
    x: bool,
    cw: LastCw,
)
    requires
        g0.len() == 16,
        g1.len() == 16,
        delta == xor_spec(g0, g1),
        lsb_spec(delta),
        last_cw_ok(ex, g0, g1, a, cw),
    ensures
        x == a ==> lsb_spec(last_step(ex, g0, x, cw)) != lsb_spec(last_step(ex, g1, x, cw)),
        x != a ==> last_step(ex, g0, x, cw) == last_step(ex, g1, x, cw),
{
    lemma_xor_lsb_high(g0, g1);
    let h0 = hash_at(ex, g0, x);
    let h1 = hash_at(ex, g1, x);
    ex.lemma_hash_len(if x { flip_lsb_spec(g0) } else { g0 });
    ex.lemma_hash_len(if x { flip_lsb_spec(g1) } else { g1 });
    let s0 = if lsb_spec(g0) { xor_spec(high_bits_spec(h0), cw.hcw@) } else { high_bits_spec(h0) };
    let s1 = if lsb_spec(g1) { xor_spec(high_bits_spec(h1), cw.hcw@) } else { high_bits_spec(h1) };
    let lcw = if x { cw.lcw1 } else { cw.lcw0 };
    let u0 = if lsb_spec(g0) { lsb_spec(h0) != lcw } else { lsb_spec(h0) };
    let u1 = if lsb_spec(g1) { lsb_spec(h1) != lcw } else { lsb_spec(h1) };
    assert(last_step(ex, g0, x, cw) == set_lsb_spec(s0, u0));
    assert(last_step(ex, g1, x, cw) == set_lsb_spec(s1, u1));
    lemma_lsb_high_parts(s0, u0);
    lemma_lsb_high_parts(s1, u1);
    if x != a {
        let hh0 = high_bits_spec(h0);
        let hh1 = high_bits_spec(h1);
        assert(cw.hcw@ == xor_spec(hh0, hh1));
        lemma_xor_cancel(hh0, hh1);
        lemma_xor_comm(hh0, hh1);
        lemma_xor_cancel(hh1, hh0);
        assert(s0 == s1);
    }
}

/// The on-path node after `i` levels depends only on the first `i` bits
/// of the path and the first `i` correction words.
pub proof fn lemma_path_node_prefix<E: SeedExpander>(
    ex: &E,
    root: Seq<u8>,
    cws: Seq<PrefixCw>,
    cws2: Seq<PrefixCw>,
    x: Seq<bool>,
    y: Seq<bool>,
    i: nat,
)
    requires
        forall|k: int| 0 <= k < i ==> x[k] == y[k],
        forall|k: int| 0 <= k < i ==> cws[k] == cws2[k],
    ensures
        path_node(ex, root, cws, x, i) == path_node(ex, root, cws2, y, i),
    decreases i,
{
    if i > 0 {
        lemma_path_node_prefix(ex, root, cws, cws2, x, y, (i - 1) as nat);
    }
}

/// Every node along a path is a 16-byte block.
pub proof fn lemma_path_node_len<E: SeedExpander>(
    ex: &E,
    root: Seq<u8>,
    cws: Seq<PrefixCw>,
    x: Seq<bool>,
    i: nat,
)
    requires
        root.len() == 16,
    ensures
        path_node(ex, root, cws, x, i).len() == 16,
    decreases i,
{
    if i > 0 {
        let prev = path_node(ex, root, cws, x, (i - 1) as nat);
        lemma_path_node_len(ex, root, cws, x, (i - 1) as nat);
        ex.lemma_hash_len(prev);
    }
}

/// Along the path of a correct key pair, the two parties' nodes differ by
/// Δ while the input agrees with α, and are equal once it has left α.
pub proof fn lemma_path_pair<E: SeedExpander, R: DpfRange>(
    ex: &E,
    alpha: Seq<bool>,
    beta: R,
    delta: Seq<u8>,
    k0: DpfKey<R>,
    k1: DpfKey<R>,
    x: Seq<bool>,
    i: nat,
)
    requires
        on_path_conditions(ex, alpha, beta, delta, k0, k1),
        x.len() == alpha.len(),
        i <= alpha.len() - 1,
    ensures
        ({
            let cws = k0.prefix_cws@;
            let a0 = path_node(ex, k0.root.0@, cws, x, i);
            let a1 = path_node(ex, k1.root.0@, cws, x, i);
            let g0 = on_path_node(ex, k0, alpha, i);
            let g1 = on_path_node(ex, k1, alpha, i);
            &&& (forall|k: int| 0 <= k < i ==> x[k] == alpha[k]) ==> (a0 == g0 && a1 == g1
                && xor_spec(g0, g1) == delta)
            &&& !(forall|k: int| 0 <= k < i ==> x[k] == alpha[k]) ==> a0 == a1
        }),
    decreases i,
{
    let cws = k0.prefix_cws@;
    let r0 = k0.root.0@;
    let r1 = k1.root.0@;
    if i == 0 {
    } else {
        let j = (i - 1) as nat;
        lemma_path_pair(ex, alpha, beta, delta, k0, k1, x, j);
        let a0 = path_node(ex, r0, cws, x, j);
        let a1 = path_node(ex, r1, cws, x, j);
        let g0 = on_path_node(ex, k0, alpha, j);
        let g1 = on_path_node(ex, k1, alpha, j);
        lemma_path_node_len(ex, r0, cws, alpha, j);
        lemma_path_node_len(ex, r1, cws, alpha, j);
        let cw = cws[j as int].0@;
        assert(cw == prefix_cw_spec(ex, g0, g1, alpha[j as int], delta));
        if forall|k: int| 0 <= k < j ==> x[k] == alpha[k] {
            lemma_prefix_step_pair(ex, g0, g1, delta, alpha[j as int], x[j as int]);
            if x[j as int] == alpha[j as int] {
                assert(forall|k: int| 0 <= k < i ==> x[k] == alpha[k]);
            } else {
                assert(!(forall|k: int| 0 <= k < i ==> x[k] == alpha[k]));
            }
        } else {
            assert(!(forall|k: int| 0 <= k < i ==> x[k] == alpha[k]));
        }
    }
}

/// DPF correctness for any key pair satisfying `on_path_conditions`: for
/// every input x of the same length as α,
/// Eval(0, k0, x) + Eval(1, k1, x) = β if x = α, and 0 otherwise.
pub proof fn lemma_dpf_correct<E: SeedExpander, R: DpfRange>(
    ex: &E,
    alpha: Seq<bool>,
    beta: R,
    delta: Seq<u8>,
    k0: DpfKey<R>,
    k1: DpfKey<R>,
    x: Seq<bool>,
)
    requires
        on_path_conditions(ex, alpha, beta, delta, k0, k1),
        x.len() == alpha.len(),
    ensures
        eval_spec(false, ex, k0, x).plus_spec(eval_spec(true, ex, k1, x)) == (if x == alpha {
            beta
        } else {
            R::zero_spec()
        }),
{
    let n = alpha.len();
    let m = (n - 1) as nat;
    let cws = k0.prefix_cws@;
    let cw = k0.last_cw;
    lemma_path_pair(ex, alpha, beta, delta, k0, k1, x, m);
    let a0 = path_node(ex, k0.root.0@, cws, x, m);
    let a1 = path_node(ex, k1.root.0@, cws, x, m);
    let g0 = on_path_node(ex, k0, alpha, m);
    let g1 = on_path_node(ex, k1, alpha, m);
    lemma_path_node_len(ex, k0.root.0@, cws, alpha, m);
    lemma_path_node_len(ex, k1.root.0@, cws, alpha, m);
    let l0 = leaf_node(ex, k0, x);
    let l1 = leaf_node(ex, k1, x);
    let prefix_same = forall|k: int| 0 <= k < m ==> x[k] == alpha[k];
    if x =~= alpha {
        assert(prefix_same);
    } else {
        // The two leaves coincide, so the shares cancel.
        if prefix_same {
            let k = choose|k: int| 0 <= k < n && x[k] != alpha[k];
            assert(k == m);
            lemma_last_step_pair(ex, g0, g1, delta, alpha[m as int], x[m as int], cw);
        }
        assert(l0 == l1);
        let raw = R::convert_spec(high_bits_spec(l0)).plus_spec(
            if lsb_spec(l0) {
                k0.out_cw
            } else {
                R::zero_spec()
            },
        );
        R::lemma_group_laws(raw, raw, raw);
    }
}

} // verus!
