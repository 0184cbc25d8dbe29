//! Reference (trusted-dealer) DPF key generation.
//!
//! A non-interactive centralised keygen, as opposed to the two-party
//! protocol in `protocol::fig10`.
//!
//!   Intermediate levels (i ∈ [1, n-1]):
//!     CW_i   = H_S(node_P0) ⊕ H_S(node_P1) ⊕ ᾱ_i · Δ
//!     node_b := H_S(node_b) ⊕ α_i · node_b ⊕ t_b · CW_i
//!
//!   Last level (level n):
//!     (high_σ ‖ low_σ)_b := H_S(node_b ⊕ σ)  for σ ∈ {0,1}
//!     HCW  = ⟨high_{ᾱ_n}⟩_0 ⊕ ⟨high_{ᾱ_n}⟩_1
//!     LCW_σ = ⟨low_σ⟩_0 ⊕ ⟨low_σ⟩_1 ⊕ α_n ⊕ σ̄
//!     node_b := (high_{α_n} ‖ low_{α_n})_b ⊕ t_{n-1,b} · (HCW ‖ LCW_{α_n})
//!
//!   Output CW:
//!     CW_{n+1} = (t_n_P0 − t_n_P1) · (ConvertR(s_n_P1) − ConvertR(s_n_P0) + β)

use vstd::prelude::*;
use vstd::arithmetic::power2::pow2;
use crate::bits::{
    high_bits_spec, lemma_lsb_high_parts, lemma_msb_bits_injective, lemma_xor_cancel,
    lemma_xor_lsb_high, lsb, lsb_spec, msb_bits, set_lsb_spec, xor_block, xor_block_inplace,
    xor_spec,
};
use crate::dpf::correctness::{
    last_cw_ok, lemma_dpf_correct, lemma_last_step_pair, lemma_path_node_len,
    lemma_path_node_prefix, on_path_conditions, on_path_node, prefix_cw_spec,
};
use crate::dpf::eval::{eval_spec, hash_at, last_step, path_node, prefix_step};
use crate::dpf::key::{DpfKey, LastCw, PrefixCw};
use crate::field::{DpfRange, lemma_negate_facts};
use crate::hash::SeedExpander;
use crate::seed::Seed;

verus! {

/// CW_{n+1} for on-path leaves `leaf0`, `leaf1`:
/// (t_0 − t_1) · (ConvertR(s_1) − ConvertR(s_0) + β).
pub open spec fn out_cw_spec<R: DpfRange>(leaf0: Seq<u8>, leaf1: Seq<u8>, beta: R) -> R {
    let t0 = lsb_spec(leaf0);
    let t1 = lsb_spec(leaf1);
    if t0 == t1 {
        R::zero_spec()
    } else {
        let d = R::convert_spec(high_bits_spec(leaf1)).plus_spec(
            R::convert_spec(high_bits_spec(leaf0)).negate_spec(),
        ).plus_spec(beta);
        if t0 {
            d
        } else {
            d.negate_spec()
        }
    }
}

/// The key pair that the dealer generates for α, β, Δ and P₀'s root.
pub open spec fn dealer_keys<E: SeedExpander, R: DpfRange>(
    ex: &E,
    alpha: Seq<bool>,
    beta: R,
    delta: Seq<u8>,
    root0: Seq<u8>,
    k0: DpfKey<R>,
    k1: DpfKey<R>,
) -> bool {
    let n = alpha.len();
    let cws = k0.prefix_cws@;
    let g0 = on_path_node(ex, k0, alpha, (n - 1) as nat);
    let g1 = on_path_node(ex, k1, alpha, (n - 1) as nat);
    &&& k0.root.0@ == root0
    &&& k1.root.0@ == xor_spec(root0, delta)
    &&& k1.prefix_cws@ == cws
    &&& k1.last_cw == k0.last_cw
    &&& k1.out_cw == k0.out_cw
    &&& cws.len() == n - 1
    &&& forall|i: int|
        #![trigger cws[i]]
        0 <= i < n - 1 ==> cws[i].0@ == prefix_cw_spec(
            ex,
            on_path_node(ex, k0, alpha, i as nat),
            on_path_node(ex, k1, alpha, i as nat),
            alpha[i],
            delta,
        )
    &&& last_cw_ok(ex, g0, g1, alpha[n - 1], k0.last_cw)
    &&& k0.out_cw == out_cw_spec(
        last_step(ex, g0, alpha[n - 1], k0.last_cw),
        last_step(ex, g1, alpha[n - 1], k0.last_cw),
        beta,
    )
}

/// Group algebra behind the output correction word.
proof fn lemma_out_cw_algebra<R: DpfRange>(c0: R, c1: R, beta: R)
    ensures
        ({
            let d = c1.plus_spec(c0.negate_spec()).plus_spec(beta);
            let z = R::zero_spec();
            &&& c0.plus_spec(d).plus_spec(c1.plus_spec(z).negate_spec()) == beta
            &&& c0.plus_spec(z).plus_spec(c1.plus_spec(d.negate_spec()).negate_spec()) == beta
        }),
{
    let z = R::zero_spec();
    let n0 = c0.negate_spec();
    let n1 = c1.negate_spec();
    let e = c1.plus_spec(n0);
    let d = e.plus_spec(beta);
    R::lemma_group_laws(c1, z, z);
    R::lemma_group_laws(c0, z, z);
    lemma_negate_facts(c0, c1);
    lemma_negate_facts(d, c1);
    // c0 + e == c1
    R::lemma_group_laws(c1, n0, c0);
    R::lemma_group_laws(c0, n0, c1);
    R::lemma_group_laws(n0, c1, c0);
    R::lemma_group_laws(c0, c1, n0);
    assert(c0.plus_spec(e) == c1) by {
        R::lemma_group_laws(c0, e, z);
        R::lemma_group_laws(c0.plus_spec(n0), c1, z);
        R::lemma_group_laws(z, c1, z);
        R::lemma_group_laws(c1, z, z);
    }
    // first shape: (c0 + d) + -c1 == (c1 + β) + -c1 == β
    R::lemma_group_laws(c0, e, beta);
    R::lemma_group_laws(c1, beta, n1);
    R::lemma_group_laws(beta, c1, n1);
    R::lemma_group_laws(c1, n1, z);
    R::lemma_group_laws(beta, z, z);
    // second shape: c0 + (-c1 + d) == β
    let nd = d.negate_spec();
    lemma_negate_facts(c1, nd);
    R::lemma_group_laws(n1, e, beta);
    R::lemma_group_laws(n1, c1, n0);
    R::lemma_group_laws(c1, n1, n0);
    R::lemma_group_laws(z, n0, z);
    R::lemma_group_laws(n0, z, z);
    assert(n1.plus_spec(d) == n0.plus_spec(beta)) by {
        assert(n1.plus_spec(e) == n1.plus_spec(c1).plus_spec(n0));
        assert(n1.plus_spec(c1) == z);
        assert(z.plus_spec(n0) == n0);
    }
    R::lemma_group_laws(c0, n0, beta);
    R::lemma_group_laws(z, beta, z);
    R::lemma_group_laws(beta, z, z);
    assert(c0.plus_spec(n1.plus_spec(d)) == beta);
}

/// Generate a (k₀, k₁) DPF key pair for the point function f^{α,β}.
///
/// * `alpha_bits` — the special point α in MSB-first bits (length n)
/// * `beta`       — the non-zero output value β ∈ R
/// * `delta`      — global offset Δ (λ bits, LSB must be 1)
/// * `root0`      — P₀'s root share (λ bits); P₁'s root = root0 ⊕ Δ
pub fn gen<R: DpfRange, E: SeedExpander>(
    expander: &E,
    alpha_bits: &[bool],
    beta: R,
    delta: [u8; 16],
    root0: [u8; 16],
) -> (keys: (DpfKey<R>, DpfKey<R>))
    requires
        alpha_bits@.len() >= 1,
        lsb_spec(delta@),
    ensures
        dealer_keys(expander, alpha_bits@, beta, delta@, root0@, keys.0, keys.1),
{
    let n = alpha_bits.len();
    let ghost alpha = alpha_bits@;

    // root1 = root0 ⊕ Δ
    let root1 = xor_block(&root0, &delta);

    // Current on-path node shares (full λ-bit block, tag in LSB).
    let mut node0 = root0;
    let mut node1 = root1;

    let mut prefix_cws: Vec<PrefixCw> = Vec::new();

    // Intermediate levels 1 .. n-1
    let mut i: usize = 0;
    while i < n - 1
        invariant
            n == alpha.len(),
            alpha == alpha_bits@,
            n >= 1,
            i <= n - 1,
            prefix_cws@.len() == i,
            node0@ == path_node(expander, root0@, prefix_cws@, alpha, i as nat),
            node1@ == path_node(expander, root1@, prefix_cws@, alpha, i as nat),
            forall|j: int|
                #![trigger prefix_cws@[j]]
                0 <= j < i ==> prefix_cws@[j].0@ == prefix_cw_spec(
                    expander,
                    path_node(expander, root0@, prefix_cws@, alpha, j as nat),
                    path_node(expander, root1@, prefix_cws@, alpha, j as nat),
                    alpha[j],
                    delta@,
                ),
        decreases n - 1 - i,
    {
        let alpha_i = alpha_bits[i];
        let t0 = lsb(&node0);
        let t1 = lsb(&node1);

        let h0 = expander.hash(&node0);
        let h1 = expander.hash(&node1);

        // CW_i = H_S(node_P0) ⊕ H_S(node_P1) ⊕ ᾱ_i · Δ
        let mut cw = xor_block(&h0, &h1);
        if !alpha_i {
            xor_block_inplace(&mut cw, &delta);
        }

        // Advance on-path nodes:
        //   node_b := H_S(node_b) ⊕ α_i · node_b ⊕ t_b · CW_i
        let mut new0 = if alpha_i {
            xor_block(&h0, &node0)
        } else {
            h0
        };
        if t0 {
            xor_block_inplace(&mut new0, &cw);
        }

        let mut new1 = if alpha_i {
            xor_block(&h1, &node1)
        } else {
            h1
        };
        if t1 {
            xor_block_inplace(&mut new1, &cw);
        }

        let ghost old_cws = prefix_cws@;
        prefix_cws.push(PrefixCw(cw));
        proof {
            let cws = prefix_cws@;
            assert forall|j: nat| j <= i implies #[trigger] path_node(expander, root0@, cws, alpha, j)
                == path_node(expander, root0@, old_cws, alpha, j) && path_node(
                expander,
                root1@,
                cws,
                alpha,
                j,
            ) == path_node(expander, root1@, old_cws, alpha, j) by {
                lemma_path_node_prefix(expander, root0@, cws, old_cws, alpha, alpha, j);
                lemma_path_node_prefix(expander, root1@, cws, old_cws, alpha, alpha, j);
            }
            assert(cws[i as int] == PrefixCw(cw));
            assert(new0@ == prefix_step(expander, node0@, alpha[i as int], cw@));
            assert(new1@ == prefix_step(expander, node1@, alpha[i as int], cw@));
            assert(path_node(expander, root0@, cws, alpha, (i + 1) as nat) == prefix_step(
                expander,
                path_node(expander, root0@, cws, alpha, i as nat),
                alpha[i as int],
                cws[i as int].0@,
            ));
            assert(path_node(expander, root1@, cws, alpha, (i + 1) as nat) == prefix_step(
                expander,
                path_node(expander, root1@, cws, alpha, i as nat),
                alpha[i as int],
                cws[i as int].0@,
            ));
        }
        node0 = new0;
        node1 = new1;
        i = i + 1;
    }

    // Last level n
    let alpha_n = alpha_bits[n - 1];
    let t_prev0 = lsb(&node0);
    let t_prev1 = lsb(&node1);

    // (high_σ ‖ low_σ)_b := H_S(node_b ⊕ σ)
    let (high0_s0, low0_s0, high0_s1, low0_s1) = expand_last_split(expander, &node0);
    let (high1_s0, low1_s0, high1_s1, low1_s1) = expand_last_split(expander, &node1);

    // HCW = ⟨high_{ᾱ_n}⟩_0 ⊕ ⟨high_{ᾱ_n}⟩_1: it makes the off-path child's
    // seeds agree.
    let hcw = if alpha_n {
        xor_block(&high0_s0, &high1_s0)
    } else {
        xor_block(&high0_s1, &high1_s1)
    };

    // LCW_0 = ⟨low_0⟩_0 ⊕ ⟨low_0⟩_1 ⊕ α_n ⊕ 1
    // LCW_1 = ⟨low_1⟩_0 ⊕ ⟨low_1⟩_1 ⊕ α_n
    let lcw0 = !((low0_s0 != low1_s0) != alpha_n);
    let lcw1 = (low0_s1 != low1_s1) != alpha_n;

    let last_cw = LastCw { hcw, lcw0, lcw1 };

    // Advance on-path nodes to level n:
    //   node_b := (high_{α_n} ‖ low_{α_n})_b ⊕ t_{prev,b} · (HCW ‖ LCW_{α_n})
    let (mut sn0, mut tn0) = if alpha_n {
        (high0_s1, low0_s1)
    } else {
        (high0_s0, low0_s0)
    };
    if t_prev0 {
        xor_block_inplace(&mut sn0, &hcw);
        tn0 = tn0 != (if alpha_n { lcw1 } else { lcw0 });
    }
    let (mut sn1, mut tn1) = if alpha_n {
        (high1_s1, low1_s1)
    } else {
        (high1_s0, low1_s0)
    };
    if t_prev1 {
        xor_block_inplace(&mut sn1, &hcw);
        tn1 = tn1 != (if alpha_n { lcw1 } else { lcw0 });
    }

    let ghost leaf0 = last_step(expander, node0@, alpha_n, last_cw);
    let ghost leaf1 = last_step(expander, node1@, alpha_n, last_cw);
    proof {
        let ha = hash_at(expander, node0@, !alpha_n);
        let hb = hash_at(expander, node1@, !alpha_n);
        let hc = hash_at(expander, node0@, alpha_n);
        let hd = hash_at(expander, node1@, alpha_n);
        expander.lemma_hash_len(if !alpha_n { crate::bits::flip_lsb_spec(node0@) } else { node0@ });
        expander.lemma_hash_len(if !alpha_n { crate::bits::flip_lsb_spec(node1@) } else { node1@ });
        expander.lemma_hash_len(if alpha_n { crate::bits::flip_lsb_spec(node0@) } else { node0@ });
        expander.lemma_hash_len(if alpha_n { crate::bits::flip_lsb_spec(node1@) } else { node1@ });
        lemma_lsb_high_parts(ha, false);
        lemma_lsb_high_parts(hb, false);
        lemma_lsb_high_parts(hc, false);
        lemma_lsb_high_parts(hd, false);
        lemma_xor_lsb_high(high_bits_spec(ha), high_bits_spec(hb));
        lemma_xor_lsb_high(high_bits_spec(hc), hcw@);
        lemma_xor_lsb_high(high_bits_spec(hd), hcw@);
        lemma_lsb_high_parts(sn0@, tn0);
        lemma_lsb_high_parts(sn1@, tn1);
        assert(leaf0 == set_lsb_spec(sn0@, tn0));
        assert(leaf1 == set_lsb_spec(sn1@, tn1));
        assert(high_bits_spec(leaf0) == sn0@);
        assert(high_bits_spec(leaf1) == sn1@);
    }

    // Output correction word CW_{n+1}:
    // (t_n_P0 − t_n_P1) · (ConvertR(s_n_P1) − ConvertR(s_n_P0) + β).
    // If the tags agree no correction is needed.
    let out_cw: R = if tn0 == tn1 {
        R::zero()
    } else {
        let diff = R::convert(&sn1).minus(R::convert(&sn0)).plus(beta);
        if tn0 {
            // t_n_P0=1, t_n_P1=0 → factor is +1
            diff
        } else {
            // t_n_P0=0, t_n_P1=1 → factor is -1
            diff.negate()
        }
    };

    // Assemble keys: k_b = (root_b, {CW_i}, CW_{n+1})
    let key0 = DpfKey {
        root: Seed(root0),
        prefix_cws: prefix_cws.clone(),
        last_cw: last_cw,
        out_cw: out_cw.duplicate(),
    };
    let key1 = DpfKey { root: Seed(root1), prefix_cws, last_cw, out_cw };
    proof {
        assert(key0.prefix_cws@ =~= key1.prefix_cws@);
    }
    (key0, key1)
}

/// Expand a node at the last level: returns (high0, low0, high1, low1)
/// where high_σ = high bits of H_S(node ⊕ σ), low_σ = LSB.
fn expand_last_split<E: SeedExpander>(expander: &E, node: &[u8; 16]) -> (r: (
    [u8; 16],
    bool,
    [u8; 16],
    bool,
))
    ensures
        r.0@ == high_bits_spec(hash_at(expander, node@, false)),
        r.1 == lsb_spec(hash_at(expander, node@, false)),
        r.2@ == high_bits_spec(hash_at(expander, node@, true)),
        r.3 == lsb_spec(hash_at(expander, node@, true)),
{
    let ex = expander.expand_last(node);
    (ex.high0(), ex.low0(), ex.high1(), ex.low1())
}

/// Correctness of dealer-generated keys: for every input x with as many
/// bits as α, Eval(0, k₀, x) + Eval(1, k₁, x) is β when x = α and zero
/// otherwise.
pub proof fn lemma_gen_correct<E: SeedExpander, R: DpfRange>(
    ex: &E,
    alpha: Seq<bool>,
    beta: R,
    delta: Seq<u8>,
    root0: Seq<u8>,
    k0: DpfKey<R>,
    k1: DpfKey<R>,
    x: Seq<bool>,
)
    requires
        alpha.len() >= 1,
        delta.len() == 16,
        lsb_spec(delta),
        dealer_keys(ex, alpha, beta, delta, root0, k0, k1),
        x.len() == alpha.len(),
    ensures
        eval_spec(false, ex, k0, x).plus_spec(eval_spec(true, ex, k1, x)) == (if x == alpha {
            beta
        } else {
            R::zero_spec()
        }),
{
    lemma_dealer_keys_on_path(ex, alpha, beta, delta, root0, k0, k1);
    lemma_dpf_correct(ex, alpha, beta, delta, k0, k1, x);
}

/// Correctness of dealer-generated keys over the points below 2^n: with α
/// and x decomposed into n bits (MSB first), Eval(0, k₀, x) + Eval(1, k₁, x)
/// is β when x = α and zero otherwise.
pub proof fn lemma_gen_correct_at<E: SeedExpander, R: DpfRange>(
    ex: &E,
    n: nat,
    alpha: u128,
    x: u128,
    beta: R,
    delta: Seq<u8>,
    root0: Seq<u8>,
    k0: DpfKey<R>,
    k1: DpfKey<R>,
)
    requires
        1 <= n <= 128,
        alpha < pow2(n),
        x < pow2(n),
        delta.len() == 16,
        lsb_spec(delta),
        dealer_keys(ex, msb_bits(alpha, n), beta, delta, root0, k0, k1),
    ensures
        eval_spec(false, ex, k0, msb_bits(x, n)).plus_spec(eval_spec(true, ex, k1, msb_bits(x, n)))
            == (if x == alpha {
            beta
        } else {
            R::zero_spec()
        }),
{
    lemma_gen_correct(ex, msb_bits(alpha, n), beta, delta, root0, k0, k1, msb_bits(x, n));
    if msb_bits(x, n) == msb_bits(alpha, n) {
        lemma_msb_bits_injective(x, alpha, n);
    }
}

/// Dealer-generated keys satisfy the on-path conditions.
proof fn lemma_dealer_keys_on_path<E: SeedExpander, R: DpfRange>(
    ex: &E,
    alpha: Seq<bool>,
    beta: R,
    delta: Seq<u8>,
    root0: Seq<u8>,
    k0: DpfKey<R>,
    k1: DpfKey<R>,
)
    requires
        alpha.len() >= 1,
        delta.len() == 16,
        lsb_spec(delta),
        dealer_keys(ex, alpha, beta, delta, root0, k0, k1),
    ensures
        on_path_conditions(ex, alpha, beta, delta, k0, k1),
{
    let n = alpha.len();
    let m = (n - 1) as nat;
    lemma_xor_cancel(delta, root0);
    assert(xor_spec(k0.root.0@, k1.root.0@) == delta);
    // The on-path leaves' tags differ, so the output correction word
    // makes the shares sum to β.
    let cw = k0.last_cw;
    let g0 = on_path_node(ex, k0, alpha, m);
    let g1 = on_path_node(ex, k1, alpha, m);
    // Build on-path facts without the output condition.
    lemma_path_pair_prefix(ex, alpha, delta, k0, k1, m);
    lemma_path_node_len(ex, k0.root.0@, k0.prefix_cws@, alpha, m);
    lemma_path_node_len(ex, k1.root.0@, k1.prefix_cws@, alpha, m);
    lemma_last_step_pair(ex, g0, g1, delta, alpha[n - 1], alpha[n - 1], cw);
    let l0 = last_step(ex, g0, alpha[n - 1], cw);
    let l1 = last_step(ex, g1, alpha[n - 1], cw);
    let c0 = R::convert_spec(high_bits_spec(l0));
    let c1 = R::convert_spec(high_bits_spec(l1));
    lemma_out_cw_algebra(c0, c1, beta);
}

/// Along α the two dealer nodes differ by Δ at every level.
proof fn lemma_path_pair_prefix<E: SeedExpander, R: DpfRange>(
    ex: &E,
    alpha: Seq<bool>,
    delta: Seq<u8>,
    k0: DpfKey<R>,
    k1: DpfKey<R>,
    i: nat,
)
    requires
        alpha.len() >= 1,
        i <= alpha.len() - 1,
        delta.len() == 16,
        lsb_spec(delta),
        xor_spec(k0.root.0@, k1.root.0@) == delta,
        k1.prefix_cws@ == k0.prefix_cws@,
        k0.prefix_cws@.len() == alpha.len() - 1,
        forall|j: int|
            #![trigger k0.prefix_cws@[j]]
            0 <= j < alpha.len() - 1 ==> k0.prefix_cws@[j].0@ == prefix_cw_spec(
                ex,
                on_path_node(ex, k0, alpha, j as nat),
                on_path_node(ex, k1, alpha, j as nat),
                alpha[j],
                delta,
            ),
    ensures
        xor_spec(on_path_node(ex, k0, alpha, i), on_path_node(ex, k1, alpha, i)) == delta,
    decreases i,
{
    if i > 0 {
        let j = (i - 1) as nat;
        lemma_path_pair_prefix(ex, alpha, delta, k0, k1, j);
        let g0 = on_path_node(ex, k0, alpha, j);
        let g1 = on_path_node(ex, k1, alpha, j);
        lemma_path_node_len(ex, k0.root.0@, k0.prefix_cws@, alpha, j);
        lemma_path_node_len(ex, k1.root.0@, k1.prefix_cws@, alpha, j);
        assert(k0.prefix_cws@[j as int].0@ == prefix_cw_spec(ex, g0, g1, alpha[j as int], delta));
        crate::dpf::correctness::lemma_prefix_step_pair(
            ex,
            g0,
            g1,
            delta,
            alpha[j as int],
            alpha[j as int],
        );
    }
}

} // verus!
