//! Π_DPF — two-party DPF correlation generation (binary-field path).
//!
//! Both parties expand their whole tree level by level. Off α's path their
//! nodes agree, so XOR-ing H_S over a whole level cancels everything but
//! the on-path pair, and the correction words come out as in the dealer
//! key generation. The secret path α enters only through Π_PREP's MACs.

use vstd::prelude::*;
use vstd::arithmetic::power2::pow2;
use crate::bits::{
    high_bits_spec, lemma_msb_bits_injective, lemma_xor_lsb_high, lsb_spec, msb_bits, xor_block,
    xor_block_inplace, xor_spec, zero_block,
};
use crate::dpf::correctness::{
    last_cw_ok, lemma_dpf_correct, on_path_conditions, on_path_node, prefix_cw_spec,
};
use crate::dpf::eval::{eval_spec, hash_at, output_share, path_node};
use crate::dpf::key::{DpfKey, LastCw, PrefixCw};
use crate::dpf::next_level::{next_level_last, next_level_prefix};
use crate::field::DpfRange;
use crate::hash::SeedExpander;
use crate::hybrid::cot::{CotBatch, CotOracle};
use crate::hybrid::rand::RandOracle;
use crate::protocol::levels::{
    convert_sum, expand_level, leaf_level, lemma_convert_sum_one_diff, lemma_leaf_level_structure,
    lemma_level_blocks_len, lemma_level_blocks_prefix, lemma_level_structure,
    lemma_parity_one_diff, lemma_pow2_mono, lemma_xor_all_concat, lemma_xor_all_one_diff,
    lemma_xor_all_single, level_blocks, parity,
    path_index, pow2_nat, seeds_of, xor_all,
};
use crate::protocol::prep::{
    PrepOutput, delta_share0_spec, delta_share1_spec, prep_correlated, prep_outputs_from, run_prep,
};
use crate::seed::{Seed, SeedTag, lemma_block_round_trip};

verus! {

/// Output of one Π_DPF execution: a key pair ready for DPF.Eval.
#[derive(Clone, Debug)]
pub struct DpfKeyPair<R> {
    pub key0: DpfKey<R>,
    pub key1: DpfKey<R>,
}

/// The packed blocks of a sequence of nodes.
pub open spec fn blocks_of(nodes: Seq<SeedTag>) -> Seq<Seq<u8>> {
    Seq::new(nodes.len(), |j: int| nodes[j].block_spec())
}

/// H_S of every block.
pub open spec fn hashes_of<E: SeedExpander>(ex: &E, blocks: Seq<Seq<u8>>) -> Seq<Seq<u8>> {
    Seq::new(blocks.len(), |j: int| ex.hash_spec(blocks[j]))
}

/// The high bits of H_S(block ⊕ σ) for every block.
pub open spec fn highs_at<E: SeedExpander>(ex: &E, blocks: Seq<Seq<u8>>, sigma: bool) -> Seq<
    Seq<u8>,
> {
    Seq::new(blocks.len(), |j: int| high_bits_spec(hash_at(ex, blocks[j], sigma)))
}

/// The LSB of H_S(block ⊕ σ) for every block.
pub open spec fn lows_at<E: SeedExpander>(ex: &E, blocks: Seq<Seq<u8>>, sigma: bool) -> Seq<bool> {
    Seq::new(blocks.len(), |j: int| lsb_spec(hash_at(ex, blocks[j], sigma)))
}

/// The seeds of a sequence of nodes.
pub open spec fn node_seeds(nodes: Seq<SeedTag>) -> Seq<Seq<u8>> {
    Seq::new(nodes.len(), |j: int| nodes[j].seed.0@)
}

/// CW_i from the two parties' level-i blocks and their Π_PREP outputs:
/// ⟨CWᵢ⟩_b = (⊕_j H_S(node_b^j)) ⊕ ⟨Δ⟩_b ⊕ K_b[i] ⊕ M_b[i], CWᵢ = ⟨CWᵢ⟩₀ ⊕ ⟨CWᵢ⟩₁.
#[verifier::opaque]
pub open spec fn level_cw_spec<E: SeedExpander>(
    ex: &E,
    l0: Seq<Seq<u8>>,
    l1: Seq<Seq<u8>>,
    p0: PrepOutput,
    p1: PrepOutput,
    i: int,
) -> Seq<u8> {
    let c0 = xor_spec(
        xor_spec(xor_spec(xor_all(hashes_of(ex, l0)), p0.delta_share@), p0.k_vals@[i]@),
        p0.m_vals@[i]@,
    );
    let c1 = xor_spec(
        xor_spec(xor_spec(xor_all(hashes_of(ex, l1)), p1.delta_share@), p1.k_vals@[i]@),
        p1.m_vals@[i]@,
    );
    xor_spec(c0, c1)
}

/// CW_n from the two parties' last intermediate level:
/// HCW = X_{high,ᾱ_n,0} ⊕ X_{high,ᾱ_n,1},
/// LCW₀ = X_{low,0,0} ⊕ X_{low,0,1} ⊕ α_n ⊕ 1, LCW₁ = X_{low,1,0} ⊕ X_{low,1,1} ⊕ α_n,
/// where X_{·,σ,b} XORs over all of party b's nodes.
pub open spec fn level_last_cw_ok<E: SeedExpander>(
    ex: &E,
    l0: Seq<Seq<u8>>,
    l1: Seq<Seq<u8>>,
    alpha_n: bool,
    cw: LastCw,
) -> bool {
    &&& cw.hcw@ == xor_spec(
        xor_all(highs_at(ex, l0, !alpha_n)),
        xor_all(highs_at(ex, l1, !alpha_n)),
    )
    &&& cw.lcw0 == !((parity(lows_at(ex, l0, false)) != parity(lows_at(ex, l1, false)))
        != alpha_n)
    &&& cw.lcw1 == ((parity(lows_at(ex, l0, true)) != parity(lows_at(ex, l1, true))) != alpha_n)
}

/// XOR of H_S applied to every node's packed block (seed ‖ tag).
fn hash_xor_all<E: SeedExpander>(expander: &E, nodes: &[SeedTag]) -> (acc: [u8; 16])
    ensures
        acc@ == xor_all(hashes_of(expander, blocks_of(nodes@))),
{
    let ghost hs = hashes_of(expander, blocks_of(nodes@));
    let mut acc = [0u8; 16];
    assert(acc@ =~= zero_block());
    assert(hs.take(0) =~= Seq::<Seq<u8>>::empty());
    let mut k: usize = 0;
    while k < nodes.len()
        invariant
            k <= nodes@.len(),
            hs == hashes_of(expander, blocks_of(nodes@)),
            acc@ == xor_all(hs.take(k as int)),
        decreases nodes@.len() - k,
    {
        let h = expander.hash(&nodes[k].to_block());
        xor_block_inplace(&mut acc, &h);
        assert(hs.take(k + 1).drop_last() =~= hs.take(k as int));
        k = k + 1;
    }
    assert(hs.take(nodes@.len() as int) =~= hs);
    acc
}

/// The XOR of H_S over a sequence of nodes (what `hash_xor_all` computes)
/// is zero for no nodes, H_S(node) for one node, and splits over
/// concatenation.
pub proof fn lemma_hash_xor_all_laws<E: SeedExpander>(
    ex: &E,
    a: Seq<SeedTag>,
    b: Seq<SeedTag>,
    nd: SeedTag,
)
    ensures
        xor_all(hashes_of(ex, blocks_of(Seq::<SeedTag>::empty()))) == zero_block(),
        xor_all(hashes_of(ex, blocks_of(seq![nd]))) == ex.hash_spec(nd.block_spec()),
        xor_all(hashes_of(ex, blocks_of(a + b))) == xor_spec(
            xor_all(hashes_of(ex, blocks_of(a))),
            xor_all(hashes_of(ex, blocks_of(b))),
        ),
{
    assert(hashes_of(ex, blocks_of(Seq::<SeedTag>::empty())) =~= Seq::<Seq<u8>>::empty());
    let h = ex.hash_spec(nd.block_spec());
    ex.lemma_hash_len(nd.block_spec());
    assert(hashes_of(ex, blocks_of(seq![nd])) =~= seq![h]);
    lemma_xor_all_single(h);
    let ha = hashes_of(ex, blocks_of(a));
    let hb = hashes_of(ex, blocks_of(b));
    assert(hashes_of(ex, blocks_of(a + b)) =~= ha + hb);
    lemma_xor_all_concat(ha, hb);
}

/// For each party: XOR of expand_last outputs over all nodes →
/// (high₀, low₀, high₁, low₁).
fn expand_last_xor<E: SeedExpander>(expander: &E, nodes: &[SeedTag]) -> (r: (
    [u8; 16],
    bool,
    [u8; 16],
    bool,
))
    ensures
        r.0@ == xor_all(highs_at(expander, blocks_of(nodes@), false)),
        r.1 == parity(lows_at(expander, blocks_of(nodes@), false)),
        r.2@ == xor_all(highs_at(expander, blocks_of(nodes@), true)),
        r.3 == parity(lows_at(expander, blocks_of(nodes@), true)),
{
    let ghost bl = blocks_of(nodes@);
    let ghost h0 = highs_at(expander, bl, false);
    let ghost l0 = lows_at(expander, bl, false);
    let ghost h1 = highs_at(expander, bl, true);
    let ghost l1 = lows_at(expander, bl, true);
    let mut xhigh0 = [0u8; 16];
    let mut xlow0 = false;
    let mut xhigh1 = [0u8; 16];
    let mut xlow1 = false;
    assert(xhigh0@ =~= zero_block());
    assert(h0.take(0) =~= Seq::<Seq<u8>>::empty());
    assert(h1.take(0) =~= Seq::<Seq<u8>>::empty());
    assert(l0.take(0) =~= Seq::<bool>::empty());
    assert(l1.take(0) =~= Seq::<bool>::empty());

    let mut k: usize = 0;
    while k < nodes.len()
        invariant
            k <= nodes@.len(),
            bl == blocks_of(nodes@),
            h0 == highs_at(expander, bl, false),
            l0 == lows_at(expander, bl, false),
            h1 == highs_at(expander, bl, true),
            l1 == lows_at(expander, bl, true),
            xhigh0@ == xor_all(h0.take(k as int)),
            xlow0 == parity(l0.take(k as int)),
            xhigh1@ == xor_all(h1.take(k as int)),
            xlow1 == parity(l1.take(k as int)),
        decreases nodes@.len() - k,
    {
        let block = nodes[k].to_block();
        let ex = expander.expand_last(&block);
        xor_block_inplace(&mut xhigh0, &ex.high0());
        xlow0 = xlow0 != ex.low0();
        xor_block_inplace(&mut xhigh1, &ex.high1());
        xlow1 = xlow1 != ex.low1();
        assert(h0.take(k + 1).drop_last() =~= h0.take(k as int));
        assert(h1.take(k + 1).drop_last() =~= h1.take(k as int));
        assert(l0.take(k + 1).drop_last() =~= l0.take(k as int));
        assert(l1.take(k + 1).drop_last() =~= l1.take(k as int));
        k = k + 1;
    }
    assert(h0.take(nodes@.len() as int) =~= h0);
    assert(h1.take(nodes@.len() as int) =~= h1);
    assert(l0.take(nodes@.len() as int) =~= l0);
    assert(l1.take(nodes@.len() as int) =~= l1);
    (xhigh0, xlow0, xhigh1, xlow1)
}

/// Compute the prefix correction word CW_i for level i ∈ [1, n-1]:
///   ⟨CWᵢ⟩_b = (⊕_{j} H_S(⟨sⱼ_{i-1} ‖ tⱼ_{i-1}⟩_b)) ⊕ ⟨Δ⟩_b ⊕ K_b[i] ⊕ M_b[i]
///   CWᵢ = ⟨CWᵢ⟩₀ ⊕ ⟨CWᵢ⟩₁
/// The MAC terms carry αᵢ·Δ, and the two Δ shares add Δ, so the public
/// word is H_S(on-path₀) ⊕ H_S(on-path₁) ⊕ ᾱᵢ·Δ.
fn compute_prefix_cw<E: SeedExpander>(
    expander: &E,
    level: usize,  // 0-indexed: level 0 produces CW_1
    nodes0: &[SeedTag],
    nodes1: &[SeedTag],
    prep0: &PrepOutput,
    prep1: &PrepOutput,
) -> (cw: PrefixCw)
    requires
        level < prep0.k_vals@.len(),
        level < prep0.m_vals@.len(),
        level < prep1.k_vals@.len(),
        level < prep1.m_vals@.len(),
    ensures
        cw.0@ == level_cw_spec(
            expander,
            blocks_of(nodes0@),
            blocks_of(nodes1@),
            *prep0,
            *prep1,
            level as int,
        ),
{
    // XOR of H_S over all nodes at this level for each party.
    let xor0 = hash_xor_all(expander, nodes0);
    let xor1 = hash_xor_all(expander, nodes1);

    let mut cw0 = xor0;
    xor_block_inplace(&mut cw0, &prep0.delta_share);
    xor_block_inplace(&mut cw0, &prep0.k_vals[level]);
    xor_block_inplace(&mut cw0, &prep0.m_vals[level]);

    let mut cw1 = xor1;
    xor_block_inplace(&mut cw1, &prep1.delta_share);
    xor_block_inplace(&mut cw1, &prep1.k_vals[level]);
    xor_block_inplace(&mut cw1, &prep1.m_vals[level]);

    // Public correction word = ⟨CWᵢ⟩₀ ⊕ ⟨CWᵢ⟩₁
    proof {
        reveal(level_cw_spec);
    }
    PrefixCw(xor_block(&cw0, &cw1))
}

/// Compute the structured correction word CW_n for the last level from the
/// XORs of both parties' last-level expansions.
fn compute_last_cw<E: SeedExpander>(
    expander: &E,
    nodes0: &[SeedTag],
    nodes1: &[SeedTag],
    alpha_n: bool,
) -> (cw: LastCw)
    ensures
        level_last_cw_ok(expander, blocks_of(nodes0@), blocks_of(nodes1@), alpha_n, cw),
{
    // For each party, ⟨X_{high,σ} ‖ X_{low,σ}⟩_b for σ ∈ {0,1}.
    let (xhigh0_s0, xlow0_s0, xhigh0_s1, xlow0_s1) = expand_last_xor(expander, nodes0);
    let (xhigh1_s0, xlow1_s0, xhigh1_s1, xlow1_s1) = expand_last_xor(expander, nodes1);

    // HCW = ⟨X_{high, ᾱ_n}⟩₀ ⊕ ⟨X_{high, ᾱ_n}⟩₁ (corrects the off-path child)
    let hcw = if alpha_n {
        xor_block(&xhigh0_s0, &xhigh1_s0)
    } else {
        xor_block(&xhigh0_s1, &xhigh1_s1)
    };

    // LCW₀ = Xlow₀ ⊕ αₙ ⊕ 1   (⟨LCW₀⟩_b = ⟨X_{low,0}⟩_b ⊕ ⟨αₙ⟩_b ⊕ b)
    let lcw0 = !((xlow0_s0 != xlow1_s0) != alpha_n);
    // LCW₁ = ⟨X_{low,1}⟩₀ ⊕ ⟨X_{low,1}⟩₁ ⊕ α_n
    let lcw1 = (xlow0_s1 != xlow1_s1) != alpha_n;

    LastCw { hcw, lcw0, lcw1 }
}

/// Σ_j ConvertR(seed j) over a sequence of nodes, summed from zero.
fn sum_converted_seeds<R: DpfRange>(nodes: &[SeedTag]) -> (sum: R)
    ensures
        sum == convert_sum::<R>(node_seeds(nodes@)),
{
    let ghost seeds = node_seeds(nodes@);
    let mut acc = R::zero();
    assert(seeds.take(0) =~= Seq::<Seq<u8>>::empty());
    let mut k: usize = 0;
    while k < nodes.len()
        invariant
            k <= nodes@.len(),
            seeds == node_seeds(nodes@),
            acc == convert_sum::<R>(seeds.take(k as int)),
        decreases nodes@.len() - k,
    {
        acc = acc.plus(R::convert(&nodes[k].seed.0));
        assert(seeds.take(k + 1).drop_last() =~= seeds.take(k as int));
        k = k + 1;
    }
    assert(seeds.take(nodes@.len() as int) =~= seeds);
    acc
}

/// Compute CW_{n+1} for the binary-field case:
/// CW_{n+1} = (Σ_j ConvertR(s₀_n^j)) + (Σ_j ConvertR(s₁_n^j)) + β
fn compute_output_cw_binary<R: DpfRange>(leaves0: &[SeedTag], leaves1: &[SeedTag], beta: R) -> (cw: R)
    ensures
        cw == convert_sum::<R>(node_seeds(leaves0@)).plus_spec(
            convert_sum::<R>(node_seeds(leaves1@)),
        ).plus_spec(beta),
{
    let sum0 = sum_converted_seeds::<R>(leaves0);
    let sum1 = sum_converted_seeds::<R>(leaves1);
    sum0.plus(sum1).plus(beta)
}


/// The key pair that Π_DPF computes from the two parties' Π_PREP outputs
/// and the shared random block W.
pub open spec fn binary_keys_from<E: SeedExpander, R: DpfRange>(
    ex: &E,
    p0: PrepOutput,
    p1: PrepOutput,
    w: Seq<u8>,
    alpha: Seq<bool>,
    beta: R,
    k0: DpfKey<R>,
    k1: DpfKey<R>,
) -> bool {
    let n = alpha.len();
    let cws = k0.prefix_cws@;
    let r0 = k0.root.0@;
    let r1 = k1.root.0@;
    let q0 = level_blocks(ex, r0, cws, (n - 1) as nat);
    let q1 = level_blocks(ex, r1, cws, (n - 1) as nat);
    &&& r0 == xor_spec(p0.delta_share@, w)
    &&& r1 == xor_spec(p1.delta_share@, w)
    &&& k1.prefix_cws@ == cws
    &&& k1.last_cw == k0.last_cw
    &&& k1.out_cw == k0.out_cw
    &&& cws.len() == n - 1
    &&& forall|i: int|
        #![trigger cws[i]]
        0 <= i < n - 1 ==> cws[i].0@ == level_cw_spec(
            ex,
            level_blocks(ex, r0, cws, i as nat),
            level_blocks(ex, r1, cws, i as nat),
            p0,
            p1,
            i,
        )
    &&& level_last_cw_ok(ex, q0, q1, alpha[n - 1], k0.last_cw)
    &&& k0.out_cw == convert_sum::<R>(seeds_of(leaf_level(ex, q0, k0.last_cw))).plus_spec(
        convert_sum::<R>(seeds_of(leaf_level(ex, q1, k0.last_cw))),
    ).plus_spec(beta)
}

/// Nodes that unpack the blocks of `l` pack back into exactly those blocks.
proof fn lemma_blocks_of_unpacked(nodes: Seq<SeedTag>, l: Seq<Seq<u8>>)
    requires
        nodes.len() == l.len(),
        forall|j: int| 0 <= j < l.len() ==> (#[trigger] l[j]).len() == 16,
        forall|j: int| 0 <= j < l.len() ==> (#[trigger] nodes[j]).unpacks(l[j]),
    ensures
        blocks_of(nodes) == l,
{
    assert forall|j: int| 0 <= j < l.len() implies #[trigger] blocks_of(nodes)[j] == l[j] by {
        lemma_block_round_trip(l[j], nodes[j]);
    }
    assert(blocks_of(nodes) =~= l);
}

/// Run the binary-field Π_DPF from both parties' Π_PREP outputs and the
/// shared random block W (local simulation of both parties).
pub fn gen_binary_from_prep<R: DpfRange, E: SeedExpander>(
    expander: &E,
    prep0: &PrepOutput,
    prep1: &PrepOutput,
    w: [u8; 16],
    alpha_bits: &[bool],
    beta: R,
) -> (pair: DpfKeyPair<R>)
    requires
        alpha_bits@.len() >= 1,
        pow2_nat(alpha_bits@.len()) <= usize::MAX,
        prep0.k_vals@.len() >= alpha_bits@.len() - 1,
        prep0.m_vals@.len() >= alpha_bits@.len() - 1,
        prep1.k_vals@.len() >= alpha_bits@.len() - 1,
        prep1.m_vals@.len() >= alpha_bits@.len() - 1,
    ensures
        binary_keys_from(expander, *prep0, *prep1, w@, alpha_bits@, beta, pair.key0, pair.key1),
{
    let n = alpha_bits.len();
    let ghost alpha = alpha_bits@;

    // Root shares ⟨s₀⁰ ‖ t₀⁰⟩_b := ⟨Δ⟩_b ⊕ W (the tag is the LSB).
    let root0 = xor_block(&prep0.delta_share, &w);
    let root1 = xor_block(&prep1.delta_share, &w);

    let mut nodes0: Vec<SeedTag> = Vec::new();
    nodes0.push(SeedTag::from_block(root0));
    let mut nodes1: Vec<SeedTag> = Vec::new();
    nodes1.push(SeedTag::from_block(root1));

    let mut prefix_cws: Vec<PrefixCw> = Vec::new();

    // Levels i = 1 .. n-1
    let mut i: usize = 0;
    while i < n - 1
        invariant
            n == alpha.len(),
            alpha == alpha_bits@,
            n >= 1,
            i <= n - 1,
            pow2_nat(n as nat) <= usize::MAX,
            prep0.k_vals@.len() >= n - 1,
            prep0.m_vals@.len() >= n - 1,
            prep1.k_vals@.len() >= n - 1,
            prep1.m_vals@.len() >= n - 1,
            prefix_cws@.len() == i,
            nodes0@.len() == pow2_nat(i as nat),
            nodes1@.len() == pow2_nat(i as nat),
            forall|j: int|
                0 <= j < pow2_nat(i as nat) ==> (#[trigger] nodes0@[j]).unpacks(
                    level_blocks(expander, root0@, prefix_cws@, i as nat)[j],
                ),
            forall|j: int|
                0 <= j < pow2_nat(i as nat) ==> (#[trigger] nodes1@[j]).unpacks(
                    level_blocks(expander, root1@, prefix_cws@, i as nat)[j],
                ),
            forall|j: int|
                #![trigger prefix_cws@[j]]
                0 <= j < i ==> prefix_cws@[j].0@ == level_cw_spec(
                    expander,
                    level_blocks(expander, root0@, prefix_cws@, j as nat),
                    level_blocks(expander, root1@, prefix_cws@, j as nat),
                    *prep0,
                    *prep1,
                    j,
                ),
        decreases n - 1 - i,
    {
        let ghost cws = prefix_cws@;
        let ghost l0 = level_blocks(expander, root0@, cws, i as nat);
        let ghost l1 = level_blocks(expander, root1@, cws, i as nat);
        proof {
            lemma_level_blocks_len(expander, root0@, cws, i as nat);
            lemma_level_blocks_len(expander, root1@, cws, i as nat);
            lemma_blocks_of_unpacked(nodes0@, l0);
            lemma_blocks_of_unpacked(nodes1@, l1);
            lemma_pow2_mono((i + 1) as nat, n as nat);
        }
        let cw_i = compute_prefix_cw(expander, i, &nodes0, &nodes1, prep0, prep1);

        let next0 = next_level_prefix(expander, &nodes0, &cw_i);
        let next1 = next_level_prefix(expander, &nodes1, &cw_i);
        prefix_cws.push(cw_i);
        proof {
            let cws2 = prefix_cws@;
            assert forall|j: nat| j <= i implies #[trigger] level_blocks(expander, root0@, cws2, j)
                == level_blocks(expander, root0@, cws, j) && level_blocks(expander, root1@, cws2, j)
                == level_blocks(expander, root1@, cws, j) by {
                lemma_level_blocks_prefix(expander, root0@, cws2, cws, j);
                lemma_level_blocks_prefix(expander, root1@, cws2, cws, j);
            }
            assert(cws2[i as int] == cw_i);
            assert(level_blocks(expander, root0@, cws2, i as nat) == l0);
            assert(level_blocks(expander, root1@, cws2, i as nat) == l1);
            let m0 = level_blocks(expander, root0@, cws2, (i + 1) as nat);
            let m1 = level_blocks(expander, root1@, cws2, (i + 1) as nat);
            assert(m0 == expand_level(expander, l0, cw_i.0@));
            assert(m1 == expand_level(expander, l1, cw_i.0@));
            assert forall|k: int| 0 <= k < pow2_nat((i + 1) as nat) implies (#[trigger] next0@[k]).unpacks(
                m0[k],
            ) by {
                let j = k / 2;
                assert(nodes0@[j].block_spec() == l0[j]);
                if k % 2 == 0 {
                    assert(k == 2 * j);
                } else {
                    assert(k == 2 * j + 1);
                }
            }
            assert forall|k: int| 0 <= k < pow2_nat((i + 1) as nat) implies (#[trigger] next1@[k]).unpacks(
                m1[k],
            ) by {
                let j = k / 2;
                assert(nodes1@[j].block_spec() == l1[j]);
                if k % 2 == 0 {
                    assert(k == 2 * j);
                } else {
                    assert(k == 2 * j + 1);
                }
            }
        }
        nodes0 = next0;
        nodes1 = next1;
        i = i + 1;
    }

    // Structured correction word CW_n (last level)
    let alpha_n = alpha_bits[n - 1];
    let ghost cws = prefix_cws@;
    let ghost q0 = level_blocks(expander, root0@, cws, (n - 1) as nat);
    let ghost q1 = level_blocks(expander, root1@, cws, (n - 1) as nat);
    proof {
        lemma_level_blocks_len(expander, root0@, cws, (n - 1) as nat);
        lemma_level_blocks_len(expander, root1@, cws, (n - 1) as nat);
        lemma_blocks_of_unpacked(nodes0@, q0);
        lemma_blocks_of_unpacked(nodes1@, q1);
        lemma_pow2_mono((n - 1) as nat, n as nat);
    }
    let last_cw = compute_last_cw(expander, &nodes0, &nodes1, alpha_n);

    let leaves0 = next_level_last(expander, &nodes0, &last_cw, alpha_n);
    let leaves1 = next_level_last(expander, &nodes1, &last_cw, alpha_n);
    proof {
        let f0 = leaf_level(expander, q0, last_cw);
        let f1 = leaf_level(expander, q1, last_cw);
        assert forall|k: int| 0 <= k < f0.len() implies #[trigger] node_seeds(leaves0@)[k]
            == seeds_of(f0)[k] by {
            let j = k / 2;
            assert(nodes0@[j].block_spec() == q0[j]);
            if k % 2 == 0 {
                assert(k == 2 * j);
            } else {
                assert(k == 2 * j + 1);
            }
        }
        assert forall|k: int| 0 <= k < f1.len() implies #[trigger] node_seeds(leaves1@)[k]
            == seeds_of(f1)[k] by {
            let j = k / 2;
            assert(nodes1@[j].block_spec() == q1[j]);
            if k % 2 == 0 {
                assert(k == 2 * j);
            } else {
                assert(k == 2 * j + 1);
            }
        }
        assert(node_seeds(leaves0@) =~= seeds_of(f0));
        assert(node_seeds(leaves1@) =~= seeds_of(f1));
    }

    // CW_{n+1} (binary field): Σ_j ConvertR(s_n^j) over both parties, plus β.
    let out_cw = compute_output_cw_binary::<R>(&leaves0, &leaves1, beta);

    // Assemble keys
    let key0 = DpfKey {
        root: Seed(root0),
        prefix_cws: prefix_cws.clone(),
        last_cw: last_cw,
        out_cw: out_cw.duplicate(),
    };
    let key1 = DpfKey { root: Seed(root1), prefix_cws, last_cw, out_cw };
    proof {
        assert(key0.prefix_cws@ =~= key1.prefix_cws@);
    }
    DpfKeyPair { key0, key1 }
}


/// Π_DPF's key pair as computed from the COT oracles' offsets Δ'₀, Δ'₁,
/// the batches `b0`, `b1` they handed out, and the shared random block W:
/// the Π_PREP outputs of those batches, then the trees and correction
/// words built from them.
pub open spec fn binary_keys_from_draws<E: SeedExpander, R: DpfRange>(
    ex: &E,
    alpha: Seq<bool>,
    beta: R,
    d0: Seq<u8>,
    d1: Seq<u8>,
    b0: CotBatch,
    b1: CotBatch,
    w: Seq<u8>,
    k0: DpfKey<R>,
    k1: DpfKey<R>,
) -> bool {
    exists|p0: PrepOutput, p1: PrepOutput|
        #![trigger binary_keys_from(ex, p0, p1, w, alpha, beta, k0, k1)]
        prep_outputs_from(alpha, d0, d1, b0, b1, p0, p1) && binary_keys_from(
            ex,
            p0,
            p1,
            w,
            alpha,
            beta,
            k0,
            k1,
        )
}

/// Run the binary-field variant of Π_DPF.
///
/// * `expander` — the keyed hash H_S (shared/public)
/// * `cot0`, `cot1` — COT oracles with P₀ resp. P₁ as sender
/// * `rand` — shared coin-tossing oracle F_Rand
/// * `alpha_bits` — the full secret point α in MSB-first bit form (length n)
/// * `beta` — the non-zero output value β ∈ R
///
/// In a real two-party setting `alpha_bits` would be secret-shared; here
/// the whole α is passed and Π_PREP derives the correlation internally.
pub fn gen_binary<R, E, C, G>(
    expander: &E,
    cot0: &mut C,
    cot1: &mut C,
    rand: &mut G,
    alpha_bits: &[bool],
    beta: R,
) -> (pair: DpfKeyPair<R>) where R: DpfRange, E: SeedExpander, C: CotOracle, G: RandOracle
    requires
        alpha_bits@.len() >= 1,
        pow2_nat(alpha_bits@.len()) <= usize::MAX,
    ensures
        final(cot0).delta_spec() == old(cot0).delta_spec(),
        final(cot1).delta_spec() == old(cot1).delta_spec(),
        // each COT oracle is asked once, for n = |α| tuples; F_Rand once
        final(cot0).extensions() == old(cot0).extensions().push(
            (alpha_bits@.len(), final(cot0).extensions().last().1),
        ),
        final(cot1).extensions() == old(cot1).extensions().push(
            (alpha_bits@.len(), final(cot1).extensions().last().1),
        ),
        final(rand).drawn() == old(rand).drawn().push(final(rand).drawn().last()),
        // the roots are ⟨Δ⟩_b ⊕ W for the block W that F_Rand handed out
        pair.key0.root.0@ == xor_spec(
            delta_share0_spec(old(cot0).delta_spec(), old(cot1).delta_spec()),
            final(rand).drawn().last(),
        ),
        pair.key1.root.0@ == xor_spec(
            delta_share1_spec(old(cot0).delta_spec(), old(cot1).delta_spec()),
            final(rand).drawn().last(),
        ),
        binary_keys_from_draws(
            expander,
            alpha_bits@,
            beta,
            old(cot0).delta_spec(),
            old(cot1).delta_spec(),
            final(cot0).extensions().last().1,
            final(cot1).extensions().last().1,
            final(rand).drawn().last(),
            pair.key0,
            pair.key1,
        ),
        binary_pair_conditions(
            expander,
            alpha_bits@,
            beta,
            xor_spec(
                delta_share0_spec(old(cot0).delta_spec(), old(cot1).delta_spec()),
                delta_share1_spec(old(cot0).delta_spec(), old(cot1).delta_spec()),
            ),
            pair.key0,
            pair.key1,
        ),
{
    // Step 1: Π_PREP
    let (prep0, prep1) = run_prep(alpha_bits, cot0, cot1);

    // Step 2: sample shared randomness W from F_Rand
    let w = rand.sample_block();

    // Steps 3-6: expand the trees, derive the correction words, assemble keys
    let pair = gen_binary_from_prep(expander, &prep0, &prep1, w, alpha_bits, beta);
    proof {
        lemma_binary_keys_on_path(
            expander,
            prep0,
            prep1,
            w@,
            alpha_bits@,
            beta,
            pair.key0,
            pair.key1,
        );
        assert(binary_keys_from(
            expander,
            prep0,
            prep1,
            w@,
            alpha_bits@,
            beta,
            pair.key0,
            pair.key1,
        ));
    }
    pair
}

/// What Π_DPF's key pair satisfies whatever the oracles returned: the roots
/// differ by Δ (LSB 1), the correction words are the ones the on-path
/// nodes call for, and CW_{n+1} adds β to the ConvertR-sums of both
/// parties' whole leaf levels.
pub open spec fn binary_pair_conditions<E: SeedExpander, R: DpfRange>(
    ex: &E,
    alpha: Seq<bool>,
    beta: R,
    delta: Seq<u8>,
    k0: DpfKey<R>,
    k1: DpfKey<R>,
) -> bool {
    let n = alpha.len();
    let cws = k0.prefix_cws@;
    let m = (n - 1) as nat;
    let g0 = on_path_node(ex, k0, alpha, m);
    let g1 = on_path_node(ex, k1, alpha, m);
    let q0 = level_blocks(ex, k0.root.0@, cws, m);
    let q1 = level_blocks(ex, k1.root.0@, cws, m);
    &&& n >= 1
    &&& delta.len() == 16
    &&& lsb_spec(delta)
    &&& xor_spec(k0.root.0@, k1.root.0@) == delta
    &&& k1.prefix_cws@ == cws
    &&& k1.last_cw == k0.last_cw
    &&& k1.out_cw == k0.out_cw
    &&& cws.len() == n - 1
    &&& forall|i: int|
        #![trigger cws[i]]
        0 <= i < n - 1 ==> cws[i].0@ == prefix_cw_spec(
            ex,
            on_path_node(ex, k0, alpha, i as nat),
            on_path_node(ex, k1, alpha, i as nat),
            alpha[i],
            delta,
        )
    &&& last_cw_ok(ex, g0, g1, alpha[n - 1], k0.last_cw)
    &&& k0.out_cw == convert_sum::<R>(seeds_of(leaf_level(ex, q0, k0.last_cw))).plus_spec(
        convert_sum::<R>(seeds_of(leaf_level(ex, q1, k0.last_cw))),
    ).plus_spec(beta)
}

/// Byte-level view of a level's correction word.
proof fn lemma_level_cw_byte(
    x0: u8,
    x1: u8,
    h: u8,
    d0: u8,
    d1: u8,
    k0: u8,
    m0: u8,
    k1: u8,
    m1: u8,
    a: bool,
)
    by (bit_vector)
    requires
        x0 ^ x1 == h,
        (k0 ^ m0) ^ (k1 ^ m1) == (if a {
            d0 ^ d1
        } else {
            0u8
        }),
    ensures
        (((x0 ^ d0) ^ k0) ^ m0) ^ (((x1 ^ d1) ^ k1) ^ m1) == (if a {
            h
        } else {
            h ^ (d0 ^ d1)
        }),
{
}

/// A level's correction word, computed from two levels that agree except
/// at index a and from correlated Π_PREP values, is the on-path one.
proof fn lemma_level_cw_matches<E: SeedExpander>(
    ex: &E,
    p0: PrepOutput,
    p1: PrepOutput,
    l0: Seq<Seq<u8>>,
    l1: Seq<Seq<u8>>,
    a: int,
    alpha_j: bool,
    jj: int,
)
    requires
        l0.len() == l1.len(),
        0 <= a < l0.len(),
        forall|j: int| 0 <= j < l0.len() && j != a ==> #[trigger] l0[j] == l1[j],
        xor_spec(
            xor_spec(p0.k_vals@[jj]@, p0.m_vals@[jj]@),
            xor_spec(p1.k_vals@[jj]@, p1.m_vals@[jj]@),
        ) == (if alpha_j {
            xor_spec(p0.delta_share@, p1.delta_share@)
        } else {
            zero_block()
        }),
    ensures
        level_cw_spec(ex, l0, l1, p0, p1, jj) == prefix_cw_spec(
            ex,
            l0[a],
            l1[a],
            alpha_j,
            xor_spec(p0.delta_share@, p1.delta_share@),
        ),
{
    let delta = xor_spec(p0.delta_share@, p1.delta_share@);
    let hs0 = hashes_of(ex, l0);
    let hs1 = hashes_of(ex, l1);
    lemma_xor_all_one_diff(hs0, hs1, a);
    let x0 = xor_all(hs0);
    let x1 = xor_all(hs1);
    let h = xor_spec(ex.hash_spec(l0[a]), ex.hash_spec(l1[a]));
    let km = xor_spec(
        xor_spec(p0.k_vals@[jj]@, p0.m_vals@[jj]@),
        xor_spec(p1.k_vals@[jj]@, p1.m_vals@[jj]@),
    );
    reveal(level_cw_spec);
    let lhs = level_cw_spec(ex, l0, l1, p0, p1, jj);
    let rhs = prefix_cw_spec(ex, l0[a], l1[a], alpha_j, delta);
    assert forall|b: int| 0 <= b < 16 implies #[trigger] lhs[b] == rhs[b] by {
        assert(xor_spec(x0, x1)[b] == h[b]);
        assert(km[b] == (if alpha_j {
            delta[b]
        } else {
            0u8
        }));
        lemma_level_cw_byte(
            x0[b],
            x1[b],
            h[b],
            p0.delta_share@[b],
            p1.delta_share@[b],
            p0.k_vals@[jj]@[b],
            p0.m_vals@[jj]@[b],
            p1.k_vals@[jj]@[b],
            p1.m_vals@[jj]@[b],
            alpha_j,
        );
    }
    assert(lhs =~= rhs);
}

/// Π_DPF's correction words for levels below i are the on-path ones.
proof fn lemma_binary_cws_on_path<E: SeedExpander>(
    ex: &E,
    p0: PrepOutput,
    p1: PrepOutput,
    r0: Seq<u8>,
    r1: Seq<u8>,
    cws: Seq<PrefixCw>,
    alpha: Seq<bool>,
    i: nat,
)
    requires
        r0.len() == 16,
        r1.len() == 16,
        xor_spec(r0, r1) == xor_spec(p0.delta_share@, p1.delta_share@),
        i <= cws.len(),
        cws.len() < alpha.len(),
        forall|k: int|
            #![trigger cws[k]]
            0 <= k < cws.len() ==> cws[k].0@ == level_cw_spec(
                ex,
                level_blocks(ex, r0, cws, k as nat),
                level_blocks(ex, r1, cws, k as nat),
                p0,
                p1,
                k,
            ),
        prep_correlated(alpha, p0, p1),
    ensures
        forall|k: int|
            #![trigger cws[k]]
            0 <= k < i ==> cws[k].0@ == prefix_cw_spec(
                ex,
                path_node(ex, r0, cws, alpha, k as nat),
                path_node(ex, r1, cws, alpha, k as nat),
                alpha[k],
                xor_spec(p0.delta_share@, p1.delta_share@),
            ),
    decreases i,
{
    if i > 0 {
        let j = (i - 1) as nat;
        lemma_binary_cws_on_path(ex, p0, p1, r0, r1, cws, alpha, j);
        let jj = j as int;
        assert(cws[jj].0@ == level_cw_spec(
            ex,
            level_blocks(ex, r0, cws, j),
            level_blocks(ex, r1, cws, j),
            p0,
            p1,
            jj,
        ));
        assert(xor_spec(
            xor_spec(p0.k_vals@[jj]@, p0.m_vals@[jj]@),
            xor_spec(p1.k_vals@[jj]@, p1.m_vals@[jj]@),
        ) == (if alpha[jj] {
            xor_spec(p0.delta_share@, p1.delta_share@)
        } else {
            zero_block()
        }));
        lemma_binary_cw_step(ex, p0, p1, r0, r1, cws, alpha, j);
    }
}

/// One level of `lemma_binary_cws_on_path`.
proof fn lemma_binary_cw_step<E: SeedExpander>(
    ex: &E,
    p0: PrepOutput,
    p1: PrepOutput,
    r0: Seq<u8>,
    r1: Seq<u8>,
    cws: Seq<PrefixCw>,
    alpha: Seq<bool>,
    j: nat,
)
    requires
        r0.len() == 16,
        r1.len() == 16,
        xor_spec(r0, r1) == xor_spec(p0.delta_share@, p1.delta_share@),
        lsb_spec(xor_spec(p0.delta_share@, p1.delta_share@)),
        j < cws.len(),
        cws.len() < alpha.len(),
        forall|k: int|
            #![trigger cws[k]]
            0 <= k < j ==> cws[k].0@ == prefix_cw_spec(
                ex,
                path_node(ex, r0, cws, alpha, k as nat),
                path_node(ex, r1, cws, alpha, k as nat),
                alpha[k],
                xor_spec(p0.delta_share@, p1.delta_share@),
            ),
        cws[j as int].0@ == level_cw_spec(
            ex,
            level_blocks(ex, r0, cws, j),
            level_blocks(ex, r1, cws, j),
            p0,
            p1,
            j as int,
        ),
        xor_spec(
            xor_spec(p0.k_vals@[j as int]@, p0.m_vals@[j as int]@),
            xor_spec(p1.k_vals@[j as int]@, p1.m_vals@[j as int]@),
        ) == (if alpha[j as int] {
            xor_spec(p0.delta_share@, p1.delta_share@)
        } else {
            zero_block()
        }),
    ensures
        cws[j as int].0@ == prefix_cw_spec(
            ex,
            path_node(ex, r0, cws, alpha, j),
            path_node(ex, r1, cws, alpha, j),
            alpha[j as int],
            xor_spec(p0.delta_share@, p1.delta_share@),
        ),
{
    let delta = xor_spec(p0.delta_share@, p1.delta_share@);
    lemma_level_structure(ex, r0, r1, cws, alpha, delta, j);
    let l0 = level_blocks(ex, r0, cws, j);
    let l1 = level_blocks(ex, r1, cws, j);
    let a = path_index(alpha, j);
    lemma_level_cw_matches(ex, p0, p1, l0, l1, a, alpha[j as int], j as int);
}

/// Π_DPF's key pair, computed from correlated Π_PREP outputs, satisfies
/// `binary_pair_conditions` with Δ = ⟨Δ⟩₀ ⊕ ⟨Δ⟩₁, whatever W is.
pub proof fn lemma_binary_keys_on_path<E: SeedExpander, R: DpfRange>(
    ex: &E,
    p0: PrepOutput,
    p1: PrepOutput,
    w: Seq<u8>,
    alpha: Seq<bool>,
    beta: R,
    k0: DpfKey<R>,
    k1: DpfKey<R>,
)
    requires
        alpha.len() >= 1,
        binary_keys_from(ex, p0, p1, w, alpha, beta, k0, k1),
        prep_correlated(alpha, p0, p1),
    ensures
        binary_pair_conditions(
            ex,
            alpha,
            beta,
            xor_spec(p0.delta_share@, p1.delta_share@),
            k0,
            k1,
        ),
{
    let n = alpha.len();
    let m = (n - 1) as nat;
    let cws = k0.prefix_cws@;
    let r0 = k0.root.0@;
    let r1 = k1.root.0@;
    let delta = xor_spec(p0.delta_share@, p1.delta_share@);
    crate::bits::lemma_xor_common(p0.delta_share@, p1.delta_share@, w);
    lemma_binary_cws_on_path(ex, p0, p1, r0, r1, cws, alpha, m);
    lemma_level_structure(ex, r0, r1, cws, alpha, delta, m);
    let q0 = level_blocks(ex, r0, cws, m);
    let q1 = level_blocks(ex, r1, cws, m);
    let a = path_index(alpha, m);
    let g0 = on_path_node(ex, k0, alpha, m);
    let g1 = on_path_node(ex, k1, alpha, m);
    let an = alpha[n - 1];
    let cw = k0.last_cw;
    lemma_xor_all_one_diff(highs_at(ex, q0, !an), highs_at(ex, q1, !an), a);
    lemma_parity_one_diff(lows_at(ex, q0, false), lows_at(ex, q1, false), a);
    lemma_parity_one_diff(lows_at(ex, q0, true), lows_at(ex, q1, true), a);
    assert(last_cw_ok(ex, g0, g1, an, cw));
}

/// Algebra of the binary output word: with x + x = 0 for all x, and tags
/// t0 ≠ t1, the two shares add up to β.
proof fn lemma_binary_out_algebra<R: DpfRange>(c0: R, c1: R, beta: R, t0: bool)
    requires
        forall|x: R| #[trigger] x.plus_spec(x) == R::zero_spec(),
    ensures
        ({
            let out = c0.plus_spec(c1).plus_spec(beta);
            let z = R::zero_spec();
            let y0 = c0.plus_spec(if t0 { out } else { z });
            let y1 = c1.plus_spec(if !t0 { out } else { z });
            y0.plus_spec(y1.negate_spec()) == beta
        }),
{
    let z = R::zero_spec();
    let s = c0.plus_spec(c1);
    let out = s.plus_spec(beta);
    let y0 = c0.plus_spec(if t0 { out } else { z });
    let y1 = c1.plus_spec(if !t0 { out } else { z });
    // negation is the identity: -y = -y + (y + y) = (-y + y) + y = y
    let ny = y1.negate_spec();
    R::lemma_group_laws(ny, y1, y1);
    R::lemma_group_laws(y1, ny, z);
    R::lemma_group_laws(ny, z, z);
    R::lemma_group_laws(z, y1, z);
    R::lemma_group_laws(y1, z, z);
    assert(ny == y1);
    R::lemma_group_laws(c0, z, z);
    R::lemma_group_laws(c1, z, z);
    R::lemma_group_laws(s, beta, z);
    R::lemma_group_laws(s, s, beta);
    R::lemma_group_laws(z, beta, z);
    R::lemma_group_laws(beta, z, z);
    assert(s.plus_spec(s) == z);
    if t0 {
        // (c0 + out) + c1 == (c0 + c1) + out
        R::lemma_group_laws(c0, out, c1);
        R::lemma_group_laws(out, c1, z);
        R::lemma_group_laws(c0, c1, out);
    } else {
        // c0 + (c1 + out) == (c0 + c1) + out
        R::lemma_group_laws(c0, c1, out);
    }
}

/// Correctness of Π_DPF's keys over a range where every element is its own
/// inverse (such as F₂): for every input x with as many bits as α,
/// Eval(0, k₀, x) + Eval(1, k₁, x) is β when x = α and zero otherwise.
pub proof fn lemma_gen_binary_correct<E: SeedExpander, R: DpfRange>(
    ex: &E,
    alpha: Seq<bool>,
    beta: R,
    delta: Seq<u8>,
    k0: DpfKey<R>,
    k1: DpfKey<R>,
    x: Seq<bool>,
)
    requires
        forall|y: R| #[trigger] y.plus_spec(y) == R::zero_spec(),
        binary_pair_conditions(ex, alpha, beta, delta, k0, k1),
        x.len() == alpha.len(),
    ensures
        eval_spec(false, ex, k0, x).plus_spec(eval_spec(true, ex, k1, x)) == (if x == alpha {
            beta
        } else {
            R::zero_spec()
        }),
{
    let n = alpha.len();
    let m = (n - 1) as nat;
    let cws = k0.prefix_cws@;
    let r0 = k0.root.0@;
    let r1 = k1.root.0@;
    crate::bits::lemma_xor_lsb_high(r0, r1);
    lemma_level_structure(ex, r0, r1, cws, alpha, delta, m);
    let q0 = level_blocks(ex, r0, cws, m);
    let q1 = level_blocks(ex, r1, cws, m);
    let b = path_index(alpha, m);
    let an = alpha[n - 1];
    let cw = k0.last_cw;
    lemma_leaf_level_structure(ex, q0, q1, b, delta, an, cw);
    let f0 = leaf_level(ex, q0, cw);
    let f1 = leaf_level(ex, q1, cw);
    let a = 2 * b + (if an {
        1int
    } else {
        0int
    });
    let s0 = seeds_of(f0);
    let s1 = seeds_of(f1);
    lemma_convert_sum_one_diff::<R>(s0, s1, a);
    let l0 = f0[a];
    let l1 = f1[a];
    let c0 = R::convert_spec(high_bits_spec(l0));
    let c1 = R::convert_spec(high_bits_spec(l1));
    lemma_binary_out_algebra(c0, c1, beta, lsb_spec(l0));
    assert(output_share(false, l0, k0.out_cw).plus_spec(output_share(true, l1, k0.out_cw))
        == beta);
    assert(on_path_conditions(ex, alpha, beta, delta, k0, k1));
    lemma_dpf_correct(ex, alpha, beta, delta, k0, k1, x);
}


/// Correctness of Π_DPF's keys over the points below 2^n, in a range where
/// every element is its own inverse: with α and x decomposed into n bits
/// (MSB first), Eval(0, k₀, x) + Eval(1, k₁, x) is β when x = α and zero
/// otherwise.
pub proof fn lemma_gen_binary_correct_at<E: SeedExpander, R: DpfRange>(
    ex: &E,
    n: nat,
    alpha: u128,
    x: u128,
    beta: R,
    delta: Seq<u8>,
    k0: DpfKey<R>,
    k1: DpfKey<R>,
)
    requires
        forall|y: R| #[trigger] y.plus_spec(y) == R::zero_spec(),
        1 <= n <= 128,
        alpha < pow2(n),
        x < pow2(n),
        binary_pair_conditions(ex, msb_bits(alpha, n), beta, delta, k0, k1),
    ensures
        eval_spec(false, ex, k0, msb_bits(x, n)).plus_spec(eval_spec(true, ex, k1, msb_bits(x, n)))
            == (if x == alpha {
            beta
        } else {
            R::zero_spec()
        }),
{
    lemma_gen_binary_correct(ex, msb_bits(alpha, n), beta, delta, k0, k1, msb_bits(x, n));
    if msb_bits(x, n) == msb_bits(alpha, n) {
        lemma_msb_bits_injective(x, alpha, n);
    }
}

} // verus!
