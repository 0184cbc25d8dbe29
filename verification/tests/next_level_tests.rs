use half_tree_dpf::dpf::key::{LastCw, PrefixCw};
use half_tree_dpf::dpf::next_level::{next_level_last, next_level_prefix};
use half_tree_dpf::hash::{SeedExpander, XorExpander};
use half_tree_dpf::bits::{high_bits, lsb, xor_block};
use half_tree_dpf::seed::{Seed, SeedTag, Tag};

fn make_node(seed: [u8; 16], tag: bool) -> SeedTag {
    SeedTag { seed: Seed(seed), tag: Tag(tag) }
}

#[test]
fn prefix_level_doubles_count() {
    let exp = XorExpander::new([0u8; 16]);
    let nodes = vec![make_node([1u8; 16], false)];
    let cw = PrefixCw([0u8; 16]);
    let out = next_level_prefix(&exp, &nodes, &cw);
    assert_eq!(out.len(), 2);
}

#[test]
fn last_level_doubles_count() {
    let exp = XorExpander::new([0u8; 16]);
    let nodes = vec![make_node([1u8; 16], false)];
    let cw = LastCw { hcw: [0u8; 16], lcw0: false, lcw1: false };
    let out = next_level_last(&exp, &nodes, &cw, false);
    assert_eq!(out.len(), 2);
}

#[test]
fn prefix_level_children_follow_half_tree_rule() {
    let exp = XorExpander::new([0x24u8; 16]);
    let mut s = [0u8; 16];
    s[0] = 0x80;
    s[15] = 0x10;
    let mut cwb = [0u8; 16];
    cwb[7] = 0x99;
    cwb[15] = 0x01;
    let cw = PrefixCw(cwb);
    let nodes = vec![make_node(s, false), make_node(s, true)];
    let out = next_level_prefix(&exp, &nodes, &cw);
    assert_eq!(out.len(), 4);
    // Tag 0: left = H(block), right = H(block) ⊕ block.
    let b0 = nodes[0].to_block();
    let h0 = exp.hash(&b0);
    assert_eq!(out[0].to_block(), h0);
    assert_eq!(out[1].to_block(), xor_block(&h0, &b0));
    // Tag 1: both children also get the correction word.
    let b1 = nodes[1].to_block();
    let h1 = exp.hash(&b1);
    assert_eq!(out[2].to_block(), xor_block(&h1, &cwb));
    assert_eq!(out[3].to_block(), xor_block(&xor_block(&h1, &b1), &cwb));
    // Every child's seed has a clear LSB.
    for nd in &out {
        assert!(!lsb(&nd.seed.0));
    }
}

#[test]
fn last_level_children_follow_correction() {
    let exp = XorExpander::new([0x61u8; 16]);
    let s = [0x3cu8; 16];
    let mut hcw = [0u8; 16];
    hcw[2] = 0x42;
    let cw = LastCw { hcw, lcw0: true, lcw1: false };
    let node = make_node(high_bits(&s), true);
    let out = next_level_last(&exp, &[node.clone()], &cw, true);
    let b = node.to_block();
    let mut b1 = b;
    b1[15] ^= 1;
    let h0 = exp.hash(&b);
    let h1 = exp.hash(&b1);
    assert_eq!(out[0].seed.0, xor_block(&high_bits(&h0), &hcw));
    assert_eq!(out[0].tag.0, lsb(&h0) != true);
    assert_eq!(out[1].seed.0, xor_block(&high_bits(&h1), &hcw));
    assert_eq!(out[1].tag.0, lsb(&h1));
}

#[test]
fn last_level_ignores_the_path_bit() {
    let exp = XorExpander::new([0x19u8; 16]);
    let nodes = vec![
        make_node(high_bits(&[0x21u8; 16]), true),
        make_node(high_bits(&[0x8eu8; 16]), false),
    ];
    let cw = LastCw { hcw: [0x5au8; 16], lcw0: false, lcw1: true };
    let with_one = next_level_last(&exp, &nodes, &cw, true);
    let with_zero = next_level_last(&exp, &nodes, &cw, false);
    assert_eq!(with_one, with_zero);
    assert_eq!(with_one.len(), 4);
}
