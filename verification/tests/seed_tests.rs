use half_tree_dpf::errors::DpfError;
use half_tree_dpf::seed::{Seed, SeedTag, Tag};

#[test]
fn seed_tag_block_round_trip() {
    let mut b = [0x3du8; 16];
    b[15] = 0x81;
    let st = SeedTag::from_block(b);
    assert_eq!(st.tag, Tag(true));
    let mut seed = b;
    seed[15] = 0x80;
    assert_eq!(st.seed, Seed(seed));
    assert_eq!(st.to_block(), b);
    // A node with a clear seed LSB survives packing and unpacking.
    assert_eq!(SeedTag::from_block(st.to_block()), st);
    let node = SeedTag { seed: Seed([0x10u8; 16]), tag: Tag(false) };
    assert_eq!(node.to_block(), [0x10u8; 16]);
    assert_eq!(SeedTag::from_block(node.to_block()), node);
}

#[test]
fn error_variants() {
    let e = DpfError::LengthMismatch { expected: 3, got: 4 };
    assert_eq!(e, DpfError::LengthMismatch { expected: 3, got: 4 });
    assert_ne!(DpfError::InvalidDomainDepth(0), DpfError::MalformedCorrectionWord);
    let r: half_tree_dpf::errors::Result<u8> = Err(DpfError::OracleFailure("cot"));
    assert!(r.is_err());
}
