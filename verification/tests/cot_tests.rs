use half_tree_dpf::bits::{lsb, xor_block};
use half_tree_dpf::hybrid::cot::{CotOracle, IdealCot};
use half_tree_dpf::hybrid::rand::{IdealRand, RandOracle};

#[test]
fn cot_relation_holds() {
    let mut cot = IdealCot::new(42);
    let delta = cot.delta();
    let batch = cot.extend(16);

    for (k, tup) in batch.sender_keys.iter().zip(batch.receiver.iter()) {
        // M[r] = K[r] ⊕ r·Δ
        let expected = if tup.r { xor_block(k, &delta) } else { *k };
        assert_eq!(tup.m, expected);
    }
}

#[test]
fn cot_delta_has_lsb_one_and_is_stable() {
    for seed in [0u64, 7, 99] {
        let mut cot = IdealCot::new(seed);
        let d = cot.delta();
        assert!(lsb(&d));
        let _ = cot.extend(5);
        assert_eq!(cot.delta(), d);
    }
}

#[test]
fn cot_with_given_delta() {
    let mut delta = [0x10u8; 16];
    delta[15] = 0x03;
    let mut cot = IdealCot::new_with_delta(delta, 5);
    assert_eq!(cot.delta(), delta);
    let batch = cot.extend(8);
    assert_eq!(batch.sender_keys.len(), 8);
    assert_eq!(batch.receiver.len(), 8);
    for (k, tup) in batch.sender_keys.iter().zip(batch.receiver.iter()) {
        let expected = if tup.r { xor_block(k, &delta) } else { *k };
        assert_eq!(tup.m, expected);
    }
    assert_eq!(cot.extend(0).receiver.len(), 0);
}

#[test]
fn cot_same_seed_same_stream() {
    let mut a = IdealCot::new(3);
    let mut b = IdealCot::new(3);
    assert_eq!(a.delta(), b.delta());
    let x = a.extend(4);
    let y = b.extend(4);
    assert_eq!(x.sender_keys, y.sender_keys);
}

#[test]
fn rand_oracle_is_reproducible() {
    let mut a = IdealRand::new(11);
    let mut b = IdealRand::new(11);
    let x = a.sample_block();
    assert_eq!(x, b.sample_block());
    // Successive samples move along the stream.
    assert_ne!(x, a.sample_block());
}

#[test]
fn ideal_cot_delta_is_the_first_stream_block_with_lsb_set() {
    for seed in [0u64, 7, 12345] {
        let mut first = IdealRand::new(seed).sample_block();
        first[15] |= 1;
        assert_eq!(IdealCot::new(seed).delta(), first);
    }
}

#[test]
fn ideal_cot_keys_continue_the_stream_after_delta() {
    let mut rand = IdealRand::new(99);
    let _delta_block = rand.sample_block();
    let second = rand.sample_block();
    let mut cot = IdealCot::new(99);
    let batch = cot.extend(2);
    assert_eq!(batch.sender_keys[0], second);
    // The second key starts five words after the first (four key words
    // and one choice-bit word), so it is not the next 16-byte block.
    assert_ne!(batch.sender_keys[1], rand.sample_block());
}

#[test]
fn ideal_cot_with_given_delta_reads_the_stream_from_its_start() {
    let mut delta = [0x44u8; 16];
    delta[15] = 0x45;
    let mut cot = IdealCot::new_with_delta(delta, 2024);
    let batch = cot.extend(1);
    assert_eq!(batch.sender_keys[0], IdealRand::new(2024).sample_block());
}
