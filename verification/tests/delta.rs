use ripsync::checksum::STRONG_LEN;
use ripsync::checksum::strong_hash;
use ripsync::delta::{
    apply, block_size_for, encode, encode_with_signature, BlockSig, Delta, Op, Signature, MAX_BLOCK, MIN_BLOCK,
};

fn roundtrip(old: &[u8], new: &[u8], block: Option<usize>) -> Delta {
    let d = encode(old, new, block);
    let rebuilt = apply(old, &d).expect("apply");
    assert_eq!(rebuilt, new, "roundtrip mismatch");
    d
}

#[test]
fn empty_old_empty_new() {
    let d = roundtrip(b"", b"", None);
    assert!(d.ops.is_empty());
}

#[test]
fn empty_old_some_new() {
    let d = roundtrip(b"", b"hello world", None);
    assert_eq!(d.ops, vec![Op::Literal(b"hello world".to_vec())]);
}

#[test]
fn some_old_empty_new() {
    let d = roundtrip(b"abcdef", b"", None);
    assert!(d.ops.is_empty());
}

#[test]
fn identical_is_all_copy_zero_literals() {
    let old: Vec<u8> = (0..5000u32).map(|i| (i % 251) as u8).collect();
    let d = roundtrip(&old, &old, Some(700));
    assert_eq!(d.literal_bytes(), 0, "expected zero literals");
    assert!(d.copy_ops() > 0);
    assert!(d.ops.iter().all(|o| matches!(o, Op::Copy(_))));
}

#[test]
fn completely_different_is_all_literal() {
    let old = vec![0u8; 4096];
    let new = vec![0xFFu8; 4096];
    let d = roundtrip(&old, &new, Some(700));
    assert_eq!(d.copy_ops(), 0, "expected no copies");
    assert_eq!(d.literal_bytes(), new.len());
}

#[test]
fn new_shorter_than_old() {
    let old: Vec<u8> = (0..3000u32).map(|i| (i % 97) as u8).collect();
    let new = &old[..1234];
    roundtrip(&old, new, Some(700));
}

#[test]
fn new_longer_than_old() {
    let old: Vec<u8> = (0..3000u32).map(|i| (i % 97) as u8).collect();
    let mut new = old.clone();
    new.extend(std::iter::repeat(0xAB).take(2000));
    let d = roundtrip(&old, &new, Some(700));
    assert!(d.copy_ops() > 0, "prefix should be copied");
}

#[test]
fn single_byte_change_middle() {
    let old: Vec<u8> = (0..8000u32).map(|i| (i % 211) as u8).collect();
    let mut new = old.clone();
    new[4000] ^= 0xFF;
    let d = roundtrip(&old, &new, Some(700));
    // Most blocks unchanged: copies dominate, few literal bytes.
    assert!(d.copy_ops() > 0);
    assert!(d.literal_bytes() < 2 * 700, "only the changed block should differ");
}

#[test]
fn insertion_at_front_shifts_everything() {
    // The rolling checksum re-syncs after a shift.
    let old: Vec<u8> = (0..8000u32).map(|i| (i % 197) as u8).collect();
    let mut new = vec![1u8, 2, 3, 4, 5];
    new.extend_from_slice(&old);
    let d = roundtrip(&old, &new, Some(700));
    assert!(d.copy_ops() > 0, "shifted blocks must still be found");
    // The 5 inserted bytes plus at most one partial block become literals.
    assert!(d.literal_bytes() <= 5 + 700);
}

#[test]
fn block_size_clamps() {
    assert_eq!(block_size_for(0), MIN_BLOCK);
    assert_eq!(block_size_for(100), MIN_BLOCK);
    assert_eq!(block_size_for(1_000_000), 1000);
    assert_eq!(block_size_for(usize::MAX), MAX_BLOCK);
}

#[test]
fn apply_rejects_out_of_range_copy() {
    let bad = Delta { block_size: 4, ops: vec![Op::Copy(999)] };
    assert!(apply(b"tiny", &bad).is_err());
}

#[test]
fn strong_len_is_16() {
    assert_eq!(STRONG_LEN, 16);
}

#[test]
fn block_size_is_the_square_root_in_range() {
    // 2000^2 = 4_000_000 <= 4_000_100 < 2001^2.
    assert_eq!(block_size_for(4_000_100), 2000);
    assert_eq!(block_size_for(490_000), 700);
    assert_eq!(block_size_for(490_001), 700);
    assert_eq!(block_size_for(491_401), 701);
}

#[test]
fn signature_cuts_blocks_with_a_short_tail() {
    let old: Vec<u8> = (0..2500u32).map(|i| (i % 13) as u8).collect();
    let sig = Signature::compute(&old, Some(1000));
    assert_eq!(sig.block_size, 1000);
    assert_eq!(sig.len(), 3);
    assert_eq!(sig.blocks[2].len, 500);
    assert!(!sig.is_empty());
    assert!(sig.is_scannable());
    let zero = Signature::compute(&old, Some(0));
    assert_eq!(zero.block_size, 1);
}

#[test]
fn encoding_against_a_signature_matches_encode() {
    let old: Vec<u8> = (0..5000u32).map(|i| (i % 31) as u8).collect();
    let mut new = old.clone();
    new[1234] = 0xEE;
    let sig = Signature::compute(&old, Some(700));
    let d = encode_with_signature(&sig, &new);
    assert_eq!(d, encode(&old, &new, Some(700)));
    assert_eq!(apply(&old, &d).unwrap(), new);
}

#[test]
fn apply_copies_a_short_last_block() {
    let d = Delta { block_size: 4, ops: vec![Op::Copy(1), Op::Literal(b"!".to_vec()), Op::Copy(0)] };
    assert_eq!(apply(b"abcdef", &d).unwrap(), b"ef!abcd".to_vec());
}

#[test]
fn unscannable_signature_gives_one_literal() {
    let sig = Signature {
        block_size: 0,
        blocks: vec![BlockSig { weak: 0, strong: strong_hash(b""), len: 0 }],
    };
    assert!(!sig.is_scannable());
    let d = encode_with_signature(&sig, b"x");
    assert_eq!(d.block_size, 0);
    assert_eq!(d.ops, vec![Op::Literal(b"x".to_vec())]);
    assert_eq!(apply(b"", &d).unwrap(), b"x".to_vec());
    assert!(encode_with_signature(&sig, b"").ops.is_empty());
}
