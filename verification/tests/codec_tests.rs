//! The integer block codec, held against the streaming variable-byte
//! reference encoder: round trips, strict byte accounting, and corrupt
//! blocks.

use echtvar::EchtError;
use echtvar::svb::{decode_block, svb_decode};

use stream_vbyte::encode::encode;
use stream_vbyte::scalar::Scalar;

fn svb_bytes(nums: &[u32]) -> Vec<u8> {
    let mut out = vec![0u8; nums.len() * 5 + 16];
    let n = encode::<Scalar>(nums, &mut out);
    out.truncate(n);
    out
}

fn block_bytes(nums: &[u32]) -> Vec<u8> {
    let mut b = (nums.len() as u32).to_le_bytes().to_vec();
    b.extend_from_slice(&svb_bytes(nums));
    b
}

#[test]
fn round_trip_simple() {
    let nums: Vec<u32> = vec![0, 1, 2, 3, 4, 300, 70000, 16777216, u32::MAX];
    let decoded = decode_block(&block_bytes(&nums)).unwrap();
    assert_eq!(decoded, nums);
}

#[test]
fn round_trip_all_leftover_sizes() {
    // Counts 0 through 9 cover empty input, partial quads of every
    // size, and complete quads.
    for count in 0..10usize {
        let nums: Vec<u32> = (0..count as u32).map(|i| i.wrapping_mul(2654435761) >> (i % 20)).collect();
        let decoded = decode_block(&block_bytes(&nums)).unwrap();
        assert_eq!(decoded, nums, "count {}", count);
    }
}

#[test]
fn declared_count_always_matched() {
    let nums: Vec<u32> = (0..46881u32).collect();
    let decoded = decode_block(&block_bytes(&nums)).unwrap();
    assert_eq!(decoded.len(), 46881);
    assert_eq!(decoded, nums);
}

#[test]
fn agrees_with_reference_decoder() {
    let nums: Vec<u32> = (0..1000u32).map(|i| i.wrapping_mul(2246822519).rotate_left(i % 32)).collect();
    let payload = svb_bytes(&nums);

    let mut reference = vec![0u32; nums.len()];
    let consumed = stream_vbyte::decode::decode::<Scalar>(&payload, nums.len(), &mut reference);
    assert_eq!(consumed, payload.len());
    assert_eq!(reference, nums);

    let (ours, ours_consumed) = svb_decode(&payload, nums.len()).unwrap();
    assert_eq!(ours, reference);
    assert_eq!(ours_consumed, consumed);
}

#[test]
fn truncated_tail_is_corrupt() {
    let nums: Vec<u32> = vec![7, 300, 9, 70000, 12];
    let mut b = block_bytes(&nums);
    b.pop();
    assert_eq!(decode_block(&b), Err(EchtError::CorruptBlock));
}

#[test]
fn trailing_garbage_is_corrupt() {
    let nums: Vec<u32> = vec![7, 300, 9, 70000, 12];
    let mut b = block_bytes(&nums);
    b.push(0);
    assert_eq!(decode_block(&b), Err(EchtError::CorruptBlock));
}

#[test]
fn overstated_count_is_corrupt() {
    let nums: Vec<u32> = vec![1, 2, 3, 4, 5];
    let mut b = block_bytes(&nums);
    b[0..4].copy_from_slice(&6u32.to_le_bytes());
    assert_eq!(decode_block(&b), Err(EchtError::CorruptBlock));
}

#[test]
fn understated_count_is_corrupt() {
    let nums: Vec<u32> = vec![1, 2, 3, 4, 5];
    let mut b = block_bytes(&nums);
    b[0..4].copy_from_slice(&4u32.to_le_bytes());
    assert_eq!(decode_block(&b), Err(EchtError::CorruptBlock));
}

#[test]
fn empty_block_decodes() {
    let b = block_bytes(&[]);
    assert_eq!(b.len(), 4);
    assert_eq!(decode_block(&b).unwrap(), Vec::<u32>::new());
}

#[test]
fn short_header_is_corrupt() {
    assert_eq!(decode_block(&[1, 0]), Err(EchtError::CorruptBlock));
}
