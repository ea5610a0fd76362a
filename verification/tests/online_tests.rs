use authenticated_tensor_garbling::block::Block;
use authenticated_tensor_garbling::online::{block_check_zero, block_hash_check_zero};

#[test]
fn block_check_zero_passes_on_per_index_equality() {
    let blocks: Vec<Block> = (0..8).map(|i| Block::from([i as u8; 16])).collect();
    assert!(block_check_zero(&blocks, &blocks));
}

#[test]
fn block_check_zero_fails_on_any_mismatch() {
    let mut a: Vec<Block> = (0..4).map(|i| Block::from([i as u8; 16])).collect();
    let b = a.clone();
    let mut bytes: [u8; 16] = a[2].to_bytes();
    bytes[8] ^= 0x01;
    a[2] = Block::from(bytes);
    assert!(!block_check_zero(&a, &b));
}

#[test]
fn block_check_zero_fails_on_length_mismatch() {
    let a: Vec<Block> = (0..4).map(|i| Block::from([i as u8; 16])).collect();
    let b: Vec<Block> = (0..3).map(|i| Block::from([i as u8; 16])).collect();
    assert!(!block_check_zero(&a, &b));
}

#[test]
fn block_check_zero_passes_on_empty_slices() {
    assert!(block_check_zero(&[], &[]));
}

#[test]
fn block_hash_check_zero_matches_on_equal_inputs() {
    let blocks: Vec<Block> = (0..16).map(|i| Block::from([i as u8; 16])).collect();
    let h_a = block_hash_check_zero(&blocks);
    let h_b = block_hash_check_zero(&blocks);
    assert_eq!(h_a, h_b);
}

#[test]
fn block_hash_check_zero_differs_on_unequal_inputs() {
    let a: Vec<Block> = (0..4).map(|i| Block::from([i as u8; 16])).collect();
    let mut b = a.clone();
    let mut bytes: [u8; 16] = b[1].to_bytes();
    bytes[5] ^= 0x80;
    b[1] = Block::from(bytes);
    assert_ne!(block_hash_check_zero(&a), block_hash_check_zero(&b));
}

#[test]
fn block_hash_check_zero_empty_returns_zero_block() {
    assert_eq!(block_hash_check_zero(&[]), Block::default());
}
