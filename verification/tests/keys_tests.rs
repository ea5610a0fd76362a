use authenticated_tensor_garbling::block::Block;
use authenticated_tensor_garbling::keys::Key;
use rand::SeedableRng;
use rand_chacha::ChaCha12Rng;

#[test]
fn test_key_new_clears_lsb_when_set() {
    let b = Block::new([0xFF; 16]);
    assert!(b.lsb());
    let k = Key::new(b);
    assert!(!k.as_block().lsb());
}

#[test]
fn test_key_new_idempotent_when_already_cleared() {
    let mut b = Block::new([0xFF; 16]);
    b.set_lsb(false);
    let k = Key::new(b);
    assert!(!k.as_block().lsb());
}

#[test]
fn test_key_random_lsb_is_zero() {
    let mut rng = ChaCha12Rng::seed_from_u64(0xC0FFEE);
    for _ in 0..64 {
        let k = Key::random(&mut rng);
        assert!(!k.as_block().lsb());
    }
}

#[test]
fn test_key_from_block_preserves_lsb_for_backward_compat() {
    let mut b = Block::new([0xFF; 16]);
    b.set_lsb(true);
    let k = Key::from(b);
    assert!(k.as_block().lsb());
}
