use authenticated_tensor_garbling::block::Block;
use authenticated_tensor_garbling::delta::Delta;
use authenticated_tensor_garbling::sharing::{build_share, InputSharing};
use rand::SeedableRng;
use rand_chacha::ChaCha12Rng;

#[test]
fn test_build_share_key_lsb_is_zero() {
    let mut rng = ChaCha12Rng::seed_from_u64(7);
    let delta = Delta::random_gb(&mut rng);
    for bit in [false, true] {
        let share = build_share(&mut rng, bit, &delta);
        assert!(!share.key.as_block().lsb(), "build_share must clear Key LSB (bit={})", bit);
    }
}

#[test]
fn test_build_share_mac_invariant_holds() {
    let mut rng = ChaCha12Rng::seed_from_u64(11);
    let delta = Delta::random_gb(&mut rng);
    for bit in [false, true] {
        let share = build_share(&mut rng, bit, &delta);
        assert!(share.is_valid(&delta));
        share.verify(&delta);
    }
}

#[test]
fn test_input_sharing_shares_differ() {
    let a = Block::new([1u8; 16]);
    let b = Block::new([1u8; 16]);
    let c = Block::new([2u8; 16]);
    assert_eq!(InputSharing { gen_share: a, eval_share: b }.shares_differ(), false);
    assert_eq!(InputSharing { gen_share: a, eval_share: c }.shares_differ(), true);
}
