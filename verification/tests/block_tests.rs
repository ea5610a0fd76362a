use authenticated_tensor_garbling::block::Block;
use authenticated_tensor_garbling::aes::FixedKeyAes;
use authenticated_tensor_garbling::auth_eval::tweak_block;

#[test]
fn block_bytes_round_trip() {
    for v in [0u128, 1, 0x0102_0304_0506_0708_090a_0b0c_0d0e_0f10, u128::MAX, 1u128 << 127] {
        let b = Block::from_u128(v);
        assert_eq!(Block::new(b.to_bytes()), b);
        assert_eq!(b.to_bytes(), v.to_le_bytes());
    }
}

#[test]
fn block_new_reads_little_endian() {
    let mut bytes = [0u8; 16];
    bytes[0] = 0x01;
    bytes[15] = 0x80;
    assert_eq!(Block::new(bytes).to_u128(), (1u128 << 127) | 1);
}

#[test]
fn aes_encrypt_matches_the_fips_197_example() {
    let key: [u8; 16] = [0x00, 0x01, 0x02, 0x03, 0x04, 0x05, 0x06, 0x07, 0x08, 0x09, 0x0a, 0x0b, 0x0c, 0x0d, 0x0e, 0x0f];
    let pt: [u8; 16] = [0x00, 0x11, 0x22, 0x33, 0x44, 0x55, 0x66, 0x77, 0x88, 0x99, 0xaa, 0xbb, 0xcc, 0xdd, 0xee, 0xff];
    let ct: [u8; 16] = [0x69, 0xc4, 0xe0, 0xd8, 0x6a, 0x7b, 0x04, 0x30, 0xd8, 0xcd, 0xb7, 0x80, 0x70, 0xb4, 0xc5, 0x5a];
    let cipher = FixedKeyAes::with_key(u128::from_le_bytes(key));
    assert_eq!(cipher.encrypt(Block::new(pt)), Block::new(ct));
    let c = cipher.cr(Block::new(pt));
    assert_eq!(c, Block::new(ct) ^ Block::new(pt));
}

#[test]
fn gate_tweak_is_the_big_endian_count() {
    for g in [0u128, 1, 2, 255, 256, 0x0102_0304] {
        assert_eq!(tweak_block(g), Block::new(g.to_be_bytes()));
    }
    assert_eq!(tweak_block(1).to_u128(), 1u128 << 120);
}

#[test]
fn block_and_key_text_is_hex_of_the_bytes() {
    use_key_text();
}

fn use_key_text() {
    let b = Block::new([0x12, 0x34, 0x56, 0x78, 0x90, 0xAB, 0xCD, 0xEF, 0x00, 0x00, 0x00, 0x00, 0x00, 0x00, 0x00, 0x01]);
    assert_eq!(b.to_display_string(), "1234567890abcdef0000000000000001");
    let k = authenticated_tensor_garbling::keys::Key::from(b);
    assert_eq!(k.to_display_string(), b.to_display_string());
}
