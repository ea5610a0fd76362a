use authenticated_tensor_garbling::bcot::IdealBCot;

#[test]
fn test_transfer_a_to_b_all_false() {
    let mut bcot = IdealBCot::new(42, 99);
    let choices = vec![false; 8];
    let out = bcot.transfer_a_to_b(&choices);
    for (i, &b) in choices.iter().enumerate() {
        let want_mac = out.sender_keys[i].auth(b, &bcot.delta_b);
        assert_eq!(out.receiver_macs[i], want_mac, "MAC mismatch at position {}", i);
        assert_eq!(out.receiver_macs[i].as_block(), out.sender_keys[i].as_block());
    }
}

#[test]
fn test_transfer_a_to_b_all_true() {
    let mut bcot = IdealBCot::new(42, 99);
    let choices = vec![true; 8];
    let out = bcot.transfer_a_to_b(&choices);
    for (i, &b) in choices.iter().enumerate() {
        let want_mac = out.sender_keys[i].auth(b, &bcot.delta_b);
        assert_eq!(out.receiver_macs[i], want_mac, "MAC mismatch at position {}", i);
        let expected_block = *out.sender_keys[i].as_block() ^ *bcot.delta_b.as_block();
        assert_eq!(*out.receiver_macs[i].as_block(), expected_block);
    }
}

#[test]
fn test_transfer_b_to_a_mixed() {
    let mut bcot = IdealBCot::new(42, 99);
    let choices = vec![false, true, false, true, true, false, true, false];
    let out = bcot.transfer_b_to_a(&choices);
    for (i, &b) in choices.iter().enumerate() {
        let want_mac = out.sender_keys[i].auth(b, &bcot.delta_a);
        assert_eq!(out.receiver_macs[i], want_mac, "MAC mismatch at position {} (choice={})", i, b);
    }
}

#[test]
fn test_auth_bit_shares_verify() {
    let mut bcot = IdealBCot::new(123, 456);
    let choices_a = vec![false, true, false, true];
    let choices_b = vec![true, false, true, false];
    let out_a = bcot.transfer_a_to_b(&choices_a);
    let out_b = bcot.transfer_b_to_a(&choices_b);
    let shares_a = IdealBCot::output_to_auth_bit_shares_a_holds_key(&out_a);
    for (i, share) in shares_a.iter().enumerate() {
        assert!(share.is_valid(&bcot.delta_b));
        assert_eq!(share.value, choices_a[i]);
    }
    let shares_b = IdealBCot::output_to_auth_bit_shares_a_holds_key(&out_b);
    for (i, share) in shares_b.iter().enumerate() {
        assert!(share.is_valid(&bcot.delta_a));
        assert_eq!(share.value, choices_b[i]);
    }
}

#[test]
fn test_key_lsb_is_zero() {
    let mut bcot = IdealBCot::new(7, 13);
    let choices = vec![false, true, false, true, false, true, false, true];
    let out_a = bcot.transfer_a_to_b(&choices);
    let out_b = bcot.transfer_b_to_a(&choices);
    for key in out_a.sender_keys.iter() {
        assert!(!key.as_block().lsb());
    }
    for key in out_b.sender_keys.iter() {
        assert!(!key.as_block().lsb());
    }
}

#[test]
fn test_stress_256_pairs() {
    let mut bcot = IdealBCot::new(999, 888);
    let choices: Vec<bool> = (0..256).map(|i| (i % 3) == 0).collect();
    let out_a = bcot.transfer_a_to_b(&choices);
    let out_b = bcot.transfer_b_to_a(&choices);
    assert_eq!(out_a.sender_keys.len(), 256);
    assert_eq!(out_a.receiver_macs.len(), 256);
    assert_eq!(out_b.sender_keys.len(), 256);
    assert_eq!(out_b.receiver_macs.len(), 256);
    for i in [0, 64, 128, 192, 255] {
        let b = choices[i];
        assert_eq!(out_a.receiver_macs[i], out_a.sender_keys[i].auth(b, &bcot.delta_b));
        assert_eq!(out_b.receiver_macs[i], out_b.sender_keys[i].auth(b, &bcot.delta_a));
    }
}

#[test]
fn bcot_keys_have_opposite_pointer_bits() {
    let bcot = IdealBCot::new(0, 1);
    assert!(!bcot.delta_a.as_block().lsb());
    assert!(bcot.delta_b.as_block().lsb());
    assert!((*bcot.delta_a.as_block() ^ *bcot.delta_b.as_block()).lsb());
}
