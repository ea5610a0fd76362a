use authenticated_tensor_garbling::bcot::IdealBCot;
use authenticated_tensor_garbling::block::Block;
use authenticated_tensor_garbling::leaky_tensor_pre::{LeakyTensorPre, LeakyTriple};
use authenticated_tensor_garbling::sharing::{cross_party_valid, AuthBitShare};

fn generate(seed: u64, n: usize, m: usize, cf: usize) -> (LeakyTriple, Block) {
    let bcot = IdealBCot::new(42, 99);
    let delta_xor = *bcot.delta_b.as_block() ^ *bcot.delta_a.as_block();
    let mut ltp = LeakyTensorPre::new(seed, n, m, cf, bcot);
    (ltp.generate(), delta_xor)
}

fn assert_product(triple: &LeakyTriple) {
    let (n, m) = (triple.n, triple.m);
    let x_full: Vec<bool> = (0..n).map(|i| triple.gb_x_shares[i].value ^ triple.ev_x_shares[i].value).collect();
    let y_full: Vec<bool> = (0..m).map(|j| triple.gb_y_shares[j].value ^ triple.ev_y_shares[j].value).collect();
    for j in 0..m {
        for i in 0..n {
            let k = j * n + i;
            let z_full = triple.gb_z_shares[k].value ^ triple.ev_z_shares[k].value;
            assert_eq!(z_full, x_full[i] & y_full[j], "product invariant at (i={}, j={})", i, j);
        }
    }
}

#[test]
fn test_leaky_triple_shape_field_access() {
    let bcot = IdealBCot::new(42, 99);
    let triple = LeakyTriple {
        n: 2,
        m: 3,
        gb_x_shares: vec![AuthBitShare::default(); 2],
        gb_y_shares: vec![AuthBitShare::default(); 3],
        gb_z_shares: vec![AuthBitShare::default(); 6],
        ev_x_shares: vec![AuthBitShare::default(); 2],
        ev_y_shares: vec![AuthBitShare::default(); 3],
        ev_z_shares: vec![AuthBitShare::default(); 6],
        delta_gb: bcot.delta_b,
        delta_ev: bcot.delta_a,
    };
    assert_eq!(triple.n, 2);
    assert_eq!(triple.m, 3);
    assert_eq!(triple.gb_x_shares.len(), 2);
    assert_eq!(triple.gb_y_shares.len(), 3);
    assert_eq!(triple.gb_z_shares.len(), 6);

    let (real, _) = generate(7, 2, 3, 2);
    assert_eq!(real.n, 2);
    assert_eq!(real.m, 3);
    assert_eq!(real.gb_x_shares.len(), 2);
    assert_eq!(real.gb_y_shares.len(), 3);
    assert_eq!(real.gb_z_shares.len(), 6);
    assert_eq!(real.ev_x_shares.len(), 2);
    assert_eq!(real.ev_y_shares.len(), 3);
    assert_eq!(real.ev_z_shares.len(), 6);
}

#[test]
fn test_correlated_randomness_dimensions() {
    for (seed, n, m) in [(0u64, 1, 1), (1, 4, 4), (2, 8, 3)] {
        let (triple, _) = generate(seed, n, m, 2);
        assert_eq!(triple.n, n);
        assert_eq!(triple.m, m);
        assert_eq!(triple.gb_x_shares.len(), n);
        assert_eq!(triple.ev_x_shares.len(), n);
        assert_eq!(triple.gb_y_shares.len(), m);
        assert_eq!(triple.ev_y_shares.len(), m);
        assert_eq!(triple.gb_z_shares.len(), n * m);
        assert_eq!(triple.ev_z_shares.len(), n * m);
    }
}

#[test]
fn test_c_a_c_b_xor_invariant() {
    let bcot = IdealBCot::new(42, 99);
    let delta_gb = bcot.delta_b;
    let delta_ev = bcot.delta_a;
    let mut ltp = LeakyTensorPre::new(5, 4, 4, 2, bcot);
    let triple = ltp.generate();
    let delta_xor_block = *delta_gb.as_block() ^ *delta_ev.as_block();
    for j in 0..4 {
        let g = &triple.gb_y_shares[j];
        let e = &triple.ev_y_shares[j];
        let y_full = g.value ^ e.value;
        let c_a = delta_gb.mul_bool(g.value) ^ *g.key.as_block() ^ *g.mac.as_block();
        let c_b = delta_ev.mul_bool(e.value) ^ *e.key.as_block() ^ *e.mac.as_block();
        let rhs = if y_full { delta_xor_block } else { Block::zero() };
        assert_eq!(c_a ^ c_b, rhs, "C_A xor C_B at j={}", j);
    }
}

#[test]
fn test_key_lsb_zero_all_shares() {
    let (triple, _) = generate(9, 4, 4, 2);
    for shares in [&triple.gb_x_shares, &triple.ev_x_shares, &triple.gb_y_shares, &triple.ev_y_shares,
        &triple.gb_z_shares, &triple.ev_z_shares] {
        for s in shares.iter() {
            assert!(!s.key.as_block().lsb());
        }
    }
}

#[test]
fn test_leaky_triple_mac_invariants() {
    let (triple, _) = generate(17, 4, 4, 2);
    for i in 0..4 {
        assert!(cross_party_valid(&triple.gb_x_shares[i], &triple.ev_x_shares[i], &triple.delta_gb, &triple.delta_ev));
    }
    for j in 0..4 {
        assert!(cross_party_valid(&triple.gb_y_shares[j], &triple.ev_y_shares[j], &triple.delta_gb, &triple.delta_ev));
    }
    for k in 0..16 {
        assert!(cross_party_valid(&triple.gb_z_shares[k], &triple.ev_z_shares[k], &triple.delta_gb, &triple.delta_ev));
    }
}

#[test]
fn test_leaky_triple_product_invariant() {
    for (seed, n, m) in [(21u64, 1, 1), (22, 2, 3), (23, 4, 4)] {
        let (triple, _) = generate(seed, n, m, 2);
        assert_product(&triple);
    }
}

#[test]
fn test_macro_outputs_xor_invariant() {
    let (t1, _) = generate(31, 4, 4, 2);
    let (t2, _) = generate(31, 4, 4, 2);
    for k in 0..16 {
        assert_eq!(t1.gb_z_shares[k].value, t2.gb_z_shares[k].value);
        assert_eq!(t1.ev_z_shares[k].value, t2.ev_z_shares[k].value);
        assert_eq!(t1.gb_z_shares[k].key.as_block(), t2.gb_z_shares[k].key.as_block());
        assert_eq!(t1.gb_z_shares[k].mac.as_block(), t2.gb_z_shares[k].mac.as_block());
    }
}

#[test]
fn test_d_extraction_and_z_assembly() {
    let (triple, _) = generate(41, 2, 2, 2);
    for k in 0..4 {
        assert!(cross_party_valid(&triple.gb_z_shares[k], &triple.ev_z_shares[k], &triple.delta_gb, &triple.delta_ev));
    }
}

#[test]
fn test_feq_passes_on_honest_run() {
    let _ = generate(53, 3, 5, 2);
}

#[test]
fn test_chunking_factor_varied_invariant() {
    for (seed, n, m, cf) in [(101u64, 4, 4, 1), (102, 8, 3, 2), (103, 8, 3, 4), (104, 8, 3, 3), (105, 4, 8, 8)] {
        let (triple, _) = generate(seed, n, m, cf);
        assert_product(&triple);
    }
}
