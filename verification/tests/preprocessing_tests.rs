use authenticated_tensor_garbling::auth_tensor_eval::AuthTensorEval;
use authenticated_tensor_garbling::auth_tensor_gen::AuthTensorGen;
use authenticated_tensor_garbling::block::Block;
use authenticated_tensor_garbling::preprocessing::{
    run_preprocessing, IdealPreprocessingBackend, TensorPreprocessing, UncompressedPreprocessingBackend,
};
use authenticated_tensor_garbling::sharing::verify_cross_party;

#[test]
fn test_run_preprocessing_dimensions() {
    let (gen_out, eval_out) = run_preprocessing(4, 4, 1);
    assert_eq!(gen_out.n, 4);
    assert_eq!(gen_out.m, 4);
    assert_eq!(gen_out.correlated_auth_bit_shares.len(), 16);
    assert_eq!(eval_out.correlated_auth_bit_shares.len(), 16);
}

#[test]
fn test_run_preprocessing_delta_lsb() {
    let (gen_out, _eval_out) = run_preprocessing(4, 4, 1);
    assert!(gen_out.delta_gb.as_block().lsb());
}

#[test]
fn test_run_preprocessing_feeds_online_phase() {
    let (fpre_gen, fpre_eval) = run_preprocessing(4, 4, 1);
    let _gb = AuthTensorGen::new_from_fpre_gen(fpre_gen);
    let _ev = AuthTensorEval::new_from_fpre_eval(fpre_eval);
}

#[test]
fn test_trait_dispatch_ideal() {
    let backend: &dyn TensorPreprocessing = &IdealPreprocessingBackend;
    let (gen_out, eval_out) = backend.run(4, 4, 1);
    assert_eq!(gen_out.n, 4);
    assert_eq!(gen_out.m, 4);
    assert_eq!(eval_out.n, 4);
    assert_eq!(eval_out.m, 4);
}

#[test]
fn test_trait_dispatch_uncompressed() {
    let backend: &dyn TensorPreprocessing = &UncompressedPreprocessingBackend;
    let (gen_out, eval_out) = backend.run(4, 4, 1);
    assert_eq!(gen_out.n, 4);
    assert_eq!(gen_out.m, 4);
    assert_eq!(eval_out.n, 4);
    assert_eq!(eval_out.m, 4);
}

#[test]
fn test_uncompressed_backend_delegates_to_run_preprocessing() {
    let (gen_out, _eval_out) = UncompressedPreprocessingBackend.run(4, 4, 1);
    assert_eq!(gen_out.n, 4);
    assert_eq!(gen_out.m, 4);
    assert_eq!(gen_out.correlated_auth_bit_shares.len(), 16);
}

#[test]
fn test_uncompressed_backend_gamma_field_is_populated() {
    let (gen_out, eval_out) = UncompressedPreprocessingBackend.run(4, 4, 1);
    assert_eq!(gen_out.gamma_auth_bit_shares.len(), 4 * 4);
    assert_eq!(eval_out.gamma_auth_bit_shares.len(), 4 * 4);
}

#[test]
fn test_uncompressed_backend_eval_shares_lengths() {
    let n = 4;
    let m = 3;
    let (gen_out, eval_out) = UncompressedPreprocessingBackend.run(n, m, 1);
    assert_eq!(gen_out.alpha_dev.len(), n);
    assert_eq!(eval_out.alpha_dev.len(), n);
    assert_eq!(gen_out.beta_dev.len(), m);
    assert_eq!(eval_out.beta_dev.len(), m);
    assert_eq!(gen_out.correlated_dev.len(), n * m);
    assert_eq!(eval_out.correlated_dev.len(), n * m);
}

fn check_dev_correlation(n: usize, m: usize, uncompressed: bool) {
    let (gen_out, eval_out) = if uncompressed {
        UncompressedPreprocessingBackend.run(n, m, 1)
    } else {
        IdealPreprocessingBackend.run(n, m, 1)
    };
    let delta_ev = eval_out.delta_ev;
    for k in 0..n {
        let bit = gen_out.alpha_auth_bit_shares[k].bit() ^ eval_out.alpha_auth_bit_shares[k].bit();
        let expected = if bit { *delta_ev.as_block() } else { Block::zero() };
        assert_eq!(gen_out.alpha_dev[k] ^ eval_out.alpha_dev[k], expected, "alpha D_ev XOR mismatch at {k}");
    }
    for k in 0..m {
        let bit = gen_out.beta_auth_bit_shares[k].bit() ^ eval_out.beta_auth_bit_shares[k].bit();
        let expected = if bit { *delta_ev.as_block() } else { Block::zero() };
        assert_eq!(gen_out.beta_dev[k] ^ eval_out.beta_dev[k], expected, "beta D_ev XOR mismatch at {k}");
    }
    for k in 0..(n * m) {
        let bit = gen_out.correlated_auth_bit_shares[k].bit() ^ eval_out.correlated_auth_bit_shares[k].bit();
        let expected = if bit { *delta_ev.as_block() } else { Block::zero() };
        assert_eq!(gen_out.correlated_dev[k] ^ eval_out.correlated_dev[k], expected,
            "correlated D_ev XOR mismatch at {k}");
    }
}

#[test]
fn test_uncompressed_backend_eval_shares_bit_correlation() {
    check_dev_correlation(4, 3, true);
}

#[test]
fn test_uncompressed_backend_gamma_auth_bit_shares_mac_invariant() {
    let n = 4;
    let m = 3;
    let (gen_out, eval_out) = UncompressedPreprocessingBackend.run(n, m, 1);
    for k in 0..(n * m) {
        verify_cross_party(&gen_out.gamma_auth_bit_shares[k], &eval_out.gamma_auth_bit_shares[k], &gen_out.delta_gb,
            &eval_out.delta_ev);
        assert!(authenticated_tensor_garbling::sharing::cross_party_valid(&gen_out.gamma_auth_bit_shares[k],
            &eval_out.gamma_auth_bit_shares[k], &gen_out.delta_gb, &eval_out.delta_ev));
    }
}

#[test]
fn test_ideal_backend_dimensions() {
    let (gen_out, eval_out) = IdealPreprocessingBackend.run(4, 4, 1);
    assert_eq!(gen_out.n, 4);
    assert_eq!(gen_out.m, 4);
    assert_eq!(gen_out.alpha_auth_bit_shares.len(), 4);
    assert_eq!(gen_out.beta_auth_bit_shares.len(), 4);
    assert_eq!(gen_out.correlated_auth_bit_shares.len(), 16);
    assert_eq!(eval_out.n, 4);
    assert_eq!(eval_out.m, 4);
    assert_eq!(eval_out.correlated_auth_bit_shares.len(), 16);
}

#[test]
fn test_ideal_backend_gamma_auth_bit_shares_length() {
    let (gen_out, eval_out) = IdealPreprocessingBackend.run(4, 4, 1);
    assert_eq!(gen_out.gamma_auth_bit_shares.len(), 4 * 4);
    assert_eq!(eval_out.gamma_auth_bit_shares.len(), 4 * 4);
}

#[test]
fn test_ideal_backend_gamma_auth_bit_shares_mac_invariant() {
    let (gen_out, eval_out) = IdealPreprocessingBackend.run(4, 4, 1);
    for k in 0..(4 * 4) {
        verify_cross_party(&gen_out.gamma_auth_bit_shares[k], &eval_out.gamma_auth_bit_shares[k], &gen_out.delta_gb,
            &eval_out.delta_ev);
        assert!(authenticated_tensor_garbling::sharing::cross_party_valid(&gen_out.gamma_auth_bit_shares[k],
            &eval_out.gamma_auth_bit_shares[k], &gen_out.delta_gb, &eval_out.delta_ev));
    }
}

#[test]
fn test_ideal_backend_eval_shares_lengths() {
    let n = 4;
    let m = 4;
    let (gen_out, eval_out) = IdealPreprocessingBackend.run(n, m, 1);
    assert_eq!(gen_out.alpha_dev.len(), n);
    assert_eq!(eval_out.alpha_dev.len(), n);
    assert_eq!(gen_out.beta_dev.len(), m);
    assert_eq!(eval_out.beta_dev.len(), m);
    assert_eq!(gen_out.correlated_dev.len(), n * m);
    assert_eq!(eval_out.correlated_dev.len(), n * m);
}

#[test]
fn test_ideal_backend_eval_shares_bit_correlation() {
    check_dev_correlation(4, 4, false);
}

#[test]
fn test_ideal_backend_gamma_distinct_from_correlated() {
    let (gen_out, _eval_out) = IdealPreprocessingBackend.run(4, 4, 1);
    let gamma_bits: Vec<bool> = gen_out.gamma_auth_bit_shares.iter().map(|s| s.value).collect();
    let correlated_bits: Vec<bool> = gen_out.correlated_auth_bit_shares.iter().map(|s| s.value).collect();
    assert_ne!(gamma_bits, correlated_bits);
}
