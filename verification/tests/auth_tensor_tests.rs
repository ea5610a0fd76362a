use authenticated_tensor_garbling::auth_tensor_eval::AuthTensorEval;
use authenticated_tensor_garbling::auth_tensor_fpre::TensorFpre;
use authenticated_tensor_garbling::auth_tensor_gen::AuthTensorGen;
use authenticated_tensor_garbling::block::Block;
use authenticated_tensor_garbling::input_encoding::encode_inputs;
use authenticated_tensor_garbling::preprocessing::{IdealPreprocessingBackend, TensorPreprocessing};
use authenticated_tensor_garbling::sharing::cross_party_valid;
use rand::SeedableRng;
use rand_chacha::ChaCha12Rng;

fn install_test_input_labels(gar: &mut AuthTensorGen, ev: &mut AuthTensorEval, x: usize, y: usize) {
    let mut rng = ChaCha12Rng::seed_from_u64(0xDEAD_BEEF);
    encode_inputs(gar, ev, x, y, &mut rng);
}

fn build_pair(n: usize, m: usize) -> (AuthTensorGen, AuthTensorEval) {
    let (fpre_gen, fpre_eval) = IdealPreprocessingBackend.run(n, m, 1);
    let mut gb = AuthTensorGen::new_from_fpre_gen(fpre_gen);
    let mut ev = AuthTensorEval::new_from_fpre_eval(fpre_eval);
    install_test_input_labels(&mut gb, &mut ev, 0, 0);
    (gb, ev)
}

#[test]
fn test_garble_first_half() {
    let n = 4;
    let m = 3;

    let mut fpre = TensorFpre::new(0, n, m, 6);
    fpre.generate_ideal();

    let (fpre_gen, fpre_eval) = fpre.into_gen_eval();

    assert_eq!(fpre_gen.alpha_auth_bit_shares.len(), n);
    assert_eq!(fpre_gen.beta_auth_bit_shares.len(), m);
    assert_eq!(fpre_gen.correlated_auth_bit_shares.len(), n * m);

    let mut gar = AuthTensorGen::new_from_fpre_gen(fpre_gen);
    let mut ev = AuthTensorEval::new_from_fpre_eval(fpre_eval);

    assert_eq!(gar.alpha_eval.len(), n);
    assert_eq!(gar.alpha_gen.len(), n);
    assert_eq!(gar.beta_eval.len(), m);
    assert_eq!(gar.beta_gen.len(), m);
    assert_eq!(gar.correlated_eval.len(), n * m);
    assert_eq!(gar.correlated_gen.len(), n * m);

    install_test_input_labels(&mut gar, &mut ev, 0b1101, 0b110);

    assert_eq!(gar.masked_x_gen.len(), n);
    assert_eq!(gar.masked_y_gen.len(), m);

    let (_chunk_levels, _chunk_cts) = gar.garble_first_half();
}

#[test]
fn test_garble_final_p2_returns_two_block_vecs_no_lambda() {
    let n = 4;
    let m = 3;
    let (mut gar, _ev) = build_pair(n, m);

    let (_cl1, _ct1) = gar.garble_first_half_p2();
    let (_cl2, _ct2) = gar.garble_second_half_p2();
    let (d_gb, d_ev) = gar.garble_final_p2();

    assert_eq!(d_gb.len(), n * m, "D_gb output share has length n*m");
    assert_eq!(d_ev.len(), n * m, "D_ev output share has length n*m");
}

#[test]
fn test_garble_first_half_p2_returns_wide_ciphertexts() {
    let n = 4;
    let m = 3;
    let (mut gar, _ev) = build_pair(n, m);

    let (_chunk_levels, chunk_cts) = gar.garble_first_half_p2();
    for chunk in &chunk_cts {
        for (kappa, rho) in chunk {
            let _: &Block = kappa;
            let _: &Block = rho;
        }
    }
    assert!(!chunk_cts.is_empty(), "chunk_cts must be non-empty");
}

#[test]
fn test_evaluate_final_p2_returns_d_ev_share_vec() {
    let n = 4;
    let m = 3;
    let (mut gb, mut ev) = build_pair(n, m);

    let (cl1, ct1) = gb.garble_first_half_p2();
    ev.evaluate_first_half_p2(cl1, ct1);
    let (cl2, ct2) = gb.garble_second_half_p2();
    ev.evaluate_second_half_p2(cl2, ct2);
    let (_d_gb_gb, _d_ev_gb) = gb.garble_final_p2();
    let d_ev_ev = ev.evaluate_final_p2();

    assert_eq!(d_ev_ev.len(), n * m, "evaluate_final_p2 returns Vec<Block> of length n*m");
}

#[test]
fn test_tensor_fpre_auth_bits() {
    let n = 3;
    let m = 4;

    let mut fpre = TensorFpre::new(0, n, m, 6);
    fpre.generate_ideal();

    assert_eq!(fpre.alpha_auth_bits.len(), n);
    assert_eq!(fpre.beta_auth_bits.len(), m);
    assert_eq!(fpre.correlated_auth_bits.len(), n * m);

    for bit in fpre.alpha_auth_bits.iter().chain(fpre.beta_auth_bits.iter()).chain(fpre.correlated_auth_bits.iter()) {
        assert!(cross_party_valid(&bit.gen_share, &bit.eval_share, &fpre.delta_gb, &fpre.delta_ev));
        bit.verify(&fpre.delta_gb, &fpre.delta_ev);
    }

    for j in 0..m {
        let base = j * n;
        for i in 0..n {
            let alpha = &fpre.alpha_auth_bits[i];
            let beta = &fpre.beta_auth_bits[j];
            let alpha_beta = &fpre.correlated_auth_bits[base + i];
            assert!(
                alpha_beta.full_bit() == (alpha.full_bit() && beta.full_bit()),
                "alpha_beta must equal alpha.full_bit() && beta.full_bit()"
            );
        }
    }
}
