use authenticated_tensor_garbling::auth_tensor_eval::AuthTensorEval;
use authenticated_tensor_garbling::auth_tensor_gen::AuthTensorGen;
use authenticated_tensor_garbling::block::Block;
use authenticated_tensor_garbling::delta::Delta;
use authenticated_tensor_garbling::preprocessing::{
    IdealPreprocessingBackend, TensorPreprocessing, UncompressedPreprocessingBackend,
};
use authenticated_tensor_garbling::sharing::AuthBitShare;

/// For each index, the two parties' blocks XOR to `bit·Δ`, `bit` being the XOR
/// of the two shares' bits.
fn check_one(
    label: &str,
    gen_blocks: &[Block],
    eval_blocks: &[Block],
    gen_shares: &[AuthBitShare],
    eval_shares: &[AuthBitShare],
    delta: &Delta,
) {
    let len = gen_shares.len();
    assert_eq!(eval_shares.len(), len, "{label}: auth_bit_shares len mismatch");
    assert_eq!(gen_blocks.len(), len, "{label}: gen Block-form len mismatch");
    assert_eq!(eval_blocks.len(), len, "{label}: eval Block-form len mismatch");
    for k in 0..len {
        let bit = gen_shares[k].bit() ^ eval_shares[k].bit();
        let expected = if bit { *delta.as_block() } else { Block::zero() };
        let got = gen_blocks[k] ^ eval_blocks[k];
        assert_eq!(got, expected, "{label} XOR mismatch at index {k}: full_bit={bit}");
    }
}

/// The bit shares of every category, read before the online states consume them.
struct AuthBitTruth {
    gen_alpha: Vec<AuthBitShare>,
    gen_beta: Vec<AuthBitShare>,
    gen_corr: Vec<AuthBitShare>,
    gen_gamma: Vec<AuthBitShare>,
    eval_alpha: Vec<AuthBitShare>,
    eval_beta: Vec<AuthBitShare>,
    eval_corr: Vec<AuthBitShare>,
    eval_gamma: Vec<AuthBitShare>,
}

fn check_all(gen_out: &AuthTensorGen, eval_out: &AuthTensorEval, t: &AuthBitTruth) {
    let delta_a = gen_out.delta_a;
    let delta_b = eval_out.delta_b;

    check_one("alpha _eval", &gen_out.alpha_eval, &eval_out.alpha_eval, &t.gen_alpha, &t.eval_alpha, &delta_b);
    check_one("alpha _gen", &gen_out.alpha_gen, &eval_out.alpha_gen, &t.gen_alpha, &t.eval_alpha, &delta_a);
    check_one("beta _eval", &gen_out.beta_eval, &eval_out.beta_eval, &t.gen_beta, &t.eval_beta, &delta_b);
    check_one("beta _gen", &gen_out.beta_gen, &eval_out.beta_gen, &t.gen_beta, &t.eval_beta, &delta_a);
    check_one(
        "correlated _eval",
        &gen_out.correlated_eval,
        &eval_out.correlated_eval,
        &t.gen_corr,
        &t.eval_corr,
        &delta_b,
    );
    check_one("correlated _gen", &gen_out.correlated_gen, &eval_out.correlated_gen, &t.gen_corr, &t.eval_corr, &delta_a);
    check_one("gamma _eval", &gen_out.gamma_eval, &eval_out.gamma_eval, &t.gen_gamma, &t.eval_gamma, &delta_b);
    check_one("gamma _gen", &gen_out.gamma_gen, &eval_out.gamma_gen, &t.gen_gamma, &t.eval_gamma, &delta_a);
}

fn check_recovery(
    label: &str,
    gen_eval_blocks: &[Block],
    gen_gen_blocks: &[Block],
    eval_eval_blocks: &[Block],
    eval_gen_blocks: &[Block],
    gen_shares: &[AuthBitShare],
    eval_shares: &[AuthBitShare],
) {
    let len = gen_shares.len();
    for k in 0..len {
        let recovered_gen = (gen_eval_blocks[k] ^ gen_gen_blocks[k]).lsb();
        let recovered_eval = (eval_eval_blocks[k] ^ eval_gen_blocks[k]).lsb();
        assert_eq!(recovered_gen, gen_shares[k].bit(), "{label} gen-side bit recovery mismatch at index {k}");
        assert_eq!(recovered_eval, eval_shares[k].bit(), "{label} eval-side bit recovery mismatch at index {k}");
    }
}

/// Each party's bit is the pointer bit of the XOR of its two Block-form components.
fn check_bit_recovery(gen_out: &AuthTensorGen, eval_out: &AuthTensorEval, t: &AuthBitTruth) {
    check_recovery(
        "alpha",
        &gen_out.alpha_eval,
        &gen_out.alpha_gen,
        &eval_out.alpha_eval,
        &eval_out.alpha_gen,
        &t.gen_alpha,
        &t.eval_alpha,
    );
    check_recovery("beta", &gen_out.beta_eval, &gen_out.beta_gen, &eval_out.beta_eval, &eval_out.beta_gen, &t.gen_beta, &t.eval_beta);
    check_recovery(
        "correlated",
        &gen_out.correlated_eval,
        &gen_out.correlated_gen,
        &eval_out.correlated_eval,
        &eval_out.correlated_gen,
        &t.gen_corr,
        &t.eval_corr,
    );
    check_recovery(
        "gamma",
        &gen_out.gamma_eval,
        &gen_out.gamma_gen,
        &eval_out.gamma_eval,
        &eval_out.gamma_gen,
        &t.gen_gamma,
        &t.eval_gamma,
    );
}

fn run_backend(backend: &dyn TensorPreprocessing, n: usize, m: usize) -> (AuthTensorGen, AuthTensorEval, AuthBitTruth) {
    let (fpre_gen, fpre_eval) = backend.run(n, m, 1);
    let truth = AuthBitTruth {
        gen_alpha: fpre_gen.alpha_auth_bit_shares.clone(),
        gen_beta: fpre_gen.beta_auth_bit_shares.clone(),
        gen_corr: fpre_gen.correlated_auth_bit_shares.clone(),
        gen_gamma: fpre_gen.gamma_auth_bit_shares.clone(),
        eval_alpha: fpre_eval.alpha_auth_bit_shares.clone(),
        eval_beta: fpre_eval.beta_auth_bit_shares.clone(),
        eval_corr: fpre_eval.correlated_auth_bit_shares.clone(),
        eval_gamma: fpre_eval.gamma_auth_bit_shares.clone(),
    };
    let gen_out = AuthTensorGen::new_from_fpre_gen(fpre_gen);
    let eval_out = AuthTensorEval::new_from_fpre_eval(fpre_eval);
    (gen_out, eval_out, truth)
}

#[test]
fn ideal_backend_block_form_correlations() {
    let (gen_out, eval_out, truth) = run_backend(&IdealPreprocessingBackend, 4, 4);
    check_all(&gen_out, &eval_out, &truth);
    check_bit_recovery(&gen_out, &eval_out, &truth);
}

#[test]
fn uncompressed_backend_block_form_correlations() {
    let (gen_out, eval_out, truth) = run_backend(&UncompressedPreprocessingBackend, 4, 4);
    check_all(&gen_out, &eval_out, &truth);
    check_bit_recovery(&gen_out, &eval_out, &truth);
}

#[test]
fn ideal_backend_block_form_correlations_asymmetric_dims() {
    let (gen_out, eval_out, truth) = run_backend(&IdealPreprocessingBackend, 3, 5);
    check_all(&gen_out, &eval_out, &truth);
    check_bit_recovery(&gen_out, &eval_out, &truth);
}
