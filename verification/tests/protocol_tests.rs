use authenticated_tensor_garbling::auth_tensor_eval::AuthTensorEval;
use authenticated_tensor_garbling::auth_tensor_fpre::TensorFpre;
use authenticated_tensor_garbling::auth_tensor_gen::AuthTensorGen;
use authenticated_tensor_garbling::block::Block;
use authenticated_tensor_garbling::delta::Delta;
use authenticated_tensor_garbling::input_encoding::encode_inputs;
use authenticated_tensor_garbling::matrix::BlockMatrix;
use authenticated_tensor_garbling::online::block_check_zero;
use authenticated_tensor_garbling::preprocessing::{
    IdealPreprocessingBackend, TensorPreprocessing, UncompressedPreprocessingBackend,
};
use authenticated_tensor_garbling::tensor_eval::TensorProductEval;
use authenticated_tensor_garbling::tensor_gen::TensorProductGen;
use authenticated_tensor_garbling::tensor_pre::SemiHonestTensorPre;
use authenticated_tensor_garbling::{assemble_c_alpha_beta_blocks_p2, assemble_e_input_wire_blocks_p1};
use rand::SeedableRng;
use rand_chacha::ChaCha12Rng;

fn verify_vector_sharing(clear_val: usize, gb_share: &Vec<Block>, ev_share: &Vec<Block>, delta: &Delta, n: usize) -> bool {
    assert_eq!(gb_share.len(), n);
    assert_eq!(gb_share.len(), ev_share.len());
    for i in 0..gb_share.len() {
        let expected_val = ((clear_val >> i) & 1) != 0;
        if expected_val {
            if gb_share[i] != ev_share[i] ^ *delta.as_block() {
                return false;
            }
        } else if gb_share[i] != ev_share[i] {
            return false;
        }
    }
    true
}

fn verify_column_matrix_sharing(
    clear_val: usize,
    gb_share: &BlockMatrix,
    ev_share: &BlockMatrix,
    delta: &Delta,
    n: usize,
) -> bool {
    assert_eq!(gb_share.rows(), n);
    assert_eq!(gb_share.rows(), ev_share.rows());
    for i in 0..gb_share.rows() {
        let expected_val = ((clear_val >> i) & 1) != 0;
        if expected_val {
            if gb_share.get_vec(i) != ev_share.get_vec(i) ^ *delta.as_block() {
                return false;
            }
        } else if gb_share.get_vec(i) != ev_share.get_vec(i) {
            return false;
        }
    }
    true
}

fn verify_tensor_output(
    clear_x: usize,
    clear_y: usize,
    n: usize,
    m: usize,
    gb_out: &BlockMatrix,
    ev_out: &BlockMatrix,
    delta: &Delta,
) -> bool {
    for i in 0..n {
        for k in 0..m {
            let expected_val = (((clear_x >> i) & 1) & ((clear_y >> k) & 1)) != 0;
            if expected_val {
                if gb_out.get(i, k) != ev_out.get(i, k) ^ *delta.as_block() {
                    return false;
                }
            } else if gb_out.get(i, k) != ev_out.get(i, k) {
                return false;
            }
        }
    }
    true
}

fn gen_shares(labels: &[authenticated_tensor_garbling::sharing::InputSharing]) -> Vec<Block> {
    labels.iter().map(|share| share.gen_share).collect()
}

fn eval_shares(labels: &[authenticated_tensor_garbling::sharing::InputSharing]) -> Vec<Block> {
    labels.iter().map(|share| share.eval_share).collect()
}

#[test]
fn test_semihonest_tensor_product() {
    let mut rng = ChaCha12Rng::seed_from_u64(11);
    let delta = Delta::random_gb(&mut rng);

    let n = 2;
    let m = 3;
    let clear_x = 0b01;
    let clear_y = 0b101;

    let mut pre = SemiHonestTensorPre::new_with_delta(3, n, m, 6, delta);
    pre.gen_inputs(clear_x, clear_y);

    assert!(verify_vector_sharing(clear_x, &gen_shares(&pre.x_labels), &eval_shares(&pre.x_labels), &delta, n));
    assert!(verify_vector_sharing(clear_y, &gen_shares(&pre.y_labels), &eval_shares(&pre.y_labels), &delta, m));

    let (alpha, beta) = pre.gen_masks();

    assert!(verify_vector_sharing(alpha, &gen_shares(&pre.alpha_labels), &eval_shares(&pre.alpha_labels), &delta, n));
    assert!(verify_vector_sharing(beta, &gen_shares(&pre.beta_labels), &eval_shares(&pre.beta_labels), &delta, m));

    let (masked_x, masked_y) = pre.mask_inputs();

    assert!(verify_vector_sharing(masked_x, &gen_shares(&pre.x_labels), &eval_shares(&pre.x_labels), &delta, n));
    assert!(verify_vector_sharing(masked_y, &gen_shares(&pre.y_labels), &eval_shares(&pre.y_labels), &delta, m));

    let n_bitmask = (1 << n) - 1;
    let m_bitmask = (1 << m) - 1;

    assert_eq!(masked_x, (clear_x ^ alpha) & n_bitmask);
    assert_eq!(masked_y, (clear_y ^ beta) & m_bitmask);

    let (pre_gen, pre_eval) = pre.into_gen_eval();

    let mut gb = TensorProductGen::new_from_fpre_gen(pre_gen);
    let mut ev = TensorProductEval::new_from_fpre_eval(pre_eval);

    assert!(verify_vector_sharing(masked_x, &gb.x_labels, &ev.x_labels, &delta, n));
    assert!(verify_vector_sharing(masked_y, &gb.y_labels, &ev.y_labels, &delta, m));

    let (gen_x, gen_y) = gb.get_first_inputs();
    let (eval_x, eval_y) = ev.get_first_inputs();

    assert!(verify_column_matrix_sharing(masked_x & n_bitmask, &gen_x, &eval_x, &delta, n));
    assert!(verify_column_matrix_sharing(clear_y & m_bitmask, &gen_y, &eval_y, &delta, m));

    let (gen_levels, gen_cts) = gb.garble_first_half_outer_product();
    ev.evaluate_first_half_outer_product(gen_levels, gen_cts);

    assert!(verify_tensor_output(
        masked_x & n_bitmask,
        clear_y & m_bitmask,
        n,
        m,
        &gb.gb_first_half_out_dgb,
        &ev.first_half_out,
        &delta
    ));

    let (gen_x, gen_y) = gb.get_second_inputs();
    let (eval_x, eval_y) = ev.get_second_inputs();

    assert!(verify_column_matrix_sharing(masked_y & m_bitmask, &gen_x, &eval_x, &delta, m));
    assert!(verify_column_matrix_sharing(alpha & n_bitmask, &gen_y, &eval_y, &delta, n));

    let (gen_levels, gen_cts) = gb.garble_second_half_outer_product();
    ev.evaluate_second_half_outer_product(gen_levels, gen_cts);

    assert!(verify_tensor_output(
        masked_y & m_bitmask,
        alpha & n_bitmask,
        m,
        n,
        &gb.gb_second_half_out_dgb,
        &ev.second_half_out,
        &delta
    ));

    let gen_result = gb.garble_final_outer_product();
    let eval_result = ev.evaluate_final_outer_product();

    assert!(verify_tensor_output(clear_x, clear_y, n, m, &gen_result, &eval_result, &delta));
}

#[test]
fn test_auth_tensor_product() {
    let mut rng = ChaCha12Rng::seed_from_u64(12);
    let delta_a = Delta::random_gb(&mut rng);
    let delta_b = Delta::random_ev(&mut rng);

    let n = 16;
    let m = 16;

    let input_x = 0b101;
    let input_y = 0b110;

    let mut fpre = TensorFpre::new_with_delta(54, n, m, 8, delta_a, delta_b);
    fpre.generate_ideal();

    let (fpre_gen, fpre_eval) = fpre.into_gen_eval();

    let mut gb = AuthTensorGen::new_from_fpre_gen(fpre_gen);
    let mut ev = AuthTensorEval::new_from_fpre_eval(fpre_eval);

    encode_inputs(&mut gb, &mut ev, input_x, input_y, &mut rng);

    let masked_x: usize = ev.masked_x_bits.iter().enumerate().map(|(i, &b)| (b as usize) << i).sum();
    let masked_y: usize = ev.masked_y_bits.iter().enumerate().map(|(j, &b)| (b as usize) << j).sum();
    let alpha = input_x ^ masked_x;
    let beta = input_y ^ masked_y;

    let (gen_x, gen_y) = gb.get_first_inputs();
    let (eval_x, eval_y) = ev.get_first_inputs();

    assert!(verify_column_matrix_sharing(masked_x, &gen_x, &eval_x, &delta_a, n));
    assert!(verify_column_matrix_sharing(beta, &gen_y, &eval_y, &delta_a, m));

    let (gen_chunk_levels, gen_chunk_cts) = gb.garble_first_half();
    ev.evaluate_first_half(gen_chunk_levels, gen_chunk_cts);

    assert!(verify_tensor_output(masked_x, beta, n, m, &gb.first_half_out, &ev.first_half_out, &delta_a));

    let (gen_x, gen_y) = gb.get_second_inputs();
    let (eval_x, eval_y) = ev.get_second_inputs();

    assert!(verify_column_matrix_sharing(masked_y, &gen_x, &eval_x, &delta_a, m));
    assert!(verify_column_matrix_sharing(input_x, &gen_y, &eval_y, &delta_a, n));

    let (gen_chunk_levels, gen_chunk_cts) = gb.garble_second_half();
    ev.evaluate_second_half(gen_chunk_levels, gen_chunk_cts);

    assert!(verify_tensor_output(masked_y, input_x, m, n, &gb.second_half_out, &ev.second_half_out, &delta_a));

    for i in 0..n {
        for j in 0..m {
            let expected_val = (((alpha >> i) & 1) & ((beta >> j) & 1)) != 0;
            let gb_share = gb.correlated_gen[j * n + i];
            let ev_share = ev.correlated_gen[j * n + i];

            if expected_val {
                assert_eq!(
                    gb_share,
                    ev_share ^ *delta_a.as_block(),
                    "At position ({},{}): gb_out should equal ev_out ^ delta when expected_val=1",
                    i,
                    j
                );
            } else {
                assert_eq!(gb_share, ev_share, "At position ({},{}): gb_out should equal ev_out when expected_val=0", i, j);
            }
        }
    }

    gb.garble_final();
    ev.evaluate_final();

    for i in 0..n {
        let x_bit = ((input_x >> i) & 1) != 0;
        for j in 0..m {
            let y_bit = ((input_y >> j) & 1) != 0;
            let expected_val = x_bit & y_bit;

            let gb_val = gb.first_half_out.get(i, j);
            let ev_val = ev.first_half_out.get(i, j);

            if expected_val {
                assert_eq!(
                    gb_val,
                    ev_val ^ *delta_a.as_block(),
                    "At position ({},{}): gb_out should equal ev_out ^ delta when expected_val=1",
                    i,
                    j
                );
            } else {
                assert_eq!(gb_val, ev_val, "At position ({},{}): gb_out should equal ev_out when expected_val=0", i, j);
            }
        }
    }
}

/// The evaluator's `[v·Δ_ev]` shares for an honest input encoding: its `[l·Δ_ev]`
/// share, plus `Δ_ev` where the announced masked bit is set.
fn honest_ev_v_shares(shares: &[Block], l_pub: &[bool], delta_b: &Delta) -> Vec<Block> {
    (0..shares.len()).map(|i| if l_pub[i] { shares[i] ^ *delta_b.as_block() } else { shares[i] }).collect()
}

fn run_full_protocol_1(backend: &dyn TensorPreprocessing, x: usize, y: usize) {
    let n = 4;
    let m = 3;

    let (fpre_gen, fpre_eval) = backend.run(n, m, 1);
    let mut gb = AuthTensorGen::new_from_fpre_gen(fpre_gen);
    let mut ev = AuthTensorEval::new_from_fpre_eval(fpre_eval);

    let mut prep_rng = ChaCha12Rng::seed_from_u64(21);
    encode_inputs(&mut gb, &mut ev, x, y, &mut prep_rng);

    let (cl1, ct1) = gb.garble_first_half();
    ev.evaluate_first_half(cl1, ct1);
    let (cl2, ct2) = gb.garble_second_half();
    ev.evaluate_second_half(cl2, ct2);
    gb.garble_final();
    ev.evaluate_final();

    assert!(
        verify_tensor_output(x, y, n, m, &gb.first_half_out, &ev.first_half_out, &gb.delta_a),
        "P1 garble_final must produce shares that reconstruct to x⊗y · δ_a"
    );

    let l_alpha_pub: Vec<bool> = ev.masked_x_bits.clone();
    let l_beta_pub: Vec<bool> = ev.masked_y_bits.clone();

    let gb_v_alpha_eval: Vec<Block> = gb.alpha_eval.clone();
    let ev_v_alpha_eval = honest_ev_v_shares(&ev.alpha_eval, &l_alpha_pub, &ev.delta_b);
    let gb_v_beta_eval: Vec<Block> = gb.beta_eval.clone();
    let ev_v_beta_eval = honest_ev_v_shares(&ev.beta_eval, &l_beta_pub, &ev.delta_b);

    let (e_gen_blocks, e_eval_blocks) = assemble_e_input_wire_blocks_p1(
        n,
        m,
        &gb_v_alpha_eval,
        &ev_v_alpha_eval,
        &gb_v_beta_eval,
        &ev_v_beta_eval,
        &l_alpha_pub,
        &l_beta_pub,
        &gb,
        &ev,
    );

    assert_eq!(e_gen_blocks.len(), n + m);
    assert_eq!(e_eval_blocks.len(), n + m);

    assert!(
        block_check_zero(&e_gen_blocks, &e_eval_blocks),
        "honest Protocol 1 run must pass CheckZero under D_ev"
    );
}

#[test]
fn test_auth_tensor_product_full_protocol_1_ideal() {
    run_full_protocol_1(&IdealPreprocessingBackend, 0, 0);
}

#[test]
fn test_auth_tensor_product_full_protocol_1_uncompressed() {
    run_full_protocol_1(&UncompressedPreprocessingBackend, 0, 0);
}

#[test]
fn test_full_protocol_1_nonzero_inputs_ideal() {
    run_full_protocol_1(&IdealPreprocessingBackend, 0b1011, 0b101);
}

#[test]
fn test_full_protocol_1_nonzero_inputs_uncompressed() {
    run_full_protocol_1(&UncompressedPreprocessingBackend, 0b1011, 0b101);
}

fn run_full_protocol_2(backend: &dyn TensorPreprocessing, x: usize, y: usize) {
    let n = 4;
    let m = 3;

    let (fpre_gen, fpre_eval) = backend.run(n, m, 1);
    let mut gb = AuthTensorGen::new_from_fpre_gen(fpre_gen);
    let mut ev = AuthTensorEval::new_from_fpre_eval(fpre_eval);

    let mut prep_rng = ChaCha12Rng::seed_from_u64(22);
    encode_inputs(&mut gb, &mut ev, x, y, &mut prep_rng);

    let (cl1, ct1) = gb.garble_first_half_p2();
    ev.evaluate_first_half_p2(cl1, ct1);
    let (cl2, ct2) = gb.garble_second_half_p2();
    ev.evaluate_second_half_p2(cl2, ct2);
    let (gb_d_gb_out, gb_d_ev_out) = gb.garble_final_p2();
    let ev_d_ev_out = ev.evaluate_final_p2();

    assert_eq!(gb_d_gb_out.len(), n * m);
    assert_eq!(gb_d_ev_out.len(), n * m);
    assert_eq!(ev_d_ev_out.len(), n * m);

    assert!(
        verify_tensor_output(x, y, n, m, &gb.first_half_out, &ev.first_half_out, &gb.delta_a),
        "P2 garble_final_p2 must produce shares that reconstruct to x⊗y · δ_a"
    );

    assert!(
        verify_tensor_output(x, y, n, m, &gb.first_half_out_ev, &ev.first_half_out_ev, &ev.delta_b),
        "P2 garble_final_p2 must produce D_ev shares that reconstruct to x⊗y · δ_b"
    );

    let l_alpha_pub: Vec<bool> = ev.masked_x_bits.clone();
    let l_beta_pub: Vec<bool> = ev.masked_y_bits.clone();

    let gb_v_alpha_eval: Vec<Block> = gb.alpha_eval.clone();
    let ev_v_alpha_eval = honest_ev_v_shares(&ev.alpha_eval, &l_alpha_pub, &ev.delta_b);
    let gb_v_beta_eval: Vec<Block> = gb.beta_eval.clone();
    let ev_v_beta_eval = honest_ev_v_shares(&ev.beta_eval, &l_beta_pub, &ev.delta_b);

    let (c_gen_blocks_p2, c_eval_blocks_p2) = assemble_c_alpha_beta_blocks_p2(
        n,
        m,
        &gb_v_alpha_eval,
        &ev_v_alpha_eval,
        &gb_v_beta_eval,
        &ev_v_beta_eval,
        &l_alpha_pub,
        &l_beta_pub,
        &gb,
        &ev,
    );

    assert_eq!(c_gen_blocks_p2.len(), n + m);
    assert_eq!(c_eval_blocks_p2.len(), n + m);

    let (e_gen_blocks_p1, e_eval_blocks_p1) = assemble_e_input_wire_blocks_p1(
        n,
        m,
        &gb_v_alpha_eval,
        &ev_v_alpha_eval,
        &gb_v_beta_eval,
        &ev_v_beta_eval,
        &l_alpha_pub,
        &l_beta_pub,
        &gb,
        &ev,
    );
    assert_eq!(c_gen_blocks_p2, e_gen_blocks_p1, "both protocols build the same input-wire blocks");
    assert_eq!(c_eval_blocks_p2, e_eval_blocks_p1, "both protocols build the same input-wire blocks");

    assert!(
        block_check_zero(&c_gen_blocks_p2, &c_eval_blocks_p2),
        "honest Protocol 2 run must pass block_check_zero on c_α/c_β under D_ev (delta_b)"
    );
}

#[test]
fn test_auth_tensor_product_full_protocol_2_ideal() {
    run_full_protocol_2(&IdealPreprocessingBackend, 0, 0);
}

#[test]
fn test_auth_tensor_product_full_protocol_2_uncompressed() {
    run_full_protocol_2(&UncompressedPreprocessingBackend, 0, 0);
}

#[test]
fn test_full_protocol_2_nonzero_inputs_ideal() {
    run_full_protocol_2(&IdealPreprocessingBackend, 0b1011, 0b101);
}

#[test]
fn test_full_protocol_2_nonzero_inputs_uncompressed() {
    run_full_protocol_2(&UncompressedPreprocessingBackend, 0b1011, 0b101);
}

/// Runs Protocol 1 on zero inputs with the ideal backend and returns the input-wire
/// check blocks, after `tamper` has been applied to the garbler's `[v_a·Δ_ev]` shares.
fn protocol_1_check_blocks(tamper: &dyn Fn(&mut Vec<Block>, &AuthTensorGen, &AuthTensorEval)) -> (Vec<Block>, Vec<Block>) {
    let n = 4;
    let m = 3;

    let (fpre_gen, fpre_eval) = IdealPreprocessingBackend.run(n, m, 1);
    let mut gb = AuthTensorGen::new_from_fpre_gen(fpre_gen);
    let mut ev = AuthTensorEval::new_from_fpre_eval(fpre_eval);

    let mut prep_rng = ChaCha12Rng::seed_from_u64(23);
    encode_inputs(&mut gb, &mut ev, 0, 0, &mut prep_rng);

    let (cl1, ct1) = gb.garble_first_half();
    ev.evaluate_first_half(cl1, ct1);
    let (cl2, ct2) = gb.garble_second_half();
    ev.evaluate_second_half(cl2, ct2);
    gb.garble_final();
    ev.evaluate_final();

    let l_alpha_pub: Vec<bool> = ev.masked_x_bits.clone();
    let l_beta_pub: Vec<bool> = ev.masked_y_bits.clone();

    let mut gb_v_alpha_eval: Vec<Block> = gb.alpha_eval.clone();
    let gb_v_beta_eval: Vec<Block> = gb.beta_eval.clone();
    tamper(&mut gb_v_alpha_eval, &gb, &ev);

    let ev_v_alpha_eval = honest_ev_v_shares(&ev.alpha_eval, &l_alpha_pub, &ev.delta_b);
    let ev_v_beta_eval = honest_ev_v_shares(&ev.beta_eval, &l_beta_pub, &ev.delta_b);

    assemble_e_input_wire_blocks_p1(
        n,
        m,
        &gb_v_alpha_eval,
        &ev_v_alpha_eval,
        &gb_v_beta_eval,
        &ev_v_beta_eval,
        &l_alpha_pub,
        &l_beta_pub,
        &gb,
        &ev,
    )
}

#[test]
fn test_protocol_1_e_input_wire_check_aborts_on_garbler_d_ev_tamper() {
    let (e_gen_blocks_tampered, e_eval_blocks_tampered) =
        protocol_1_check_blocks(&|v: &mut Vec<Block>, gb: &AuthTensorGen, _ev: &AuthTensorEval| {
            v[0] ^= *gb.delta_a.as_block();
        });

    assert!(
        !block_check_zero(&e_gen_blocks_tampered, &e_eval_blocks_tampered),
        "tampered gb_v_alpha_eval must cause block_check_zero to abort"
    );
}

#[test]
fn test_protocol_1_e_input_wire_block_check_aborts_on_lsb_zero_tamper() {
    let (e_gen_blocks, e_eval_blocks) =
        protocol_1_check_blocks(&|v: &mut Vec<Block>, _gb: &AuthTensorGen, ev: &AuthTensorEval| {
            assert_eq!(ev.delta_b.as_block().lsb(), false);
            v[0] ^= *ev.delta_b.as_block();
        });

    let combined_at_0 = e_gen_blocks[0] ^ e_eval_blocks[0];
    assert_ne!(combined_at_0, Block::default(), "tamper must produce a non-zero combined block");
    assert_eq!(combined_at_0.lsb(), false, "this tamper must keep LSB=0");

    assert!(
        !block_check_zero(&e_gen_blocks, &e_eval_blocks),
        "block_check_zero must detect an LSB=0 tamper"
    );
}
