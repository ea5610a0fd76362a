use authenticated_tensor_garbling::aes::FixedKeyAes;
use authenticated_tensor_garbling::block::Block;
use authenticated_tensor_garbling::delta::Delta;
use authenticated_tensor_garbling::matrix::BlockMatrix;
use authenticated_tensor_garbling::tensor_gen::TensorProductGen;
use authenticated_tensor_garbling::tensor_ops::{
    gen_unary_outer_product_wide, eval_unary_outer_product_wide, WIDE_DOMAIN, gen_populate_seeds_mem_optimized,
    eval_populate_seeds_mem_optimized, gen_unary_outer_product, eval_unary_outer_product, gen_chunked_outer_product,
    eval_chunked_outer_product,
};
use rand::{Rng, SeedableRng};
use rand_chacha::ChaCha12Rng;

#[test]
fn test_gen_unary_outer_product_wide_tweak_independence() {
    let cipher = FixedKeyAes::new();
    let seeds: Vec<Block> = (0..4).map(|i| Block::from((i as u128) + 0x1000)).collect();
    let mut y_gb_mat = BlockMatrix::new(2, 1);
    let mut y_ev_mat = BlockMatrix::new(2, 1);
    for j in 0..2 {
        y_gb_mat.set_vec(j, Block::from((j as u128) + 0x2000));
        y_ev_mat.set_vec(j, Block::from((j as u128) + 0x3000));
    }
    let mut out_gb_mat = BlockMatrix::new(2, 2);
    let mut out_ev_mat = BlockMatrix::new(2, 2);
    let gen_cts = gen_unary_outer_product_wide(&seeds, &y_gb_mat.as_view(), &y_ev_mat.as_view(), &mut out_gb_mat,
        &mut out_ev_mat, 0, 2, &cipher);
    assert_eq!(gen_cts.len(), 2);
    for (k, ct) in gen_cts.iter().enumerate() {
        assert_ne!(ct.0, ct.1, "gen_cts[{}].0 (kappa) must differ from .1 (rho)", k);
    }
    let mut differs = false;
    for k in 0..2 {
        for j in 0..2 {
            if out_gb_mat.get(k, j) != out_ev_mat.get(k, j) {
                differs = true;
            }
        }
    }
    assert!(differs);
}

#[test]
fn test_eval_unary_outer_product_wide_round_trip_kappa() {
    let cipher = FixedKeyAes::new();
    let seeds: Vec<Block> = (0..4).map(|i| Block::from((i as u128) + 0x10)).collect();
    let mut y_gb_mat = BlockMatrix::new(1, 1);
    let mut y_ev_mat = BlockMatrix::new(1, 1);
    y_gb_mat.set_vec(0, Block::from(0x20u128));
    y_ev_mat.set_vec(0, Block::from(0x30u128));
    let mut gen_out_gb = BlockMatrix::new(2, 1);
    let mut gen_out_ev = BlockMatrix::new(2, 1);
    let gen_cts = gen_unary_outer_product_wide(&seeds, &y_gb_mat.as_view(), &y_ev_mat.as_view(), &mut gen_out_gb,
        &mut gen_out_ev, 0, 2, &cipher);

    let missing = 2usize;
    let mut eval_seeds = seeds.clone();
    eval_seeds[missing] = Block::default();
    let mut eval_out_gb = BlockMatrix::new(2, 1);
    let mut eval_out_ev = BlockMatrix::new(2, 1);
    eval_unary_outer_product_wide(&eval_seeds, &y_gb_mat.as_view(), &y_ev_mat.as_view(), &mut eval_out_gb,
        &mut eval_out_ev, 0, 2, &cipher, missing, &gen_cts);

    let mut expected_row_gb = Block::default();
    for i in 0..seeds.len() {
        let base = (seeds.len() * 0 + i) as u128;
        expected_row_gb ^= cipher.tccr(Block::from(WIDE_DOMAIN | (base << 1)), seeds[i]);
    }
    expected_row_gb ^= y_gb_mat.get_vec(0);
    assert_eq!(gen_cts[0].0, expected_row_gb);
}

#[test]
fn test_eval_unary_outer_product_wide_round_trip_rho() {
    let cipher = FixedKeyAes::new();
    let seeds: Vec<Block> = (0..4).map(|i| Block::from((i as u128) + 0x10)).collect();
    let mut y_gb_mat = BlockMatrix::new(1, 1);
    let mut y_ev_mat = BlockMatrix::new(1, 1);
    y_gb_mat.set_vec(0, Block::from(0x20u128));
    y_ev_mat.set_vec(0, Block::from(0x30u128));
    let mut gen_out_gb = BlockMatrix::new(2, 1);
    let mut gen_out_ev = BlockMatrix::new(2, 1);
    let gen_cts = gen_unary_outer_product_wide(&seeds, &y_gb_mat.as_view(), &y_ev_mat.as_view(), &mut gen_out_gb,
        &mut gen_out_ev, 0, 2, &cipher);
    let mut expected_row_ev = Block::default();
    for i in 0..seeds.len() {
        let base = (seeds.len() * 0 + i) as u128;
        expected_row_ev ^= cipher.tccr(Block::from(WIDE_DOMAIN | (base << 1 | 1)), seeds[i]);
    }
    expected_row_ev ^= y_ev_mat.get_vec(0);
    assert_eq!(gen_cts[0].1, expected_row_ev);
}

#[test]
fn test_wide_signature_shapes() {
    let cipher = FixedKeyAes::new();
    let seeds: Vec<Block> = (0..4).map(|i| Block::from(i as u128)).collect();
    let mut y_gb_mat = BlockMatrix::new(3, 1);
    let mut y_ev_mat = BlockMatrix::new(3, 1);
    for j in 0..3 {
        y_gb_mat.set_vec(j, Block::from((j as u128) + 100));
        y_ev_mat.set_vec(j, Block::from((j as u128) + 200));
    }
    let mut out_gb_mat = BlockMatrix::new(2, 3);
    let mut out_ev_mat = BlockMatrix::new(2, 3);
    let gen_cts = gen_unary_outer_product_wide(&seeds, &y_gb_mat.as_view(), &y_ev_mat.as_view(), &mut out_gb_mat,
        &mut out_ev_mat, 0, 2, &cipher);
    assert_eq!(gen_cts.len(), 3);
    let mut nonzero_gb = false;
    let mut nonzero_ev = false;
    for k in 0..2 {
        for j in 0..3 {
            if out_gb_mat.get(k, j) != Block::default() {
                nonzero_gb = true;
            }
            if out_ev_mat.get(k, j) != Block::default() {
                nonzero_ev = true;
            }
        }
    }
    assert!(nonzero_gb);
    assert!(nonzero_ev);
}

/// Whether node `idx` of a depth-4 tree (breadth-first, root 0) lies on the
/// path to leaf `missing_path` at `level`.
fn is_on_path(idx: usize, missing_path: usize, level: usize) -> bool {
    let mut place = 0;
    for i in 0..=level {
        let bit = (missing_path >> (3 - i)) & 1;
        if bit == 1 {
            place = place * 2 + 2;
        } else {
            place = place * 2 + 1;
        }
    }
    idx == (place - 1)
}

#[test]
fn test_path_helper() {
    let missing: usize = 0b0000;
    assert!(is_on_path(0, missing, 0));
    assert!(is_on_path(2, missing, 1));
    assert!(is_on_path(6, missing, 2));
    assert!(is_on_path(14, missing, 3));

    let missing = 0b1010;
    assert!(is_on_path(1, missing, 0));
    assert!(is_on_path(4, missing, 1));
    assert!(is_on_path(11, missing, 2));
    assert!(is_on_path(24, missing, 3));
}

#[test]
fn ggm_tree_evaluator_recovers_all_but_missing_leaf() {
    let cipher = FixedKeyAes::new();
    let delta = Delta::new(Block::from(0x1234_5678_9abc_def0_1111_2222_3333_4445u128));
    let keys: Vec<Block> = (0..3).map(|i| Block::from(((i as u128) << 8) | 0x40)).collect();
    let bits = vec![true, false, true];
    let macs: Vec<Block> = keys.iter().zip(bits.iter()).map(|(k, &b)| if b { *k ^ *delta.as_block() } else { *k }).collect();
    let (gen_seeds, levels) = gen_populate_seeds_mem_optimized(&keys, &cipher, delta);
    let (eval_seeds, missing) = eval_populate_seeds_mem_optimized(&macs, &bits, &levels, &cipher);
    assert_eq!(gen_seeds.len(), 8);
    assert_eq!(missing, 0b101);
    for i in 0..8 {
        if i != missing {
            assert_eq!(gen_seeds[i], eval_seeds[i]);
        }
    }
}

#[test]
fn test_ggm_tree() {
    let cipher = FixedKeyAes::new();
    let mut rng = ChaCha12Rng::seed_from_u64(31);
    let delta = Delta::random_gb(&mut rng);

    let keys: Vec<Block> = (0..4).map(|_| Block::random(&mut rng)).collect();
    let clear: usize = rng.random_range(0..16);
    let bits: Vec<bool> = (0..4).map(|i| ((clear >> i) & 1) == 1).collect();
    let macs: Vec<Block> = keys.iter().zip(bits.iter()).map(|(k, &b)| if b { *k ^ *delta.as_block() } else { *k }).collect();

    let (gen_seeds, levels) = gen_populate_seeds_mem_optimized(&keys, &cipher, delta);
    let (eval_seeds, missing) = eval_populate_seeds_mem_optimized(&macs, &bits, &levels, &cipher);

    assert_eq!(gen_seeds.len(), eval_seeds.len(), "Tree sizes should match");
    assert_eq!(missing, clear);
    for idx in 0..gen_seeds.len() {
        if idx != missing {
            assert_eq!(gen_seeds[idx], eval_seeds[idx], "Node {} should match between generator and evaluator trees", idx);
        }
    }
}

/// A garbler label vector with pointer bits 0 and the evaluator's, offset by `Δ`
/// where `clear_x` has a 1 bit.
fn get_gen_eval_vecs(delta: Delta, n: usize, clear_x: usize) -> (BlockMatrix, BlockMatrix) {
    let gen_x = BlockMatrix::random_zeros(n, 1);
    assert!((0..n).all(|i| !gen_x.get_vec(i).lsb()), "gen_x LSBs must be 0");
    let mut eval_x = BlockMatrix::constant(n, 1, Block::default());
    for i in 0..n {
        let v = if ((clear_x >> i) & 1) == 0 { gen_x.get_vec(i) } else { gen_x.get_vec(i) ^ *delta.as_block() };
        eval_x.set_vec(i, v);
    }
    (gen_x, eval_x)
}

fn column(m: &BlockMatrix) -> Vec<Block> {
    (0..m.rows()).map(|i| m.get_vec(i)).collect()
}

fn pointer_bits(m: &BlockMatrix) -> Vec<bool> {
    (0..m.rows()).map(|i| m.get_vec(i).lsb()).collect()
}

#[test]
fn test_unary_outer_product() {
    let cipher = FixedKeyAes::new();
    let mut rng = ChaCha12Rng::seed_from_u64(32);
    let delta = Delta::random_gb(&mut rng);

    let n = 4;
    let m = 2;
    let l = 3;

    let clear_y: usize = rng.random_range(0..(1 << m));
    let clear_x: usize = rng.random_range(0..(1 << n));

    let (gen_x, eval_x) = get_gen_eval_vecs(delta, n, clear_x);
    let (gen_y, eval_y) = get_gen_eval_vecs(delta, m, clear_y);

    assert_eq!(clear_x, eval_x.get_clear_value());

    let mut gen_out = BlockMatrix::new(l, m);
    let mut eval_out = BlockMatrix::new(l, m);

    let (gen_seeds, levels) = gen_populate_seeds_mem_optimized(&column(&gen_x), &cipher, delta);
    let gen_cts = gen_unary_outer_product(&gen_seeds, &gen_y.as_view(), &mut gen_out, 0, l, &cipher);

    let (eval_seeds, missing) = eval_populate_seeds_mem_optimized(&column(&eval_x), &pointer_bits(&eval_x), &levels, &cipher);
    assert_eq!(missing, clear_x);
    let eval_cts = eval_unary_outer_product(&eval_seeds, &eval_y.as_view(), &mut eval_out, 0, l, &cipher, missing, &gen_cts);

    for (j, eval_ct) in eval_cts.iter().enumerate() {
        let tweak = (gen_seeds.len() * j + clear_x) as u128;
        let expanded_missing = cipher.tccr(Block::from(tweak), gen_seeds[clear_x]);
        let y_diff = gen_y.get_vec(j) ^ eval_y.get_vec(j);
        assert_eq!(*eval_ct, expanded_missing ^ y_diff, "Row {}: Evaluator result should match expected missing value", j);
    }

    for k in 0..l {
        for j in 0..m {
            let x_bit = ((clear_x >> k) & 1) == 1;
            let y_bit = ((clear_y >> j) & 1) == 1;
            let gen_val = gen_out.get(k, j);
            let eval_val = eval_out.get(k, j);
            if x_bit & y_bit {
                assert_eq!(eval_val, gen_val ^ *delta.as_block(), "At position ({},{}): eval_out should equal gen_out ^ delta when expected=1", k, j);
            } else {
                assert_eq!(gen_val, eval_val, "At position ({},{}): gen_out should equal eval_out when expected=0", k, j);
            }
        }
    }
}

/// A mask vector: `Δ` or zero at random.
fn gen_mask_vector(rng: &mut ChaCha12Rng, len: usize, delta: &Delta) -> BlockMatrix {
    let mut v = BlockMatrix::new(len, 1);
    for i in 0..len {
        let b: bool = rng.random();
        v.set_vec(i, if b { *delta.as_block() } else { Block::default() });
    }
    v
}

/// One half outer product: the garbler's tree over `gen_x`, the evaluator's over
/// `eval_x`, both expanded against their `y` shares into fresh `rows × cols` outputs.
fn half_outer_product(
    cipher: &FixedKeyAes,
    delta: Delta,
    gen_x: &BlockMatrix,
    eval_x: &BlockMatrix,
    gen_y: &BlockMatrix,
    eval_y: &BlockMatrix,
) -> (BlockMatrix, BlockMatrix) {
    let rows = gen_x.rows();
    let cols = gen_y.rows();
    let mut gen_out = BlockMatrix::new(rows, cols);
    let mut eval_out = BlockMatrix::new(rows, cols);
    let (gen_seeds, levels) = gen_populate_seeds_mem_optimized(&column(gen_x), cipher, delta);
    let gen_cts = gen_unary_outer_product(&gen_seeds, &gen_y.as_view(), &mut gen_out, 0, rows, cipher);
    let (eval_seeds, missing) = eval_populate_seeds_mem_optimized(&column(eval_x), &pointer_bits(eval_x), &levels, cipher);
    eval_unary_outer_product(&eval_seeds, &eval_y.as_view(), &mut eval_out, 0, rows, cipher, missing, &gen_cts);
    (gen_out, eval_out)
}

#[test]
fn test_protocol() {
    let cipher = FixedKeyAes::new();
    let mut rng = ChaCha12Rng::seed_from_u64(33);
    let delta = Delta::random_gb(&mut rng);
    let n = 3;
    let m = 3;
    let l = 3;

    let clear_y: usize = rng.random_range(0..(1 << m));
    let clear_x: usize = rng.random_range(0..(1 << n));

    let (gen_x, eval_x) = get_gen_eval_vecs(delta, n, clear_x);
    let (gen_y, eval_y) = get_gen_eval_vecs(delta, m, clear_y);

    let alpha = gen_mask_vector(&mut rng, n, &delta);
    let beta = gen_mask_vector(&mut rng, m, &delta);

    let eval_x_masked = eval_x.xor_matrix(&alpha);
    let gen_y_unmasked = gen_y.xor_matrix(&beta);
    let eval_y_unmasked = eval_y.xor_matrix(&beta);
    let eval_y_masked = eval_y.xor_matrix(&beta);
    let eval_alpha = BlockMatrix::constant(n, 1, Block::default());
    let eval_beta = BlockMatrix::constant(m, 1, Block::default());

    let (gen_first_half_out, eval_first_half_out) =
        half_outer_product(&cipher, delta, &gen_x, &eval_x_masked, &gen_y_unmasked, &eval_y_unmasked);
    let (gen_second_half_out, eval_second_half_out) =
        half_outer_product(&cipher, delta, &gen_y, &eval_y_masked, &alpha, &eval_alpha);

    let gen_alpha_beta = alpha.color_cross_product(&beta, delta);
    let eval_alpha_beta = eval_alpha.color_cross_product(&eval_beta, delta);

    for i in 0..l {
        for j in 0..l {
            let gen_val = gen_first_half_out.get(i, j) ^ gen_second_half_out.get(j, i) ^ gen_alpha_beta.get(i, j);
            let eval_val = eval_first_half_out.get(i, j) ^ eval_second_half_out.get(j, i) ^ eval_alpha_beta.get(i, j);
            let expected_bit = (((clear_x >> i) & 1) == 1) & (((clear_y >> j) & 1) == 1);
            if expected_bit {
                assert_eq!(eval_val, gen_val ^ *delta.as_block(), "At position ({},{}): eval_out should equal gen_out ^ delta when expected=1", i, j);
            } else {
                assert_eq!(gen_val, eval_val, "At position ({},{}): gen_out should equal eval_out when expected=0", i, j);
            }
        }
    }
}

/// One half outer product in chunks of `cf` rows.
fn chunked_half_outer_product(
    cipher: &FixedKeyAes,
    delta: Delta,
    cf: usize,
    gen_x: &BlockMatrix,
    eval_x: &BlockMatrix,
    gen_y: &BlockMatrix,
    eval_y: &BlockMatrix,
) -> (BlockMatrix, BlockMatrix) {
    let rows = gen_x.rows();
    let cols = gen_y.rows();
    let mut gen_out = BlockMatrix::new(rows, cols);
    let mut eval_out = BlockMatrix::new(rows, cols);
    let (levels, cts) = gen_chunked_outer_product(&gen_x.as_view(), &gen_y.as_view(), &mut gen_out, cf, cipher, delta);
    eval_chunked_outer_product(
        &eval_x.as_view(),
        &eval_y.as_view(),
        &pointer_bits(eval_x),
        &mut eval_out,
        cf,
        cipher,
        &levels,
        &cts,
    );
    (gen_out, eval_out)
}

#[test]
fn test_chunked_protocol() {
    let cipher = FixedKeyAes::new();
    let mut rng = ChaCha12Rng::seed_from_u64(34);
    let delta = Delta::random_gb(&mut rng);
    let n = 3;
    let m = 3;
    let l = 3;
    let cf = 2;

    let clear_y: usize = rng.random_range(0..(1 << m));
    let clear_x: usize = rng.random_range(0..(1 << n));

    let (gen_x, eval_x) = get_gen_eval_vecs(delta, n, clear_x);
    let (gen_y, eval_y) = get_gen_eval_vecs(delta, m, clear_y);

    let alpha = gen_mask_vector(&mut rng, n, &delta);
    let beta = gen_mask_vector(&mut rng, m, &delta);

    let eval_x_masked = eval_x.xor_matrix(&alpha);
    let gen_y_unmasked = gen_y.xor_matrix(&beta);
    let eval_y_unmasked = eval_y.xor_matrix(&beta);
    let eval_y_masked = eval_y.xor_matrix(&beta);
    let eval_alpha = BlockMatrix::constant(n, 1, Block::default());
    let eval_beta = BlockMatrix::constant(m, 1, Block::default());

    let (gen_first_half_out, eval_first_half_out) =
        chunked_half_outer_product(&cipher, delta, cf, &gen_x, &eval_x_masked, &gen_y_unmasked, &eval_y_unmasked);
    let (gen_second_half_out, eval_second_half_out) =
        chunked_half_outer_product(&cipher, delta, cf, &gen_y, &eval_y_masked, &alpha, &eval_alpha);

    let gen_alpha_beta = alpha.color_cross_product(&beta, delta);
    let eval_alpha_beta = eval_alpha.color_cross_product(&eval_beta, delta);

    for i in 0..l {
        for j in 0..l {
            let gen_val = gen_first_half_out.get(i, j) ^ gen_second_half_out.get(j, i) ^ gen_alpha_beta.get(i, j);
            let eval_val = eval_first_half_out.get(i, j) ^ eval_second_half_out.get(j, i) ^ eval_alpha_beta.get(i, j);
            let expected_bit = (((clear_x >> i) & 1) == 1) & (((clear_y >> j) & 1) == 1);
            if expected_bit {
                assert_eq!(eval_val, gen_val ^ *delta.as_block(), "At position ({},{}): eval_out should equal gen_out ^ delta when expected=1", i, j);
            } else {
                assert_eq!(gen_val, eval_val, "At position ({},{}): gen_out should equal eval_out when expected=0", i, j);
            }
        }
    }
}

#[test]
fn color_cross_product_reads_the_first_n_and_m_labels() {
    let mut rng = ChaCha12Rng::seed_from_u64(3);
    let delta = Delta::random_gb(&mut rng);
    let (n, m) = (2usize, 2usize);
    let gen = TensorProductGen {
        cipher: FixedKeyAes::new(),
        chunking_factor: 1,
        n,
        m,
        delta,
        x_labels: Vec::new(),
        y_labels: Vec::new(),
        // Longer than n and m: the extra labels are not read.
        alpha_labels: vec![Block::from(1u128), Block::default(), Block::from(5u128)],
        beta_labels: vec![Block::from(2u128), Block::from(3u128), Block::default(), Block::from(4u128)],
        gb_first_half_out_dgb: BlockMatrix::new(n, m),
        gb_second_half_out_dgb: BlockMatrix::new(m, n),
    };
    let out = gen.color_cross_product(delta);
    assert_eq!(out.rows(), n);
    assert_eq!(out.cols(), m);
    assert_eq!(out.get(0, 0), *delta.as_block());
    assert_eq!(out.get(0, 1), *delta.as_block());
    assert_eq!(out.get(1, 0), Block::default());
    assert_eq!(out.get(1, 1), Block::default());
}
