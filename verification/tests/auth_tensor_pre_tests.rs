use authenticated_tensor_garbling::auth_tensor_eval::AuthTensorEval;
use authenticated_tensor_garbling::auth_tensor_gen::AuthTensorGen;
use authenticated_tensor_garbling::auth_tensor_pre::{
    apply_permutation_to_triple, bucket_size_for, combine_leaky_triples, combine_leaky_triples_with_bytes,
    combine_with_permutations, two_to_one_combine, verify_chunking_factor_cross_party,
};
use authenticated_tensor_garbling::bcot::IdealBCot;
use authenticated_tensor_garbling::leaky_tensor_pre::{LeakyTensorPre, LeakyTriple};
use authenticated_tensor_garbling::preprocessing::{
    preprocess_bucket, run_preprocessing, IdealPreprocessingBackend, TensorFpreEval, TensorFpreGen,
    TensorPreprocessing,
};
use authenticated_tensor_garbling::sharing::{cross_party_valid, AuthBitShare};

fn make_triples(n: usize, m: usize, count: usize) -> Vec<LeakyTriple> {
    let mut bcot = IdealBCot::new(42, 99);
    let mut triples = Vec::new();
    for seed in 0..count {
        let mut ltp = LeakyTensorPre::new(seed as u64, n, m, 1, bcot);
        triples.push(ltp.generate());
        bcot = ltp.bcot;
    }
    triples
}

fn shares_eq(a: &AuthBitShare, b: &AuthBitShare) -> bool {
    a.key == b.key && a.mac == b.mac && a.value == b.value
}

fn slices_eq(a: &[AuthBitShare], b: &[AuthBitShare]) -> bool {
    a.len() == b.len() && a.iter().zip(b.iter()).all(|(x, y)| shares_eq(x, y))
}

fn assert_output_valid(gen_out: &TensorFpreGen, eval_out: &TensorFpreEval, n: usize, m: usize) {
    for i in 0..n {
        assert!(cross_party_valid(&gen_out.alpha_auth_bit_shares[i], &eval_out.alpha_auth_bit_shares[i],
            &gen_out.delta_gb, &eval_out.delta_ev));
    }
    for j in 0..m {
        assert!(cross_party_valid(&gen_out.beta_auth_bit_shares[j], &eval_out.beta_auth_bit_shares[j],
            &gen_out.delta_gb, &eval_out.delta_ev));
    }
    for k in 0..(n * m) {
        assert!(cross_party_valid(&gen_out.correlated_auth_bit_shares[k], &eval_out.correlated_auth_bit_shares[k],
            &gen_out.delta_gb, &eval_out.delta_ev));
    }
    let x_full: Vec<bool> = (0..n)
        .map(|i| gen_out.alpha_auth_bit_shares[i].value ^ eval_out.alpha_auth_bit_shares[i].value)
        .collect();
    let y_full: Vec<bool> = (0..m)
        .map(|j| gen_out.beta_auth_bit_shares[j].value ^ eval_out.beta_auth_bit_shares[j].value)
        .collect();
    for j in 0..m {
        for i in 0..n {
            let k = j * n + i;
            let z_full = gen_out.correlated_auth_bit_shares[k].value ^ eval_out.correlated_auth_bit_shares[k].value;
            assert_eq!(z_full, x_full[i] & y_full[j], "product invariant failed at (i={}, j={})", i, j);
        }
    }
}

#[test]
fn test_apply_permutation_identity_is_noop() {
    let triples = make_triples(4, 2, 1);
    let mut t = triples[0].clone();
    let before = triples[0].clone();
    let perm: Vec<usize> = (0..t.n).collect();
    apply_permutation_to_triple(&mut t, &perm);
    assert!(slices_eq(&t.gb_x_shares, &before.gb_x_shares));
    assert!(slices_eq(&t.ev_x_shares, &before.ev_x_shares));
    assert!(slices_eq(&t.gb_y_shares, &before.gb_y_shares));
    assert!(slices_eq(&t.ev_y_shares, &before.ev_y_shares));
    assert!(slices_eq(&t.gb_z_shares, &before.gb_z_shares));
    assert!(slices_eq(&t.ev_z_shares, &before.ev_z_shares));
}

#[test]
fn test_apply_permutation_swap_moves_x_and_z_rows_but_not_y() {
    let n = 4usize;
    let m = 2usize;
    let triples = make_triples(n, m, 1);
    let mut t = triples[0].clone();
    let before = triples[0].clone();
    let perm = vec![1usize, 0, 2, 3];
    apply_permutation_to_triple(&mut t, &perm);
    assert!(shares_eq(&t.gb_x_shares[0], &before.gb_x_shares[1]));
    assert!(shares_eq(&t.gb_x_shares[1], &before.gb_x_shares[0]));
    assert!(shares_eq(&t.gb_x_shares[2], &before.gb_x_shares[2]));
    assert!(shares_eq(&t.gb_x_shares[3], &before.gb_x_shares[3]));
    assert!(shares_eq(&t.ev_x_shares[0], &before.ev_x_shares[1]));
    assert!(shares_eq(&t.ev_x_shares[1], &before.ev_x_shares[0]));
    assert!(slices_eq(&t.gb_y_shares, &before.gb_y_shares));
    assert!(slices_eq(&t.ev_y_shares, &before.ev_y_shares));
    for j in 0..m {
        assert!(shares_eq(&t.gb_z_shares[j * n], &before.gb_z_shares[j * n + 1]));
        assert!(shares_eq(&t.gb_z_shares[j * n + 1], &before.gb_z_shares[j * n]));
        assert!(shares_eq(&t.gb_z_shares[j * n + 2], &before.gb_z_shares[j * n + 2]));
        assert!(shares_eq(&t.gb_z_shares[j * n + 3], &before.gb_z_shares[j * n + 3]));
        assert!(shares_eq(&t.ev_z_shares[j * n], &before.ev_z_shares[j * n + 1]));
        assert!(shares_eq(&t.ev_z_shares[j * n + 1], &before.ev_z_shares[j * n]));
    }
}

#[test]
fn test_bucket_size_formula() {
    assert_eq!(bucket_size_for(4, 1), 21);
    assert_eq!(bucket_size_for(4, 2), 15);
    assert_eq!(bucket_size_for(16, 1), 11);
}

#[test]
fn test_bucket_size_formula_edge_cases() {
    assert_eq!(bucket_size_for(1, 0), 40);
    assert_eq!(bucket_size_for(1, 1), 40);
}

#[test]
fn bucket_size_saturates_on_overflowing_product() {
    assert_eq!(bucket_size_for(usize::MAX, 2), 1 + (40 + (usize::BITS as usize - 1) - 1) / (usize::BITS as usize - 1));
}

#[test]
fn test_combine_dimensions() {
    let n = 4;
    let m = 4;
    let b = 2;
    let triples = make_triples(n, m, b);
    let (gen_out, eval_out) = combine_leaky_triples(triples, b, n, m, 1, 42);
    assert_eq!(gen_out.alpha_auth_bit_shares.len(), n);
    assert_eq!(gen_out.correlated_auth_bit_shares.len(), n * m);
    assert_eq!(eval_out.correlated_auth_bit_shares.len(), n * m);
}

#[test]
fn test_full_pipeline_no_panic() {
    let n = 4;
    let m = 4;
    let b = bucket_size_for(n, 1);
    let triples = make_triples(n, m, b);
    let (fpre_gen, fpre_eval) = combine_leaky_triples(triples, b, n, m, 1, 99);
    let _gb = AuthTensorGen::new_from_fpre_gen(fpre_gen);
    let _ev = AuthTensorEval::new_from_fpre_eval(fpre_eval);
}

#[test]
fn test_two_to_one_combine_product_invariant() {
    let n = 4;
    let m = 4;
    let triples = make_triples(n, m, 2);
    let t0 = triples[0].clone();
    let combined = two_to_one_combine(t0, &triples[1]);
    for i in 0..n {
        assert!(cross_party_valid(&combined.gb_x_shares[i], &combined.ev_x_shares[i], &combined.delta_gb,
            &combined.delta_ev));
    }
    for j in 0..m {
        assert!(cross_party_valid(&combined.gb_y_shares[j], &combined.ev_y_shares[j], &combined.delta_gb,
            &combined.delta_ev));
    }
    for k in 0..(n * m) {
        assert!(cross_party_valid(&combined.gb_z_shares[k], &combined.ev_z_shares[k], &combined.delta_gb,
            &combined.delta_ev));
    }
    let x_full: Vec<bool> = (0..n).map(|i| combined.gb_x_shares[i].value ^ combined.ev_x_shares[i].value).collect();
    let y_full: Vec<bool> = (0..m).map(|j| combined.gb_y_shares[j].value ^ combined.ev_y_shares[j].value).collect();
    for j in 0..m {
        for i in 0..n {
            let k = j * n + i;
            let z_full = combined.gb_z_shares[k].value ^ combined.ev_z_shares[k].value;
            assert_eq!(z_full, x_full[i] & y_full[j]);
        }
    }
}

#[test]
fn test_combine_full_bucket_product_invariant() {
    let n = 4;
    let m = 4;
    let b = bucket_size_for(n, 1);
    assert_eq!(b, 21);
    let triples = make_triples(n, m, b);
    let (gen_out, eval_out) = combine_leaky_triples(triples, b, n, m, 1, 0);
    assert_eq!(gen_out.alpha_auth_bit_shares.len(), n);
    assert_eq!(gen_out.beta_auth_bit_shares.len(), m);
    assert_eq!(gen_out.correlated_auth_bit_shares.len(), n * m);
    assert_eq!(eval_out.correlated_auth_bit_shares.len(), n * m);
    assert_output_valid(&gen_out, &eval_out, n, m);
}

#[test]
fn test_run_preprocessing_product_invariant_construction_4() {
    let n = 4usize;
    let m = 4usize;
    let b_new = bucket_size_for(n, 1);
    assert_eq!(b_new, 21);
    assert!(b_new < 40);
    let (gen_out, eval_out) = run_preprocessing(n, m, 1);
    assert_eq!(gen_out.alpha_auth_bit_shares.len(), n);
    assert_eq!(gen_out.beta_auth_bit_shares.len(), m);
    assert_eq!(gen_out.correlated_auth_bit_shares.len(), n * m);
    assert_eq!(eval_out.alpha_auth_bit_shares.len(), n);
    assert_eq!(eval_out.beta_auth_bit_shares.len(), m);
    assert_eq!(eval_out.correlated_auth_bit_shares.len(), n * m);
    assert_output_valid(&gen_out, &eval_out, n, m);
}

#[test]
fn combine_with_bytes_counts_the_reveals() {
    let n = 2;
    let m = 9;
    let b = 3;
    let triples = make_triples(n, m, b);
    let ((gen_out, eval_out), bytes) = combine_leaky_triples_with_bytes(triples, b, n, m, 1, 5);
    assert_eq!(bytes, 2 * 2);
    assert_output_valid(&gen_out, &eval_out, n, m);
}

#[test]
fn chunking_factors_agree_after_preprocessing() {
    let (gen_out, eval_out) = IdealPreprocessingBackend.run(4, 3, 2);
    assert_eq!(gen_out.chunking_factor, eval_out.chunking_factor);
    verify_chunking_factor_cross_party(&gen_out, &eval_out);
}

#[test]
fn combine_with_permutations_is_the_fold_of_the_permuted_triples() {
    let n = 3;
    let m = 2;
    let triples = make_triples(n, m, 3);
    let perms: Vec<Vec<usize>> = vec![vec![2, 0, 1], vec![0, 1, 2], vec![1, 2, 0]];
    let mut permuted: Vec<LeakyTriple> = Vec::new();
    for (t, p) in triples.iter().zip(perms.iter()) {
        let mut c = t.clone();
        apply_permutation_to_triple(&mut c, p);
        permuted.push(c);
    }
    let folded = two_to_one_combine(two_to_one_combine(permuted[0].clone(), &permuted[1]), &permuted[2]);
    let (gen_out, eval_out) = combine_with_permutations(triples.clone(), &perms, n, m, 1);
    assert!(slices_eq(&gen_out.alpha_auth_bit_shares, &folded.gb_x_shares));
    assert!(slices_eq(&eval_out.alpha_auth_bit_shares, &folded.ev_x_shares));
    assert!(slices_eq(&gen_out.beta_auth_bit_shares, &triples[0].gb_y_shares));
    assert!(slices_eq(&eval_out.beta_auth_bit_shares, &triples[0].ev_y_shares));
    assert!(slices_eq(&gen_out.correlated_auth_bit_shares, &folded.gb_z_shares));
    assert!(slices_eq(&eval_out.correlated_auth_bit_shares, &folded.ev_z_shares));
    // x_0 of the fold is the XOR of row π_t(0) of every triple.
    let x0 = triples[0].gb_x_shares[2].add_share(&triples[1].gb_x_shares[0]).add_share(&triples[2].gb_x_shares[1]);
    assert!(shares_eq(&gen_out.alpha_auth_bit_shares[0], &x0));
    assert_output_valid(&gen_out, &eval_out, n, m);
}

#[test]
fn combine_with_one_triple_is_that_triple_permuted() {
    let n = 3;
    let m = 2;
    let triples = make_triples(n, m, 1);
    let perms: Vec<Vec<usize>> = vec![vec![1, 2, 0]];
    let mut permuted = triples[0].clone();
    apply_permutation_to_triple(&mut permuted, &perms[0]);
    let (gen_out, eval_out) = combine_with_permutations(triples, &perms, n, m, 2);
    assert!(slices_eq(&gen_out.alpha_auth_bit_shares, &permuted.gb_x_shares));
    assert!(slices_eq(&eval_out.correlated_auth_bit_shares, &permuted.ev_z_shares));
    assert_eq!(gen_out.chunking_factor, 2);
    assert_eq!(eval_out.chunking_factor, 2);
}

#[test]
fn preprocess_bucket_gives_a_valid_lowered_pair() {
    let n = 4;
    let m = 3;
    let bcot = IdealBCot::new(0, 1);
    let mut bcot = bcot;
    let mut triples = Vec::new();
    for t in 0..3u64 {
        let mut ltp = LeakyTensorPre::new(t + 2, n, m, 1, bcot);
        triples.push(ltp.generate());
        bcot = ltp.bcot;
    }
    let (gen_out, eval_out) = preprocess_bucket(triples, n, m, 1);
    assert_output_valid(&gen_out, &eval_out, n, m);
    assert_eq!(gen_out.alpha_dev.len(), n);
    assert_eq!(eval_out.correlated_dgb.len(), n * m);
    assert_eq!(gen_out.gamma_auth_bit_shares.len(), n * m);
}

#[test]
fn combining_checks_only_the_revealed_d() {
    let n = 2;
    let m = 2;
    let mut triples = make_triples(n, m, 2);
    // A corrupted Z share is carried through the fold; only the reveal of d is MAC-checked.
    triples[1].gb_z_shares[0].value = !triples[1].gb_z_shares[0].value;
    let perms: Vec<Vec<usize>> = vec![vec![0, 1], vec![0, 1]];
    let folded = two_to_one_combine(triples[0].clone(), &triples[1]);
    let (gen_out, eval_out) = combine_with_permutations(triples, &perms, n, m, 1);
    assert!(slices_eq(&gen_out.correlated_auth_bit_shares, &folded.gb_z_shares));
    assert!(slices_eq(&eval_out.correlated_auth_bit_shares, &folded.ev_z_shares));
}

#[test]
fn one_seed_gives_one_combination() {
    let n = 4;
    let m = 2;
    let b = 3;
    let triples = make_triples(n, m, b);
    let (g1, e1) = combine_leaky_triples(triples.clone(), b, n, m, 1, 11);
    let ((g2, e2), bytes) = combine_leaky_triples_with_bytes(triples.clone(), b, n, m, 1, 11);
    assert_eq!(bytes, 2);
    assert!(slices_eq(&g1.alpha_auth_bit_shares, &g2.alpha_auth_bit_shares));
    assert!(slices_eq(&e1.alpha_auth_bit_shares, &e2.alpha_auth_bit_shares));
    assert!(slices_eq(&g1.correlated_auth_bit_shares, &g2.correlated_auth_bit_shares));
    assert!(slices_eq(&e1.correlated_auth_bit_shares, &e2.correlated_auth_bit_shares));
    let (g3, _e3) = combine_leaky_triples(triples, b, n, m, 1, 11);
    assert!(slices_eq(&g1.correlated_auth_bit_shares, &g3.correlated_auth_bit_shares));
}

#[test]
fn the_seeded_shuffle_moves_rows() {
    let n = 4;
    let m = 2;
    let b = 2;
    let triples = make_triples(n, m, b);
    let identity: Vec<Vec<usize>> = vec![(0..n).collect(), (0..n).collect()];
    let (g_id, _) = combine_with_permutations(triples.clone(), &identity, n, m, 1);
    let mut moved = false;
    for seed in 0..5u64 {
        let (g, _) = combine_leaky_triples(triples.clone(), b, n, m, 1, seed);
        if !slices_eq(&g.alpha_auth_bit_shares, &g_id.alpha_auth_bit_shares) {
            moved = true;
        }
    }
    assert!(moved, "some seed must permute the rows");
}
