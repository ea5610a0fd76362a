//! The generalized tensor macro: a garbler holding IT-MAC keys `A_i` and an
//! evaluator holding MACs `A_i ⊕ a_i·Δ` of a bit vector `a` turn column
//! vectors `t_gen`, `t_eval` into `n × m` matrices with
//! `Z_gen ⊕ Z_eval = a ⊗ (t_gen ⊕ t_eval)`.

use vstd::prelude::*;
use crate::block::{Block, lsb_of, mul_bool_spec};
use crate::delta::Delta;
use crate::keys::Key;
use crate::macs::Mac;
use crate::aes::{FixedKeyAes, FIXED_KEY};
use crate::matrix::BlockMatrix;
use crate::xor_sum::block_vals;
use crate::tensor_ops::{
    gen_populate_seeds_mem_optimized, eval_populate_seeds_mem_optimized, gen_unary_outer_product,
    eval_unary_outer_product, gen_chunked_outer_product, eval_chunked_outer_product, gen_seeds, eval_seeds,
    eval_missing, gen_z, eval_z, levels_ok, cts_ok, chunked_gen_z, chunked_eval_z, chunk_levels_spec,
    chunk_cts_spec, chunk_count, chunk_len, nested_vals, gen_level_ct, gen_ct, lemma_tensor_gadget, lemma_chunked_product,
    in_rows,
};
use vstd::arithmetic::power2::pow2;

verus! {

/// The values of a sequence of keys.
pub open spec fn key_vals(keys: Seq<Key>) -> Seq<u128> {
    Seq::new(keys.len(), |i: int| keys[i]@)
}

/// The values of a sequence of MACs.
pub open spec fn mac_vals(macs: Seq<Mac>) -> Seq<u128> {
    Seq::new(macs.len(), |i: int| macs[i]@)
}

/// The pointer bits of a sequence of MACs.
pub open spec fn mac_bits(macs: Seq<Mac>) -> Seq<bool> {
    Seq::new(macs.len(), |i: int| lsb_of(macs[i]@))
}

/// The values of an `m × 1` column.
pub open spec fn column_vals(t: BlockMatrix) -> Seq<u128> {
    block_vals(t.elems())
}

/// The garbler's ciphertexts of one tree: `n - 1` level ciphertexts and one
/// leaf ciphertext per output column.
pub struct TensorMacroCiphertexts {
    pub level_cts: Vec<Block>,
    pub leaf_cts: Vec<Block>,
}

/// The garbler's ciphertexts of a chunked macro: per chunk of `cf` rows, the
/// level ciphertexts of its tree and its leaf ciphertexts.
pub struct ChunkedTensorMacroCiphertexts {
    pub level_cts: Vec<Vec<Block>>,
    pub leaf_cts: Vec<Vec<Block>>,
}

/// Garbler side: builds the `2^n`-leaf tree of `a_keys` under `delta`,
/// returns `Z_gen` (`n × m`) and the ciphertexts.
pub fn tensor_garbler(n: usize, m: usize, delta: Delta, a_keys: &[Key], t_gen: &BlockMatrix) -> (r: (
    BlockMatrix,
    TensorMacroCiphertexts,
))
    requires
        a_keys@.len() == n,
        t_gen.wf(),
        t_gen.nrows() == m,
        t_gen.ncols() == 1,
        1 <= n < usize::BITS,
        pow2(n as nat) * m <= usize::MAX,
    ensures
        r.0.wf(),
        r.0.nrows() == n,
        r.0.ncols() == m,
        forall|i: int, j: int| 0 <= i < n && 0 <= j < m ==> #[trigger] r.0.val(i, j) == gen_z(FIXED_KEY, 0,
            gen_seeds(FIXED_KEY, key_vals(a_keys@), delta@), i as nat, j as nat),
        levels_ok(FIXED_KEY, key_vals(a_keys@), delta@, r.1.level_cts@),
        cts_ok(FIXED_KEY, 0, gen_seeds(FIXED_KEY, key_vals(a_keys@), delta@), column_vals(*t_gen), r.1.leaf_cts@),
{
    let cipher = FixedKeyAes::new();
    let a_blocks = Key::as_blocks(a_keys);
    proof {
        assert(block_vals(a_blocks@) =~= key_vals(a_keys@));
        lemma_n_below_pow2(n as nat);
        vstd::arithmetic::mul::lemma_mul_inequality(n as int, pow2(n as nat) as int, m as int);
    }
    let (leaf_seeds, level_cts) = gen_populate_seeds_mem_optimized(a_blocks.as_slice(), &cipher, delta);
    let mut z_gen = BlockMatrix::new(n, m);
    let ghost z0 = z_gen;
    let t_view = t_gen.as_view();
    proof {
        assert(t_view.vec_vals() =~= column_vals(*t_gen));
    }
    let leaf_cts = gen_unary_outer_product(leaf_seeds.as_slice(), &t_view, &mut z_gen, 0, n, &cipher);
    proof {
        assert forall|i: int, j: int| 0 <= i < n && 0 <= j < m implies #[trigger] z_gen.val(i, j) == gen_z(
            FIXED_KEY, 0, gen_seeds(FIXED_KEY, key_vals(a_keys@), delta@), i as nat, j as nat) by {
            assert(in_rows(0, n as int, i));
            assert(z0.val(i, j) == 0);
            crate::block::lemma_xor_zero(gen_z(FIXED_KEY, 0, gen_seeds(FIXED_KEY, key_vals(a_keys@), delta@), i as nat,
                j as nat));
        }
        assert(leaf_cts@.len() == column_vals(*t_gen).len());
    }
    (z_gen, TensorMacroCiphertexts { level_cts, leaf_cts })
}

/// `n < 2^n`.
proof fn lemma_n_below_pow2(n: nat)
    ensures
        n < pow2(n),
    decreases n,
{
    vstd::arithmetic::power2::lemma_pow2_unfold(n + 1);
    if n == 0 {
        vstd::arithmetic::power2::lemma2_to64();
    } else {
        lemma_n_below_pow2((n - 1) as nat);
        vstd::arithmetic::power2::lemma_pow2_unfold(n);
    }
}

/// Evaluator side: rebuilds the tree from its MACs (their pointer bits are the
/// choice bits) and the garbler's ciphertexts, and returns `Z_eval`.
pub fn tensor_evaluator(n: usize, m: usize, g: &TensorMacroCiphertexts, a_macs: &[Mac], t_eval: &BlockMatrix) -> (r:
    BlockMatrix)
    requires
        a_macs@.len() == n,
        t_eval.wf(),
        t_eval.nrows() == m,
        t_eval.ncols() == 1,
        g.level_cts@.len() + 1 == n,
        g.leaf_cts@.len() == m,
        1 <= n < usize::BITS,
        pow2(n as nat) * m <= usize::MAX,
    ensures
        r.wf(),
        r.nrows() == n,
        r.ncols() == m,
        forall|i: int, j: int| 0 <= i < n && 0 <= j < m ==> #[trigger] r.val(i, j) == eval_z(FIXED_KEY, 0,
            eval_seeds(FIXED_KEY, mac_vals(a_macs@), mac_bits(a_macs@), block_vals(g.level_cts@)),
            eval_missing(mac_bits(a_macs@), (n - 1) as nat), block_vals(g.leaf_cts@), column_vals(*t_eval),
            i as nat, j as nat),
{
    let cipher = FixedKeyAes::new();
    let a_blocks = Mac::as_blocks(a_macs);
    let mut bits: Vec<bool> = Vec::with_capacity(n);
    let mut k: usize = 0;
    while k < n
        invariant
            k <= n,
            a_blocks@.len() == n,
            a_macs@.len() == n,
            forall|t: int| 0 <= t < n ==> (#[trigger] a_blocks@[t])@ == a_macs@[t]@,
            bits@ == mac_bits(a_macs@).subrange(0, k as int),
        decreases n - k,
    {
        bits.push(a_blocks[k].lsb());
        k = k + 1;
    }
    proof {
        assert(bits@ =~= mac_bits(a_macs@));
        assert(block_vals(a_blocks@) =~= mac_vals(a_macs@));
        lemma_n_below_pow2(n as nat);
        vstd::arithmetic::mul::lemma_mul_inequality(n as int, pow2(n as nat) as int, m as int);
    }
    let (leaf_seeds, missing) = eval_populate_seeds_mem_optimized(a_blocks.as_slice(), bits.as_slice(),
        g.level_cts.as_slice(), &cipher);
    let mut z_eval = BlockMatrix::new(n, m);
    let ghost z0 = z_eval;
    let t_view = t_eval.as_view();
    proof {
        assert(t_view.vec_vals() =~= column_vals(*t_eval));
        lemma_missing_below(bits@, (n - 1) as nat);
    }
    let _recovered = eval_unary_outer_product(leaf_seeds.as_slice(), &t_view, &mut z_eval, 0, n, &cipher, missing,
        g.leaf_cts.as_slice());
    proof {
        assert forall|i: int, j: int| 0 <= i < n && 0 <= j < m implies #[trigger] z_eval.val(i, j) == eval_z(
            FIXED_KEY, 0, eval_seeds(FIXED_KEY, mac_vals(a_macs@), mac_bits(a_macs@), block_vals(g.level_cts@)),
            eval_missing(mac_bits(a_macs@), (n - 1) as nat), block_vals(g.leaf_cts@), column_vals(*t_eval),
            i as nat, j as nat) by {
            assert(in_rows(0, n as int, i));
            assert(z0.val(i, j) == 0);
            crate::block::lemma_xor_zero(eval_z(FIXED_KEY, 0, eval_seeds(FIXED_KEY, mac_vals(a_macs@), mac_bits(a_macs@),
                block_vals(g.level_cts@)), eval_missing(mac_bits(a_macs@), (n - 1) as nat), block_vals(g.leaf_cts@),
                column_vals(*t_eval), i as nat, j as nat));
        }
    }
    z_eval
}

/// The missing leaf lies in the tree.
proof fn lemma_missing_below(a: Seq<bool>, top: nat)
    requires
        a.len() == top + 1,
    ensures
        eval_missing(a, top) < pow2(top + 1),
{
    crate::tensor_ops::lemma_eval_missing_bits(a, top);
}

/// Correctness of the macro: when the evaluator's MACs are the garbler's keys
/// shifted by `a·Δ` with `Δ`'s pointer bit 1 and the keys' pointer bits 0, the
/// two output matrices XOR to `a ⊗ (t_gen ⊕ t_eval)`.
pub proof fn lemma_tensor_macro(
    keys: Seq<Key>,
    macs: Seq<Mac>,
    a: Seq<bool>,
    delta: u128,
    levels: Seq<Block>,
    cts: Seq<Block>,
    tg: Seq<u128>,
    te: Seq<u128>,
    i: nat,
    j: nat,
)
    requires
        1 <= keys.len(),
        macs.len() == keys.len(),
        a.len() == keys.len(),
        lsb_of(delta),
        forall|t: int| 0 <= t < keys.len() ==> !lsb_of((#[trigger] keys[t])@),
        forall|t: int| 0 <= t < keys.len() ==> (#[trigger] macs[t])@ == keys[t]@ ^ mul_bool_spec(delta, a[t]),
        levels_ok(FIXED_KEY, key_vals(keys), delta, levels),
        cts_ok(FIXED_KEY, 0, gen_seeds(FIXED_KEY, key_vals(keys), delta), tg, cts),
        te.len() == tg.len(),
        i < keys.len(),
        j < tg.len(),
    ensures
        mac_bits(macs) == a,
        gen_z(FIXED_KEY, 0, gen_seeds(FIXED_KEY, key_vals(keys), delta), i, j) ^ eval_z(FIXED_KEY, 0,
            eval_seeds(FIXED_KEY, mac_vals(macs), mac_bits(macs), block_vals(levels)),
            eval_missing(mac_bits(macs), (keys.len() - 1) as nat), block_vals(cts), te, i, j)
            == mul_bool_spec(tg[j as int] ^ te[j as int], a[i as int]),
{
    assert forall|t: int| 0 <= t < keys.len() implies #[trigger] mac_bits(macs)[t] == a[t] by {
        crate::block::lemma_lsb_mul_bool(delta, a[t]);
        crate::block::lemma_lsb_xor(keys[t]@, mul_bool_spec(delta, a[t]));
    }
    assert(mac_bits(macs) =~= a);
    let x = key_vals(keys);
    let mx = mac_vals(macs);
    assert forall|t: int| 0 <= t < x.len() implies #[trigger] mx[t] == x[t] ^ mul_bool_spec(delta, a[t]) by {
        assert(macs[t]@ == keys[t]@ ^ mul_bool_spec(delta, a[t]));
    }
    assert forall|l: int| 0 <= l < block_vals(levels).len() implies #[trigger] block_vals(levels)[l]
        == gen_level_ct(FIXED_KEY, x, delta, (l + 1) as nat) by {
        assert(levels[l]@ == gen_level_ct(FIXED_KEY, x, delta, (l + 1) as nat));
    }
    assert(block_vals(cts)[j as int] == gen_ct(FIXED_KEY, 0, gen_seeds(FIXED_KEY, x, delta), tg, j)) by {
        assert(cts[j as int]@ == gen_ct(FIXED_KEY, 0, gen_seeds(FIXED_KEY, x, delta), tg, j));
    }
    lemma_tensor_gadget(FIXED_KEY, 0, x, mx, a, delta, block_vals(levels), block_vals(cts), tg, te, i, j);
}

/// Chunked garbler side: the rows of `a_keys` are cut into chunks of `cf`,
/// one tree per chunk.
pub fn chunked_tensor_garbler(
    n: usize,
    m: usize,
    chunking_factor: usize,
    delta: Delta,
    a_keys: &[Key],
    t_gen: &BlockMatrix,
) -> (r: (BlockMatrix, ChunkedTensorMacroCiphertexts))
    requires
        a_keys@.len() == n,
        t_gen.wf(),
        t_gen.nrows() == m,
        t_gen.ncols() == 1,
        1 <= chunking_factor < usize::BITS,
        n + chunking_factor <= usize::MAX,
        n * m <= usize::MAX,
        pow2(chunking_factor as nat) * m <= usize::MAX,
    ensures
        r.0.wf(),
        r.0.nrows() == n,
        r.0.ncols() == m,
        forall|i: int, j: int| 0 <= i < n && 0 <= j < m ==> #[trigger] r.0.val(i, j) == chunked_gen_z(FIXED_KEY, 0,
            key_vals(a_keys@), delta@, chunking_factor as nat, i as nat, j as nat),
        nested_vals(r.1.level_cts@) == chunk_levels_spec(FIXED_KEY, key_vals(a_keys@), delta@, chunking_factor as nat),
        nested_vals(r.1.leaf_cts@) == chunk_cts_spec(FIXED_KEY, 0, key_vals(a_keys@), delta@,
            chunking_factor as nat, column_vals(*t_gen)),
        r.1.level_cts@.len() == chunk_count(n as nat, chunking_factor as nat),
        r.1.leaf_cts@.len() == chunk_count(n as nat, chunking_factor as nat),
        forall|s: int| 0 <= s < r.1.level_cts@.len() ==>
            (#[trigger] r.1.level_cts@[s])@.len() + 1 == chunk_len(n as nat, chunking_factor as nat, s as nat),
        forall|s: int| 0 <= s < r.1.leaf_cts@.len() ==> (#[trigger] r.1.leaf_cts@[s])@.len() == m,
{
    let cipher = FixedKeyAes::new();
    let a_blocks = Key::as_blocks(a_keys);
    let x_mat = BlockMatrix::from_column(a_blocks.as_slice());
    let x_view = x_mat.as_view();
    let t_view = t_gen.as_view();
    let mut z_gen = BlockMatrix::new(n, m);
    let ghost z0 = z_gen;
    proof {
        assert(x_view.vec_vals() =~= key_vals(a_keys@));
        assert(t_view.vec_vals() =~= column_vals(*t_gen));
    }
    let (level_cts, leaf_cts) = gen_chunked_outer_product(&x_view, &t_view, &mut z_gen, chunking_factor, &cipher,
        delta);
    proof {
        assert forall|i: int, j: int| 0 <= i < n && 0 <= j < m implies #[trigger] z_gen.val(i, j) == chunked_gen_z(
            FIXED_KEY, 0, key_vals(a_keys@), delta@, chunking_factor as nat, i as nat, j as nat) by {
            assert(z0.val(i, j) == 0);
            crate::block::lemma_xor_zero(chunked_gen_z(FIXED_KEY, 0, key_vals(a_keys@), delta@, chunking_factor as nat,
                i as nat, j as nat));
        }
        assert forall|s: int| 0 <= s < level_cts@.len() implies (#[trigger] level_cts@[s])@.len() + 1 == chunk_len(
            n as nat, chunking_factor as nat, s as nat) by {
            crate::tensor_ops::lemma_chunk_rows(n as nat, chunking_factor as nat, s as nat);
        }
    }
    (z_gen, ChunkedTensorMacroCiphertexts { level_cts, leaf_cts })
}

/// Chunked evaluator side, with the choice bits given explicitly (the MACs'
/// pointer bits carry them only when `Δ`'s pointer bit is 1).
pub fn chunked_tensor_evaluator(
    n: usize,
    m: usize,
    chunking_factor: usize,
    g: &ChunkedTensorMacroCiphertexts,
    a_macs: &[Mac],
    a_bits: &[bool],
    t_eval: &BlockMatrix,
) -> (r: BlockMatrix)
    requires
        a_macs@.len() == n,
        a_bits@.len() == n,
        t_eval.wf(),
        t_eval.nrows() == m,
        t_eval.ncols() == 1,
        1 <= chunking_factor < usize::BITS,
        n + chunking_factor <= usize::MAX,
        n * m <= usize::MAX,
        pow2(chunking_factor as nat) * m <= usize::MAX,
        g.level_cts@.len() == chunk_count(n as nat, chunking_factor as nat),
        g.leaf_cts@.len() == chunk_count(n as nat, chunking_factor as nat),
        forall|s: int| 0 <= s < g.level_cts@.len() ==>
            (#[trigger] g.level_cts@[s])@.len() + 1 == chunk_len(n as nat, chunking_factor as nat, s as nat),
        forall|s: int| 0 <= s < g.leaf_cts@.len() ==> (#[trigger] g.leaf_cts@[s])@.len() == m,
    ensures
        r.wf(),
        r.nrows() == n,
        r.ncols() == m,
        forall|i: int, j: int| 0 <= i < n && 0 <= j < m ==> #[trigger] r.val(i, j) == chunked_eval_z(FIXED_KEY, 0,
            mac_vals(a_macs@), a_bits@, nested_vals(g.level_cts@), nested_vals(g.leaf_cts@), column_vals(*t_eval),
            chunking_factor as nat, i as nat, j as nat),
{
    let cipher = FixedKeyAes::new();
    let a_blocks = Mac::as_blocks(a_macs);
    let x_mat = BlockMatrix::from_column(a_blocks.as_slice());
    let x_view = x_mat.as_view();
    let t_view = t_eval.as_view();
    let mut z_eval = BlockMatrix::new(n, m);
    let ghost z0 = z_eval;
    proof {
        assert(x_view.vec_vals() =~= mac_vals(a_macs@));
        assert(t_view.vec_vals() =~= column_vals(*t_eval));
    }
    eval_chunked_outer_product(&x_view, &t_view, a_bits, &mut z_eval, chunking_factor, &cipher,
        g.level_cts.as_slice(), g.leaf_cts.as_slice());
    proof {
        assert forall|i: int, j: int| 0 <= i < n && 0 <= j < m implies #[trigger] z_eval.val(i, j) == chunked_eval_z(
            FIXED_KEY, 0, mac_vals(a_macs@), a_bits@, nested_vals(g.level_cts@), nested_vals(g.leaf_cts@),
            column_vals(*t_eval), chunking_factor as nat, i as nat, j as nat) by {
            assert(z0.val(i, j) == 0);
            crate::block::lemma_xor_zero(chunked_eval_z(FIXED_KEY, 0, mac_vals(a_macs@), a_bits@,
                nested_vals(g.level_cts@), nested_vals(g.leaf_cts@), column_vals(*t_eval), chunking_factor as nat,
                i as nat, j as nat));
        }
    }
    z_eval
}

/// Correctness of the chunked macro: when the evaluator's MACs are the
/// garbler's keys shifted by `a·Δ`, entry `(i, j)` of the two outputs XORs
/// to `a_i · (t_gen[j] ⊕ t_eval[j])`.
pub proof fn lemma_chunked_tensor_macro(
    keys: Seq<Key>,
    macs: Seq<Mac>,
    a: Seq<bool>,
    delta: u128,
    cf: nat,
    tg: Seq<u128>,
    te: Seq<u128>,
    i: nat,
    j: nat,
)
    requires
        cf > 0,
        macs.len() == keys.len(),
        a.len() == keys.len(),
        forall|t: int| 0 <= t < keys.len() ==> (#[trigger] macs[t])@ == keys[t]@ ^ mul_bool_spec(delta, a[t]),
        te.len() == tg.len(),
        i < keys.len(),
        j < tg.len(),
    ensures
        chunked_gen_z(FIXED_KEY, 0, key_vals(keys), delta, cf, i, j) ^ chunked_eval_z(FIXED_KEY, 0, mac_vals(macs), a,
            chunk_levels_spec(FIXED_KEY, key_vals(keys), delta, cf), chunk_cts_spec(FIXED_KEY, 0, key_vals(keys),
            delta, cf, tg), te, cf, i, j) == mul_bool_spec(tg[j as int] ^ te[j as int], a[i as int]),
{
    let x = key_vals(keys);
    let mx = mac_vals(macs);
    assert forall|t: int| 0 <= t < x.len() implies #[trigger] mx[t] == x[t] ^ mul_bool_spec(delta, a[t]) by {
        assert(macs[t]@ == keys[t]@ ^ mul_bool_spec(delta, a[t]));
    }
    lemma_chunked_product(FIXED_KEY, 0, x, mx, a, delta, cf, tg, te, i, j);
}

} // verus!
