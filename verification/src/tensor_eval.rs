//! The evaluator of the semi-honest tensor gate.

use vstd::prelude::*;
use crate::block::{Block, lsb_of};
use crate::aes::{FixedKeyAes, FIXED_KEY};
use crate::matrix::{BlockMatrix, MatrixViewRef};
use crate::tensor_pre::{
    SemiHonestTensorPre, SemiHonestTensorPreGen, SemiHonestTensorPreEval, inputs_dealt, masks_dealt, inputs_masked,
    dealer_split, label_ok, mask_ok, masked_sharing,
};
use crate::input_encoding::{input_bit, input_bits};
use crate::aes::FIXED_KEY as FIXED_AES_KEY;
use crate::tensor_ops::{eval_chunked_outer_product, chunked_eval_z, chunked_gen_z, chunk_levels_spec, chunk_cts_spec,
    lemma_chunked_product, nested_vals};
use crate::tensor_gen::{cross_entry, xor_vals, TensorProductGen};
use crate::block::{mul_bool_spec, lemma_lsb_xor, lemma_lsb_mul_bool, lemma_mul_bool_xor, lemma_xor_regroup,
    lemma_xor_regroup6, lemma_xor_self, lemma_xor_zero, lemma_xor_laws};
use crate::auth_tensor_gen::{online_params_ok, fold_final};
use crate::auth_tensor_eval::{chunk_shapes_ok, nested_lens};
use crate::xor_sum::block_vals;

verus! {

broadcast use crate::block::group_xor;

/// The semi-honest evaluator's state for one `n × m` tensor gate. Its α and
/// β shares are zero.
pub struct TensorProductEval {
    pub cipher: FixedKeyAes,
    pub chunking_factor: usize,
    pub n: usize,
    pub m: usize,
    pub x_labels: Vec<Block>,
    pub y_labels: Vec<Block>,
    pub alpha_labels: BlockMatrix,
    pub beta_labels: BlockMatrix,
    pub first_half_out: BlockMatrix,
    pub second_half_out: BlockMatrix,
}

/// The pointer bits of the rows of a column view: the evaluator's choice bits.
pub open spec fn view_bits(x: MatrixViewRef<Block>) -> Seq<bool> {
    Seq::new(x.view_rows as nat, |i: int| lsb_of(x.vec_vals()[i]))
}

impl TensorProductEval {
    /// The accumulators and the zero mask matrices have the tensor gate's shapes, and
    /// the label vectors their lengths.
    pub open spec fn shapes_ok(&self) -> bool {
        &&& self.first_half_out.wf()
        &&& self.first_half_out.nrows() == self.n
        &&& self.first_half_out.ncols() == self.m
        &&& self.second_half_out.wf()
        &&& self.second_half_out.nrows() == self.m
        &&& self.second_half_out.ncols() == self.n
        &&& self.alpha_labels.wf()
        &&& self.alpha_labels.nrows() == self.n
        &&& self.alpha_labels.ncols() == 1
        &&& self.beta_labels.wf()
        &&& self.beta_labels.nrows() == self.m
        &&& self.beta_labels.ncols() == 1
        &&& self.x_labels@.len() == self.n
        &&& self.y_labels@.len() == self.m
    }

    /// Everything but the accumulators agrees.
    pub open spec fn same_labels(&self, other: &TensorProductEval) -> bool {
        &&& self.cipher == other.cipher
        &&& self.chunking_factor == other.chunking_factor
        &&& self.n == other.n
        &&& self.m == other.m
        &&& self.x_labels == other.x_labels
        &&& self.y_labels == other.y_labels
        &&& self.alpha_labels == other.alpha_labels
        &&& self.beta_labels == other.beta_labels
    }

    /// An evaluator over the dealer's evaluator half: zero masks and zero
    /// accumulators.
    pub fn new(tensor_eval: SemiHonestTensorPreEval) -> (r: TensorProductEval)
        requires
            tensor_eval.n * tensor_eval.m <= usize::MAX,
        ensures
            r.n == tensor_eval.n,
            r.m == tensor_eval.m,
            r.chunking_factor == tensor_eval.chunking_factor,
            r.cipher.key_spec() == FIXED_KEY,
            r.x_labels == tensor_eval.x_labels,
            r.y_labels == tensor_eval.y_labels,
            r.alpha_labels.wf(),
            r.alpha_labels.nrows() == tensor_eval.n,
            r.alpha_labels.ncols() == 1,
            r.alpha_labels.is_zero(),
            r.beta_labels.wf(),
            r.beta_labels.nrows() == tensor_eval.m,
            r.beta_labels.ncols() == 1,
            r.beta_labels.is_zero(),
            r.first_half_out.wf(),
            r.first_half_out.nrows() == tensor_eval.n,
            r.first_half_out.ncols() == tensor_eval.m,
            r.first_half_out.is_zero(),
            r.second_half_out.wf(),
            r.second_half_out.nrows() == tensor_eval.m,
            r.second_half_out.ncols() == tensor_eval.n,
            r.second_half_out.is_zero(),
    {
        Self::new_from_fpre_eval(tensor_eval)
    }

    /// An evaluator over the dealer's evaluator half (see [`Self::new`]).
    pub fn new_from_fpre_eval(fpre_eval: SemiHonestTensorPreEval) -> (r: TensorProductEval)
        requires
            fpre_eval.n * fpre_eval.m <= usize::MAX,
        ensures
            r.n == fpre_eval.n,
            r.m == fpre_eval.m,
            r.chunking_factor == fpre_eval.chunking_factor,
            r.cipher.key_spec() == FIXED_KEY,
            r.x_labels == fpre_eval.x_labels,
            r.y_labels == fpre_eval.y_labels,
            r.alpha_labels.wf(),
            r.alpha_labels.nrows() == fpre_eval.n,
            r.alpha_labels.ncols() == 1,
            r.alpha_labels.is_zero(),
            r.beta_labels.wf(),
            r.beta_labels.nrows() == fpre_eval.m,
            r.beta_labels.ncols() == 1,
            r.beta_labels.is_zero(),
            r.first_half_out.wf(),
            r.first_half_out.nrows() == fpre_eval.n,
            r.first_half_out.ncols() == fpre_eval.m,
            r.first_half_out.is_zero(),
            r.second_half_out.wf(),
            r.second_half_out.nrows() == fpre_eval.m,
            r.second_half_out.ncols() == fpre_eval.n,
            r.second_half_out.is_zero(),
            semi_honest_eval_from_fpre(fpre_eval, r),
    {
        let n = fpre_eval.n;
        let m = fpre_eval.m;
        proof {
            assert(m * n == n * m) by (nonlinear_arith);
            assert(n * 1 <= n * m || m == 0) by (nonlinear_arith);
        }
        let alpha_labels = BlockMatrix::new(n, 1);
        let beta_labels = BlockMatrix::new(m, 1);
        TensorProductEval {
            cipher: FixedKeyAes::new(),
            chunking_factor: fpre_eval.chunking_factor,
            n,
            m,
            x_labels: fpre_eval.x_labels,
            y_labels: fpre_eval.y_labels,
            alpha_labels,
            beta_labels,
            first_half_out: BlockMatrix::new(n, m),
            second_half_out: BlockMatrix::new(m, n),
        }
    }

    /// One half of the tensor gate: the evaluator walks the trees of `x` by the
    /// pointer bits of its `x` labels and expands against `y` into the first
    /// (`n × m`) or the second (`m × n`) accumulator.
    fn eval_chunked_half_outer_product(
        &mut self,
        x: &MatrixViewRef<Block>,
        y: &MatrixViewRef<Block>,
        chunk_levels: Vec<Vec<Block>>,
        chunk_cts: Vec<Vec<Block>>,
        first_half: bool,
    )
        requires
            online_params_ok(old(self).n, old(self).m, old(self).chunking_factor),
            old(self).shapes_ok(),
            x.vec_ok(),
            y.vec_ok(),
            x.view_rows == if first_half { old(self).n } else { old(self).m },
            y.view_rows == if first_half { old(self).m } else { old(self).n },
            chunk_shapes_ok(chunk_levels@, nested_lens(chunk_cts@), x.view_rows as nat,
                old(self).chunking_factor as nat, y.view_rows as nat),
        ensures
            final(self).same_labels(&*old(self)),
            final(self).shapes_ok(),
            first_half ==> final(self).second_half_out == old(self).second_half_out,
            !first_half ==> final(self).first_half_out == old(self).first_half_out,
            first_half ==> forall|rr: int, c: int| 0 <= rr < x.view_rows && 0 <= c < y.view_rows ==>
                #[trigger] final(self).first_half_out.val(rr, c) == old(self).first_half_out.val(rr, c)
                    ^ chunked_eval_z(old(self).cipher.key_spec(), 0, x.vec_vals(), view_bits(*x),
                        nested_vals(chunk_levels@), nested_vals(chunk_cts@), y.vec_vals(),
                        old(self).chunking_factor as nat, rr as nat, c as nat),
            !first_half ==> forall|rr: int, c: int| 0 <= rr < x.view_rows && 0 <= c < y.view_rows ==>
                #[trigger] final(self).second_half_out.val(rr, c) == old(self).second_half_out.val(rr, c)
                    ^ chunked_eval_z(old(self).cipher.key_spec(), 0, x.vec_vals(), view_bits(*x),
                        nested_vals(chunk_levels@), nested_vals(chunk_cts@), y.vec_vals(),
                        old(self).chunking_factor as nat, rr as nat, c as nat),
    {
        let cf = self.chunking_factor;
        let cipher = self.cipher;
        let rows = x.view_rows;
        let mut bits: Vec<bool> = Vec::with_capacity(rows);
        let mut i: usize = 0;
        while i < rows
            invariant
                i <= rows,
                rows == x.view_rows,
                x.vec_ok(),
                bits@ == view_bits(*x).subrange(0, i as int),
            decreases rows - i,
        {
            bits.push(x.get_vec(i).lsb());
            i = i + 1;
        }
        proof {
            assert(bits@ =~= view_bits(*x));
            assert forall|s: int| 0 <= s < chunk_cts@.len() implies (#[trigger] chunk_cts@[s])@.len() == y.view_rows by {
                assert(nested_lens(chunk_cts@)[s] == chunk_cts@[s]@.len());
            }
        }
        if first_half {
            eval_chunked_outer_product(x, y, bits.as_slice(), &mut self.first_half_out, cf, &cipher,
                chunk_levels.as_slice(), chunk_cts.as_slice());
        } else {
            eval_chunked_outer_product(x, y, bits.as_slice(), &mut self.second_half_out, cf, &cipher,
                chunk_levels.as_slice(), chunk_cts.as_slice());
        }
    }

    /// The evaluator's inputs to the first half: its `x` labels against its
    /// `y` labels.
    pub fn get_first_inputs(&self) -> (r: (BlockMatrix, BlockMatrix))
        requires
            self.x_labels@.len() == self.n,
            self.y_labels@.len() == self.m,
        ensures
            r.0.wf(),
            r.1.wf(),
            r.0.nrows() == self.n,
            r.0.ncols() == 1,
            r.1.nrows() == self.m,
            r.1.ncols() == 1,
            r.0.elems() == self.x_labels@,
            r.1.elems() == self.y_labels@,
    {
        (BlockMatrix::from_column(self.x_labels.as_slice()), BlockMatrix::from_column(self.y_labels.as_slice()))
    }

    /// The evaluator's inputs to the second half: its `y` labels against its
    /// (zero) α shares.
    pub fn get_second_inputs(&self) -> (r: (BlockMatrix, BlockMatrix))
        requires
            self.y_labels@.len() == self.m,
        ensures
            r.0.wf(),
            r.0.nrows() == self.m,
            r.0.ncols() == 1,
            r.0.elems() == self.y_labels@,
            r.1.nrows() == self.alpha_labels.nrows(),
            r.1.ncols() == self.alpha_labels.ncols(),
            r.1.elems() == self.alpha_labels.elems(),
    {
        (BlockMatrix::from_column(self.y_labels.as_slice()), self.alpha_labels.duplicate())
    }

    /// Evaluates the first half against the garbler's ciphertexts.
    pub fn evaluate_first_half_outer_product(&mut self, chunk_levels: Vec<Vec<Block>>, chunk_cts: Vec<Vec<Block>>)
        requires
            online_params_ok(old(self).n, old(self).m, old(self).chunking_factor),
            old(self).shapes_ok(),
            chunk_shapes_ok(chunk_levels@, nested_lens(chunk_cts@), old(self).n as nat,
                old(self).chunking_factor as nat, old(self).m as nat),
        ensures
            semi_honest_eval_first_half_step(*old(self), *final(self), chunk_levels@, chunk_cts@),
            final(self).same_labels(&*old(self)),
            final(self).shapes_ok(),
            final(self).second_half_out == old(self).second_half_out,
            forall|rr: int, c: int| 0 <= rr < old(self).n && 0 <= c < old(self).m ==>
                #[trigger] final(self).first_half_out.val(rr, c) == old(self).first_half_out.val(rr, c)
                    ^ chunked_eval_z(old(self).cipher.key_spec(), 0, block_vals(old(self).x_labels@),
                        Seq::new(old(self).n as nat, |i: int| lsb_of(old(self).x_labels@[i]@)),
                        nested_vals(chunk_levels@), nested_vals(chunk_cts@), block_vals(old(self).y_labels@),
                        old(self).chunking_factor as nat, rr as nat, c as nat),
    {
        let (x, y) = self.get_first_inputs();
        let xv = x.as_view();
        let yv = y.as_view();
        proof {
            assert(xv.vec_vals() =~= block_vals(self.x_labels@));
            assert(yv.vec_vals() =~= block_vals(self.y_labels@));
            assert(view_bits(xv) =~= Seq::new(self.n as nat, |i: int| lsb_of(self.x_labels@[i]@)));
        }
        self.eval_chunked_half_outer_product(&xv, &yv, chunk_levels, chunk_cts, true);
    }

    /// Evaluates the second half against the garbler's ciphertexts.
    pub fn evaluate_second_half_outer_product(&mut self, chunk_levels: Vec<Vec<Block>>, chunk_cts: Vec<Vec<Block>>)
        requires
            online_params_ok(old(self).n, old(self).m, old(self).chunking_factor),
            old(self).shapes_ok(),
            chunk_shapes_ok(chunk_levels@, nested_lens(chunk_cts@), old(self).m as nat,
                old(self).chunking_factor as nat, old(self).n as nat),
        ensures
            semi_honest_eval_second_half_step(*old(self), *final(self), chunk_levels@, chunk_cts@),
            final(self).same_labels(&*old(self)),
            final(self).shapes_ok(),
            final(self).first_half_out == old(self).first_half_out,
            forall|rr: int, c: int| 0 <= rr < old(self).m && 0 <= c < old(self).n ==>
                #[trigger] final(self).second_half_out.val(rr, c) == old(self).second_half_out.val(rr, c)
                    ^ chunked_eval_z(old(self).cipher.key_spec(), 0, block_vals(old(self).y_labels@),
                        Seq::new(old(self).m as nat, |j: int| lsb_of(old(self).y_labels@[j]@)),
                        nested_vals(chunk_levels@), nested_vals(chunk_cts@),
                        block_vals(old(self).alpha_labels.elems()), old(self).chunking_factor as nat, rr as nat,
                        c as nat),
    {
        let (x, y) = self.get_second_inputs();
        let xv = x.as_view();
        let yv = y.as_view();
        proof {
            assert(xv.vec_vals() =~= block_vals(self.y_labels@));
            assert(yv.vec_vals() =~= block_vals(self.alpha_labels.elems()));
            assert(view_bits(xv) =~= Seq::new(self.m as nat, |j: int| lsb_of(self.y_labels@[j]@)));
        }
        self.eval_chunked_half_outer_product(&xv, &yv, chunk_levels, chunk_cts, false);
    }

    /// Folds the transposed second half into the first accumulator (the
    /// evaluator's `α ⊗ β` share is zero) and returns a copy of it.
    pub fn evaluate_final_outer_product(&mut self) -> (r: BlockMatrix)
        requires
            old(self).shapes_ok(),
            old(self).n * old(self).m <= usize::MAX,
        ensures
            semi_honest_eval_final_step(*old(self), *final(self)),
            final(self).same_labels(&*old(self)),
            final(self).shapes_ok(),
            final(self).second_half_out == old(self).second_half_out,
            forall|i: int, j: int| 0 <= i < old(self).n && 0 <= j < old(self).m ==>
                #[trigger] final(self).first_half_out.val(i, j) == old(self).first_half_out.val(i, j)
                    ^ old(self).second_half_out.val(j, i),
            r.nrows() == final(self).first_half_out.nrows(),
            r.ncols() == final(self).first_half_out.ncols(),
            r.elems() == final(self).first_half_out.elems(),
    {
        let zero = BlockMatrix::new(self.n, self.m);
        let zeros = vstd::slice::slice_to_vec(zero.elements_slice());
        proof {
            assert forall|i: int, j: int| 0 <= i < self.n && 0 <= j < self.m implies #[trigger] zeros@[j * self.n
                + i]@ == 0 by {
                crate::matrix::lemma_flat_bound(i, j, self.n as int, self.m as int);
                assert(zero.val(i, j) == 0);
            }
        }
        let ghost before = self.first_half_out;
        fold_final(&mut self.first_half_out, &self.second_half_out, &zeros, self.n, self.m);
        proof {
            assert forall|i: int, j: int| 0 <= i < self.n && 0 <= j < self.m implies #[trigger] self.first_half_out.val(
                i, j) == before.val(i, j) ^ self.second_half_out.val(j, i) by {
                assert(zeros@[j * self.n + i]@ == 0);
                crate::block::lemma_xor_zero(self.second_half_out.val(j, i));
            }
        }
        self.first_half_out.duplicate()
    }
}


/// The semi-honest garbler's output entry `(i, j)`: its first half (over its
/// masked x labels), its transposed second half (over its masked y labels) and
/// its `α ⊗ β` share, for zero starting accumulators.
pub open spec fn semi_honest_gen_output(
    key: u128,
    delta: u128,
    cf: nat,
    gx: Seq<Block>,
    gy: Seq<Block>,
    alpha: Seq<Block>,
    beta: Seq<Block>,
    i: int,
    j: int,
) -> u128 {
    chunked_gen_z(key, 0, block_vals(gx), delta, cf, i as nat, j as nat) ^ (chunked_gen_z(
        key,
        0,
        block_vals(gy),
        delta,
        cf,
        j as nat,
        i as nat,
    ) ^ cross_entry(alpha, beta, delta, i, j))
}

/// The semi-honest evaluator's output entry `(i, j)` on the garbler's
/// ciphertexts (its masks are zero), for zero starting accumulators.
pub open spec fn semi_honest_eval_output(
    key: u128,
    delta: u128,
    cf: nat,
    gx: Seq<Block>,
    gy: Seq<Block>,
    alpha: Seq<Block>,
    beta: Seq<Block>,
    ex: Seq<Block>,
    ey: Seq<Block>,
    i: int,
    j: int,
) -> u128 {
    chunked_eval_z(key, 0, block_vals(ex), Seq::new(ex.len(), |t: int| lsb_of(ex[t]@)), chunk_levels_spec(
        key,
        block_vals(gx),
        delta,
        cf,
    ), chunk_cts_spec(key, 0, block_vals(gx), delta, cf, xor_vals(gy, beta)), block_vals(ey), cf, i as nat, j as nat)
        ^ chunked_eval_z(key, 0, block_vals(ey), Seq::new(ey.len(), |t: int| lsb_of(ey[t]@)), chunk_levels_spec(
        key,
        block_vals(gy),
        delta,
        cf,
    ), chunk_cts_spec(key, 0, block_vals(gy), delta, cf, block_vals(alpha)), Seq::new(ex.len(), |t: int| 0u128), cf,
        j as nat, i as nat)
}

proof fn lemma_semi_honest_algebra(d: u128, x: bool, y: bool, a: bool, b: bool)
    ensures
        (mul_bool_spec(d, (x != a) && y) ^ mul_bool_spec(d, (y != b) && a)) ^ mul_bool_spec(d, a && b)
            == mul_bool_spec(d, x && y),
{
    lemma_mul_bool_xor(d, (x != a) && y, (y != b) && a);
    lemma_mul_bool_xor(d, ((x != a) && y) != ((y != b) && a), a && b);
}

/// A masked label under `Δ` with pointer bit 1 has the masked bit as its
/// pointer bit.
proof fn lemma_masked_pointer(g: u128, d: u128, b: bool)
    requires
        !lsb_of(g),
        lsb_of(d),
    ensures
        lsb_of(g ^ mul_bool_spec(d, b)) == b,
{
    lemma_lsb_xor(g, mul_bool_spec(d, b));
    lemma_lsb_mul_bool(d, b);
}

/// Correctness of the semi-honest tensor gate: with the garbler's masked
/// labels of pointer bit 0, the evaluator's offset by `(x ⊕ α)·Δ` and
/// `(y ⊕ β)·Δ`, and the garbler holding `α·Δ`, `β·Δ` as its mask shares, the
/// two parties' output entries `(i, j)` reconstruct `x_i·y_j·Δ`.
pub proof fn lemma_semi_honest_output(
    key: u128,
    delta: u128,
    cf: nat,
    gx: Seq<Block>,
    gy: Seq<Block>,
    alpha: Seq<Block>,
    beta: Seq<Block>,
    ex: Seq<Block>,
    ey: Seq<Block>,
    xb: Seq<bool>,
    yb: Seq<bool>,
    ab: Seq<bool>,
    bb: Seq<bool>,
    i: int,
    j: int,
)
    requires
        lsb_of(delta),
        cf > 0,
        gx.len() == ex.len(),
        xb.len() == gx.len(),
        ab.len() == gx.len(),
        alpha.len() == gx.len(),
        gy.len() == ey.len(),
        yb.len() == gy.len(),
        bb.len() == gy.len(),
        beta.len() == gy.len(),
        forall|t: int| 0 <= t < gx.len() ==> !lsb_of(#[trigger] gx[t]@),
        forall|t: int| 0 <= t < gx.len() ==> #[trigger] ex[t]@ == gx[t]@ ^ mul_bool_spec(delta, xb[t] != ab[t]),
        forall|t: int| 0 <= t < gy.len() ==> !lsb_of(#[trigger] gy[t]@),
        forall|t: int| 0 <= t < gy.len() ==> #[trigger] ey[t]@ == gy[t]@ ^ mul_bool_spec(delta, yb[t] != bb[t]),
        forall|t: int| 0 <= t < gx.len() ==> #[trigger] alpha[t]@ == mul_bool_spec(delta, ab[t]),
        forall|t: int| 0 <= t < gy.len() ==> #[trigger] beta[t]@ == mul_bool_spec(delta, bb[t]),
        0 <= i < gx.len(),
        0 <= j < gy.len(),
    ensures
        semi_honest_gen_output(key, delta, cf, gx, gy, alpha, beta, i, j) ^ semi_honest_eval_output(key, delta, cf,
            gx, gy, alpha, beta, ex, ey, i, j) == mul_bool_spec(delta, xb[i] && yb[j]),
{
    let n = gx.len();
    let m = gy.len();
    let ax = Seq::new(n, |t: int| lsb_of(ex[t]@));
    let ay = Seq::new(m, |t: int| lsb_of(ey[t]@));
    assert forall|t: int| 0 <= t < n implies #[trigger] block_vals(ex)[t] == block_vals(gx)[t] ^ mul_bool_spec(
        delta, ax[t]) by {
        lemma_masked_pointer(gx[t]@, delta, xb[t] != ab[t]);
    }
    assert forall|t: int| 0 <= t < m implies #[trigger] block_vals(ey)[t] == block_vals(gy)[t] ^ mul_bool_spec(
        delta, ay[t]) by {
        lemma_masked_pointer(gy[t]@, delta, yb[t] != bb[t]);
    }
    let yg1 = xor_vals(gy, beta);
    let ye1 = block_vals(ey);
    let yg2 = block_vals(alpha);
    let ye2 = Seq::new(n, |t: int| 0u128);
    lemma_chunked_product(key, 0, block_vals(gx), block_vals(ex), ax, delta, cf, yg1, ye1, i as nat, j as nat);
    lemma_chunked_product(key, 0, block_vals(gy), block_vals(ey), ay, delta, cf, yg2, ye2, j as nat, i as nat);
    lemma_masked_pointer(gx[i]@, delta, xb[i] != ab[i]);
    lemma_masked_pointer(gy[j]@, delta, yb[j] != bb[j]);
    // The first half's y difference: `(y ⊕ β)·Δ ⊕ β·Δ = y·Δ`.
    let py = mul_bool_spec(delta, yb[j] != bb[j]);
    let pb = mul_bool_spec(delta, bb[j]);
    lemma_xor_regroup(gy[j]@, pb, gy[j]@, py);
    lemma_xor_self(gy[j]@);
    lemma_xor_zero(pb ^ py);
    lemma_mul_bool_xor(delta, bb[j], yb[j] != bb[j]);
    assert(yg1[j as int] ^ ye1[j as int] == mul_bool_spec(delta, yb[j]));
    lemma_xor_zero(alpha[i]@);
    assert(yg2[i as int] ^ ye2[i as int] == mul_bool_spec(delta, ab[i]));
    lemma_lsb_mul_bool(delta, true);
    assert(delta != 0) by {
        lemma_lsb_mul_bool(0u128, false);
    }
    assert(cross_entry(alpha, beta, delta, i, j) == mul_bool_spec(delta, ab[i] && bb[j]));
    let z1g = chunked_gen_z(key, 0, block_vals(gx), delta, cf, i as nat, j as nat);
    let z2g = chunked_gen_z(key, 0, block_vals(gy), delta, cf, j as nat, i as nat);
    let z1e = chunked_eval_z(key, 0, block_vals(ex), ax, chunk_levels_spec(key, block_vals(gx), delta, cf),
        chunk_cts_spec(key, 0, block_vals(gx), delta, cf, yg1), ye1, cf, i as nat, j as nat);
    let z2e = chunked_eval_z(key, 0, block_vals(ey), ay, chunk_levels_spec(key, block_vals(gy), delta, cf),
        chunk_cts_spec(key, 0, block_vals(gy), delta, cf, yg2), ye2, cf, j as nat, i as nat);
    let c = cross_entry(alpha, beta, delta, i, j);
    assert(z1g ^ z1e == mul_bool_spec(delta, (xb[i] != ab[i]) && yb[j]));
    assert(z2g ^ z2e == mul_bool_spec(delta, (yb[j] != bb[j]) && ab[i]));
    lemma_xor_regroup6(z1g, z2g, c, z1e, z2e, 0u128);
    lemma_xor_zero(c);
    lemma_xor_zero(z2e);
    lemma_xor_laws(z1g ^ z1e, z2g ^ z2e, c);
    lemma_semi_honest_algebra(delta, xb[i], yb[j], ab[i], bb[j]);
    assert((z1g ^ (z2g ^ c)) ^ (z1e ^ z2e) == mul_bool_spec(delta, xb[i] && yb[j])) by {
        crate::block::lemma_xor_regroup(z1g, z2g ^ c, z1e, z2e);
        lemma_xor_laws(z2g, c, z2e);
        lemma_xor_laws(c, z2e, 0);
        lemma_xor_laws(z2g, z2e, c);
        lemma_xor_laws(z1g ^ z1e, z2g ^ z2e, c);
    }
}

/// What the semi-honest garbler's first half does: its first accumulator
/// gains the garbled half over its `x` labels, the rest stays, and the
/// returned levels and ciphertexts are those of the `x` labels against
/// `y ⊕ β`.
pub open spec fn semi_honest_gen_first_half_step(
    g0: TensorProductGen,
    g1: TensorProductGen,
    cl: Seq<Vec<Block>>,
    ct: Seq<Vec<Block>>,
) -> bool {
    let key = g0.cipher.key_spec();
    let cf = g0.chunking_factor as nat;
    let gx = block_vals(g0.x_labels@);
    &&& g1.same_labels(&g0)
    &&& g1.gb_second_half_out_dgb == g0.gb_second_half_out_dgb
    &&& forall|r: int, c: int| 0 <= r < g0.n && 0 <= c < g0.m ==> #[trigger] g1.gb_first_half_out_dgb.val(r, c)
        == g0.gb_first_half_out_dgb.val(r, c) ^ chunked_gen_z(key, 0, gx, g0.delta@, cf, r as nat, c as nat)
    &&& nested_vals(cl) == chunk_levels_spec(key, gx, g0.delta@, cf)
    &&& nested_vals(ct) == chunk_cts_spec(key, 0, gx, g0.delta@, cf, xor_vals(g0.y_labels@, g0.beta_labels@))
}

/// What the semi-honest garbler's second half does: its second accumulator
/// gains the garbled half over its `y` labels, the rest stays, and the
/// returned levels and ciphertexts are those of the `y` labels against `α`.
pub open spec fn semi_honest_gen_second_half_step(
    g0: TensorProductGen,
    g1: TensorProductGen,
    cl: Seq<Vec<Block>>,
    ct: Seq<Vec<Block>>,
) -> bool {
    let key = g0.cipher.key_spec();
    let cf = g0.chunking_factor as nat;
    let gy = block_vals(g0.y_labels@);
    &&& g1.same_labels(&g0)
    &&& g1.gb_first_half_out_dgb == g0.gb_first_half_out_dgb
    &&& forall|r: int, c: int| 0 <= r < g0.m && 0 <= c < g0.n ==> #[trigger] g1.gb_second_half_out_dgb.val(r, c)
        == g0.gb_second_half_out_dgb.val(r, c) ^ chunked_gen_z(key, 0, gy, g0.delta@, cf, r as nat, c as nat)
    &&& nested_vals(cl) == chunk_levels_spec(key, gy, g0.delta@, cf)
    &&& nested_vals(ct) == chunk_cts_spec(key, 0, gy, g0.delta@, cf, block_vals(g0.alpha_labels@))
}

/// What the semi-honest garbler's final fold does: entry `(i, j)` of its first
/// accumulator gains entry `(j, i)` of the second and its `α ⊗ β` share.
pub open spec fn semi_honest_gen_final_step(g0: TensorProductGen, g1: TensorProductGen) -> bool {
    &&& g1.same_labels(&g0)
    &&& forall|i: int, j: int| 0 <= i < g0.n && 0 <= j < g0.m ==> #[trigger] g1.gb_first_half_out_dgb.val(i, j)
        == g0.gb_first_half_out_dgb.val(i, j) ^ (g0.gb_second_half_out_dgb.val(j, i) ^ cross_entry(
        g0.alpha_labels@,
        g0.beta_labels@,
        g0.delta@,
        i,
        j,
    ))
}

/// What the semi-honest evaluator's first half does with the garbler's levels
/// and ciphertexts: its first accumulator gains the evaluated half, with the
/// pointer bits of its `x` labels as choice bits; the rest stays.
pub open spec fn semi_honest_eval_first_half_step(
    e0: TensorProductEval,
    e1: TensorProductEval,
    cl: Seq<Vec<Block>>,
    ct: Seq<Vec<Block>>,
) -> bool {
    &&& e1.same_labels(&e0)
    &&& e1.second_half_out == e0.second_half_out
    &&& forall|r: int, c: int| 0 <= r < e0.n && 0 <= c < e0.m ==> #[trigger] e1.first_half_out.val(r, c)
        == e0.first_half_out.val(r, c) ^ chunked_eval_z(e0.cipher.key_spec(), 0, block_vals(e0.x_labels@),
        Seq::new(e0.n as nat, |t: int| lsb_of(e0.x_labels@[t]@)), nested_vals(cl), nested_vals(ct), block_vals(
        e0.y_labels@), e0.chunking_factor as nat, r as nat, c as nat)
}

/// What the semi-honest evaluator's second half does with the garbler's levels
/// and ciphertexts: its second accumulator gains the evaluated half, with the
/// pointer bits of its `y` labels as choice bits; the rest stays.
pub open spec fn semi_honest_eval_second_half_step(
    e0: TensorProductEval,
    e1: TensorProductEval,
    cl: Seq<Vec<Block>>,
    ct: Seq<Vec<Block>>,
) -> bool {
    &&& e1.same_labels(&e0)
    &&& e1.first_half_out == e0.first_half_out
    &&& forall|r: int, c: int| 0 <= r < e0.m && 0 <= c < e0.n ==> #[trigger] e1.second_half_out.val(r, c)
        == e0.second_half_out.val(r, c) ^ chunked_eval_z(e0.cipher.key_spec(), 0, block_vals(e0.y_labels@),
        Seq::new(e0.m as nat, |t: int| lsb_of(e0.y_labels@[t]@)), nested_vals(cl), nested_vals(ct), block_vals(
        e0.alpha_labels.elems()), e0.chunking_factor as nat, r as nat, c as nat)
}

/// What the semi-honest evaluator's final fold does: entry `(i, j)` of its
/// first accumulator gains entry `(j, i)` of the second.
pub open spec fn semi_honest_eval_final_step(e0: TensorProductEval, e1: TensorProductEval) -> bool {
    &&& e1.same_labels(&e0)
    &&& forall|i: int, j: int| 0 <= i < e0.n && 0 <= j < e0.m ==> #[trigger] e1.first_half_out.val(i, j)
        == e0.first_half_out.val(i, j) ^ e0.second_half_out.val(j, i)
}

/// The semi-honest gate end to end: from a garbler and an evaluator with zero
/// accumulators, the evaluator's masks zero and their labels related as in
/// [`lemma_semi_honest_output`], both halves garbled and evaluated in turn and
/// both final folds leave first accumulators that reconstruct `x_i·y_j·Δ` at
/// every entry `(i, j)`.
pub proof fn lemma_semi_honest_protocol_output(
    g0: TensorProductGen,
    e0: TensorProductEval,
    g1: TensorProductGen,
    e1: TensorProductEval,
    g2: TensorProductGen,
    e2: TensorProductEval,
    g3: TensorProductGen,
    e3: TensorProductEval,
    cl1: Seq<Vec<Block>>,
    ct1: Seq<Vec<Block>>,
    cl2: Seq<Vec<Block>>,
    ct2: Seq<Vec<Block>>,
    xb: Seq<bool>,
    yb: Seq<bool>,
    ab: Seq<bool>,
    bb: Seq<bool>,
)
    requires
        g0.shapes_ok(),
        e0.shapes_ok(),
        g0.gb_first_half_out_dgb.is_zero(),
        g0.gb_second_half_out_dgb.is_zero(),
        e0.first_half_out.is_zero(),
        e0.second_half_out.is_zero(),
        e0.alpha_labels.is_zero(),
        e0.n == g0.n,
        e0.m == g0.m,
        e0.cipher == g0.cipher,
        e0.chunking_factor == g0.chunking_factor,
        g0.chunking_factor > 0,
        lsb_of(g0.delta@),
        xb.len() == g0.n,
        ab.len() == g0.n,
        yb.len() == g0.m,
        bb.len() == g0.m,
        forall|t: int| 0 <= t < g0.n ==> !lsb_of(#[trigger] g0.x_labels@[t]@),
        forall|t: int| 0 <= t < g0.n ==> #[trigger] e0.x_labels@[t]@ == g0.x_labels@[t]@ ^ mul_bool_spec(g0.delta@,
            xb[t] != ab[t]),
        forall|t: int| 0 <= t < g0.m ==> !lsb_of(#[trigger] g0.y_labels@[t]@),
        forall|t: int| 0 <= t < g0.m ==> #[trigger] e0.y_labels@[t]@ == g0.y_labels@[t]@ ^ mul_bool_spec(g0.delta@,
            yb[t] != bb[t]),
        forall|t: int| 0 <= t < g0.n ==> #[trigger] g0.alpha_labels@[t]@ == mul_bool_spec(g0.delta@, ab[t]),
        forall|t: int| 0 <= t < g0.m ==> #[trigger] g0.beta_labels@[t]@ == mul_bool_spec(g0.delta@, bb[t]),
        semi_honest_gen_first_half_step(g0, g1, cl1, ct1),
        semi_honest_eval_first_half_step(e0, e1, cl1, ct1),
        semi_honest_gen_second_half_step(g1, g2, cl2, ct2),
        semi_honest_eval_second_half_step(e1, e2, cl2, ct2),
        semi_honest_gen_final_step(g2, g3),
        semi_honest_eval_final_step(e2, e3),
    ensures
        forall|i: int, j: int| 0 <= i < g0.n && 0 <= j < g0.m ==> #[trigger] g3.gb_first_half_out_dgb.val(i, j)
            ^ e3.first_half_out.val(i, j) == mul_bool_spec(g0.delta@, xb[i] && yb[j]),
{
    let n = g0.n as int;
    let key = g0.cipher.key_spec();
    let d = g0.delta@;
    let cf = g0.chunking_factor as nat;
    let gx = g0.x_labels@;
    let gy = g0.y_labels@;
    let ex = e0.x_labels@;
    let ey = e0.y_labels@;
    assert(block_vals(e0.alpha_labels.elems()) =~= Seq::new(ex.len(), |t: int| 0u128)) by {
        assert forall|t: int| 0 <= t < n implies #[trigger] block_vals(e0.alpha_labels.elems())[t] == 0u128 by {
            assert(e0.alpha_labels.val(t, 0) == 0);
            crate::matrix::lemma_flat_bound(t, 0, n, 1);
        }
    }
    assert(Seq::new(e0.n as nat, |t: int| lsb_of(e0.x_labels@[t]@)) =~= Seq::new(ex.len(), |t: int| lsb_of(ex[t]@)));
    assert(Seq::new(e0.m as nat, |t: int| lsb_of(e0.y_labels@[t]@)) =~= Seq::new(ey.len(), |t: int| lsb_of(ey[t]@)));
    assert forall|i: int, j: int| 0 <= i < g0.n && 0 <= j < g0.m implies #[trigger] g3.gb_first_half_out_dgb.val(
        i,
        j,
    ) ^ e3.first_half_out.val(i, j) == mul_bool_spec(d, xb[i] && yb[j]) by {
        let z1g = chunked_gen_z(key, 0, block_vals(gx), d, cf, i as nat, j as nat);
        let z2g = chunked_gen_z(key, 0, block_vals(gy), d, cf, j as nat, i as nat);
        let z1e = chunked_eval_z(key, 0, block_vals(ex), Seq::new(ex.len(), |t: int| lsb_of(ex[t]@)),
            nested_vals(cl1), nested_vals(ct1), block_vals(ey), cf, i as nat, j as nat);
        let z2e = chunked_eval_z(key, 0, block_vals(ey), Seq::new(ey.len(), |t: int| lsb_of(ey[t]@)),
            nested_vals(cl2), nested_vals(ct2), Seq::new(ex.len(), |t: int| 0u128), cf, j as nat, i as nat);
        lemma_xor_zero(z1g);
        lemma_xor_zero(z2g);
        lemma_xor_zero(z1e);
        lemma_xor_zero(z2e);
        assert(g0.gb_first_half_out_dgb.val(i, j) == 0);
        assert(g0.gb_second_half_out_dgb.val(j, i) == 0);
        assert(e0.first_half_out.val(i, j) == 0);
        assert(e0.second_half_out.val(j, i) == 0);
        assert(g1.gb_first_half_out_dgb.val(i, j) == z1g);
        assert(g2.gb_second_half_out_dgb.val(j, i) == z2g);
        assert(e1.first_half_out.val(i, j) == z1e);
        assert(e2.second_half_out.val(j, i) == z2e);
        assert(g3.gb_first_half_out_dgb.val(i, j) == semi_honest_gen_output(key, d, cf, g0.x_labels@, g0.y_labels@,
            g0.alpha_labels@, g0.beta_labels@, i, j));
        assert(e3.first_half_out.val(i, j) == semi_honest_eval_output(key, d, cf, g0.x_labels@, g0.y_labels@,
            g0.alpha_labels@, g0.beta_labels@, ex, ey, i, j));
        lemma_semi_honest_output(key, d, cf, g0.x_labels@, g0.y_labels@, g0.alpha_labels@, g0.beta_labels@, ex, ey,
            xb, yb, ab, bb, i, j);
    }
}

/// A semi-honest garbler set up from the dealer's garbler half: dimensions,
/// the fixed-key hasher, `Δ`, the four label vectors, and zero accumulators.
pub open spec fn semi_honest_gen_from_fpre(pg: SemiHonestTensorPreGen, g: TensorProductGen) -> bool {
    &&& g.n == pg.n
    &&& g.m == pg.m
    &&& g.chunking_factor == pg.chunking_factor
    &&& g.cipher.key_spec() == FIXED_AES_KEY
    &&& g.delta == pg.delta
    &&& g.x_labels == pg.x_labels
    &&& g.y_labels == pg.y_labels
    &&& g.alpha_labels == pg.alpha_labels
    &&& g.beta_labels == pg.beta_labels
    &&& g.gb_first_half_out_dgb.wf()
    &&& g.gb_first_half_out_dgb.nrows() == pg.n
    &&& g.gb_first_half_out_dgb.ncols() == pg.m
    &&& g.gb_first_half_out_dgb.is_zero()
    &&& g.gb_second_half_out_dgb.wf()
    &&& g.gb_second_half_out_dgb.nrows() == pg.m
    &&& g.gb_second_half_out_dgb.ncols() == pg.n
    &&& g.gb_second_half_out_dgb.is_zero()
}

/// A semi-honest evaluator set up from the dealer's evaluator half: its label
/// vectors, zero masks and zero accumulators.
pub open spec fn semi_honest_eval_from_fpre(pe: SemiHonestTensorPreEval, e: TensorProductEval) -> bool {
    &&& e.n == pe.n
    &&& e.m == pe.m
    &&& e.chunking_factor == pe.chunking_factor
    &&& e.cipher.key_spec() == FIXED_AES_KEY
    &&& e.x_labels == pe.x_labels
    &&& e.y_labels == pe.y_labels
    &&& e.alpha_labels.wf()
    &&& e.alpha_labels.nrows() == pe.n
    &&& e.alpha_labels.ncols() == 1
    &&& e.alpha_labels.is_zero()
    &&& e.beta_labels.wf()
    &&& e.beta_labels.nrows() == pe.m
    &&& e.beta_labels.ncols() == 1
    &&& e.beta_labels.is_zero()
    &&& e.first_half_out.wf()
    &&& e.first_half_out.nrows() == pe.n
    &&& e.first_half_out.ncols() == pe.m
    &&& e.first_half_out.is_zero()
    &&& e.second_half_out.wf()
    &&& e.second_half_out.nrows() == pe.m
    &&& e.second_half_out.ncols() == pe.n
    &&& e.second_half_out.is_zero()
}

/// The semi-honest gate from the dealer on: a fresh dealer with `Δ` of pointer
/// bit 1 deals label sharings of `x` and `y`, masks α and β, masks the inputs
/// and splits; the parties set up from the two halves garble and evaluate both
/// halves in turn and fold. Their first accumulators then reconstruct
/// `x_i·y_j·Δ` at every entry `(i, j)`.
pub proof fn lemma_semi_honest_from_preprocessing(
    p0: SemiHonestTensorPre,
    p1: SemiHonestTensorPre,
    p2: SemiHonestTensorPre,
    p3: SemiHonestTensorPre,
    pg: SemiHonestTensorPreGen,
    pe: SemiHonestTensorPreEval,
    g0: TensorProductGen,
    e0: TensorProductEval,
    g1: TensorProductGen,
    e1: TensorProductEval,
    g2: TensorProductGen,
    e2: TensorProductEval,
    g3: TensorProductGen,
    e3: TensorProductEval,
    cl1: Seq<Vec<Block>>,
    ct1: Seq<Vec<Block>>,
    cl2: Seq<Vec<Block>>,
    ct2: Seq<Vec<Block>>,
    x: usize,
    y: usize,
)
    requires
        p0.x_labels@.len() == 0,
        p0.y_labels@.len() == 0,
        p0.alpha_labels@.len() == 0,
        p0.beta_labels@.len() == 0,
        lsb_of(p0.delta@),
        p0.chunking_factor > 0,
        inputs_dealt(p0, p1, x, y),
        masks_dealt(p1, p2),
        inputs_masked(p2, p3),
        dealer_split(p3, pg, pe),
        semi_honest_gen_from_fpre(pg, g0),
        semi_honest_eval_from_fpre(pe, e0),
        semi_honest_gen_first_half_step(g0, g1, cl1, ct1),
        semi_honest_eval_first_half_step(e0, e1, cl1, ct1),
        semi_honest_gen_second_half_step(g1, g2, cl2, ct2),
        semi_honest_eval_second_half_step(e1, e2, cl2, ct2),
        semi_honest_gen_final_step(g2, g3),
        semi_honest_eval_final_step(e2, e3),
    ensures
        forall|i: int, j: int| 0 <= i < p0.n && 0 <= j < p0.m ==> #[trigger] g3.gb_first_half_out_dgb.val(i, j)
            ^ e3.first_half_out.val(i, j) == mul_bool_spec(p0.delta@, input_bit(x, i) && input_bit(y, j)),
{
    let n = p0.n as int;
    let m = p0.m as int;
    let d = p0.delta@;
    let xb = input_bits(x, p0.n as nat);
    let yb = input_bits(y, p0.m as nat);
    let ab = Seq::new(p0.n as nat, |i: int| p2.alpha_labels@[i].gen_share@ != 0);
    let bb = Seq::new(p0.m as nat, |j: int| p2.beta_labels@[j].gen_share@ != 0);
    assert(g0.cipher == e0.cipher);
    assert forall|t: int| 0 <= t < n implies {
        &&& !lsb_of(#[trigger] g0.x_labels@[t]@)
        &&& e0.x_labels@[t]@ == g0.x_labels@[t]@ ^ mul_bool_spec(d, xb[t] != ab[t])
        &&& g0.alpha_labels@[t]@ == mul_bool_spec(d, ab[t])
    } by {
        let s = p1.x_labels@[t];
        let a = p2.alpha_labels@[t];
        assert(label_ok(p1.x_labels@[0 + t], input_bit(x, t), d));
        assert(mask_ok(p2.alpha_labels@[0 + t], p2.alpha_labels@[0 + t].gen_share@ != 0, d));
        assert(p3.x_labels@[t] == masked_sharing(p2.x_labels@[t], p2.alpha_labels@[t]));
        assert(g0.x_labels@[t] == p3.x_labels@[t].gen_share);
        assert(e0.x_labels@[t] == p3.x_labels@[t].eval_share);
        assert(g0.alpha_labels@[t] == p3.alpha_labels@[t].gen_share);
        crate::block::lemma_xor_zero(s.gen_share@);
        lemma_mul_bool_xor(d, xb[t], ab[t]);
        lemma_xor_laws(s.gen_share@, mul_bool_spec(d, xb[t]), mul_bool_spec(d, ab[t]));
    }
    assert forall|t: int| 0 <= t < m implies {
        &&& !lsb_of(#[trigger] g0.y_labels@[t]@)
        &&& e0.y_labels@[t]@ == g0.y_labels@[t]@ ^ mul_bool_spec(d, yb[t] != bb[t])
        &&& g0.beta_labels@[t]@ == mul_bool_spec(d, bb[t])
    } by {
        let s = p1.y_labels@[t];
        assert(label_ok(p1.y_labels@[0 + t], input_bit(y, t), d));
        assert(mask_ok(p2.beta_labels@[0 + t], p2.beta_labels@[0 + t].gen_share@ != 0, d));
        assert(p3.y_labels@[t] == masked_sharing(p2.y_labels@[t], p2.beta_labels@[t]));
        assert(g0.y_labels@[t] == p3.y_labels@[t].gen_share);
        assert(e0.y_labels@[t] == p3.y_labels@[t].eval_share);
        assert(g0.beta_labels@[t] == p3.beta_labels@[t].gen_share);
        crate::block::lemma_xor_zero(s.gen_share@);
        lemma_mul_bool_xor(d, yb[t], bb[t]);
        lemma_xor_laws(s.gen_share@, mul_bool_spec(d, yb[t]), mul_bool_spec(d, bb[t]));
    }
    assert forall|t: int| 0 <= t < n implies #[trigger] g0.alpha_labels@[t]@ == mul_bool_spec(d, ab[t]) by {
        assert(!lsb_of(g0.x_labels@[t]@));
    }
    assert forall|t: int| 0 <= t < m implies #[trigger] g0.beta_labels@[t]@ == mul_bool_spec(d, bb[t]) by {
        assert(!lsb_of(g0.y_labels@[t]@));
    }
    lemma_semi_honest_protocol_output(g0, e0, g1, e1, g2, e2, g3, e3, cl1, ct1, cl2, ct2, xb, yb, ab, bb);
}

} // verus!
