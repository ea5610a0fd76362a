//! The evaluator of the authenticated tensor gate.

use vstd::prelude::*;
use crate::block::{Block, lsb_of, mul_bool_spec, lemma_xor_zero};
use crate::aes::{FixedKeyAes, FIXED_KEY};
use crate::delta::Delta;
use crate::matrix::{BlockMatrix, TypedMatrix, MatrixViewRef};
use crate::preprocessing::TensorFpreEval;
use crate::tensor_ops::{
    eval_chunked_outer_product, eval_chunked_outer_product_wide, chunked_eval_z, chunk_count, chunk_len,
    nested_vals, nested_fst, nested_snd, chunk_levels_spec, chunk_of, lemma_chunk_rows,
};
use crate::auth_tensor_gen::{online_params_ok, fold_final, column_major};
use crate::xor_sum::block_vals;
use crate::tensor_gate::{
    eval_first_half_step, eval_second_half_step, eval_final_step, eval_first_half_p2_step, eval_second_half_p2_step,
    eval_final_p2_step, eval_from_fpre,
};

verus! {

broadcast use crate::block::group_xor;

/// The evaluator's state for one `n × m` tensor gate.
pub struct AuthTensorEval {
    pub cipher: FixedKeyAes,
    pub chunking_factor: usize,
    pub n: usize,
    pub m: usize,
    pub delta_b: Delta,
    /// Block-form sharings of α, β, `α·β` and γ under `Δ_ev` (`_eval`) and
    /// under `Δ_gb` (`_gen`): this party's components.
    pub alpha_eval: Vec<Block>,
    pub alpha_gen: Vec<Block>,
    pub beta_eval: Vec<Block>,
    pub beta_gen: Vec<Block>,
    pub correlated_eval: Vec<Block>,
    pub correlated_gen: Vec<Block>,
    pub gamma_eval: Vec<Block>,
    pub gamma_gen: Vec<Block>,
    /// This party's components of the input sharings `[x·Δ_gb]`, `[y·Δ_gb]`.
    pub x_gen: Vec<Block>,
    pub y_gen: Vec<Block>,
    /// This party's components of the masked-input sharings.
    pub masked_x_gen: Vec<Block>,
    pub masked_y_gen: Vec<Block>,
    /// The masked input bits `x ⊕ α`, `y ⊕ β`: the tree choice bits.
    pub masked_x_bits: Vec<bool>,
    pub masked_y_bits: Vec<bool>,
    pub first_half_out: BlockMatrix,
    pub second_half_out: BlockMatrix,
    pub first_half_out_ev: BlockMatrix,
    pub second_half_out_ev: BlockMatrix,
    pub final_computed: bool,
}

/// The per-chunk ciphertexts fit a half whose trees cover `rows` rows and whose
/// leaves expand against `cols` columns.
pub open spec fn chunk_shapes_ok(levels: Seq<Vec<Block>>, cts_lens: Seq<nat>, rows: nat, cf: nat, cols: nat) -> bool {
    &&& levels.len() == chunk_count(rows, cf)
    &&& cts_lens.len() == chunk_count(rows, cf)
    &&& forall|s: int| 0 <= s < levels.len() ==> (#[trigger] levels[s])@.len() + 1 == chunk_len(rows, cf, s as nat)
    &&& forall|s: int| 0 <= s < cts_lens.len() ==> #[trigger] cts_lens[s] == cols
}

/// Levels with the values the garbler computes for `x` in chunks of `cf`
/// rows, and `cols` leaf ciphertexts per chunk, have the shapes the evaluator
/// expects.
pub proof fn lemma_garbled_shapes(
    levels: Seq<Vec<Block>>,
    cts_lens: Seq<nat>,
    key: u128,
    x: Seq<u128>,
    delta: u128,
    cf: nat,
    cols: nat,
)
    requires
        cf > 0,
        nested_vals(levels) == chunk_levels_spec(key, x, delta, cf),
        cts_lens.len() == chunk_count(x.len(), cf),
        forall|s: int| 0 <= s < cts_lens.len() ==> #[trigger] cts_lens[s] == cols,
    ensures
        chunk_shapes_ok(levels, cts_lens, x.len(), cf, cols),
{
    assert(levels.len() == nested_vals(levels).len());
    assert forall|s: int| 0 <= s < levels.len() implies (#[trigger] levels[s])@.len() + 1 == chunk_len(x.len(), cf,
        s as nat) by {
        lemma_chunk_rows(x.len(), cf, s as nat);
        assert(nested_vals(levels)[s] == block_vals(levels[s]@));
        assert(chunk_of(x, cf, s as nat).len() == chunk_len(x.len(), cf, s as nat));
        assert(chunk_levels_spec(key, x, delta, cf)[s].len() == chunk_of(x, cf, s as nat).len() - 1);
    }
}

/// The lengths of nested vectors.
pub open spec fn nested_lens<A>(v: Seq<Vec<A>>) -> Seq<nat> {
    Seq::new(v.len(), |s: int| v[s]@.len())
}

impl AuthTensorEval {
    /// The four output accumulators have the tensor gate's shapes.
    pub open spec fn outs_ok(&self) -> bool {
        &&& self.first_half_out.wf()
        &&& self.first_half_out.nrows() == self.n
        &&& self.first_half_out.ncols() == self.m
        &&& self.second_half_out.wf()
        &&& self.second_half_out.nrows() == self.m
        &&& self.second_half_out.ncols() == self.n
        &&& self.first_half_out_ev.wf()
        &&& self.first_half_out_ev.nrows() == self.n
        &&& self.first_half_out_ev.ncols() == self.m
        &&& self.second_half_out_ev.wf()
        &&& self.second_half_out_ev.nrows() == self.m
        &&& self.second_half_out_ev.ncols() == self.n
    }

    /// The four output accumulators are zero.
    pub open spec fn outs_zero(&self) -> bool {
        &&& self.first_half_out.is_zero()
        &&& self.second_half_out.is_zero()
        &&& self.first_half_out_ev.is_zero()
        &&& self.second_half_out_ev.is_zero()
    }

    /// Everything but the output accumulators agrees.
    pub open spec fn same_inputs(&self, other: &AuthTensorEval) -> bool {
        &&& self.cipher == other.cipher
        &&& self.chunking_factor == other.chunking_factor
        &&& self.n == other.n
        &&& self.m == other.m
        &&& self.delta_b == other.delta_b
        &&& self.alpha_eval == other.alpha_eval
        &&& self.alpha_gen == other.alpha_gen
        &&& self.beta_eval == other.beta_eval
        &&& self.beta_gen == other.beta_gen
        &&& self.correlated_eval == other.correlated_eval
        &&& self.correlated_gen == other.correlated_gen
        &&& self.gamma_eval == other.gamma_eval
        &&& self.gamma_gen == other.gamma_gen
        &&& self.x_gen == other.x_gen
        &&& self.y_gen == other.y_gen
        &&& self.masked_x_gen == other.masked_x_gen
        &&& self.masked_y_gen == other.masked_y_gen
        &&& self.masked_x_bits == other.masked_x_bits
        &&& self.masked_y_bits == other.masked_y_bits
    }

    /// The evaluator's `Δ_ev` side of the second half: `[x·Δ_ev]`, its
    /// `[α·Δ_ev]` component plus `(x⊕α)·Δ_ev`.
    pub open spec fn second_y_d_ev(&self) -> Seq<u128> {
        Seq::new(self.n as nat, |i: int| self.alpha_eval@[i]@ ^ mul_bool_spec(self.delta_b@, self.masked_x_bits@[i]))
    }

    /// The evaluator's state from its preprocessing output: `_eval` fields take
    /// the `Δ_ev` components (`_dev`), `_gen` fields the `Δ_gb` ones (`_dgb`).
    pub fn new_from_fpre_eval(fpre_eval: TensorFpreEval) -> (r: AuthTensorEval)
        requires
            fpre_eval.n * fpre_eval.m <= usize::MAX,
        ensures
            eval_from_fpre(fpre_eval, r),
            r.n == fpre_eval.n,
            r.m == fpre_eval.m,
            r.chunking_factor == fpre_eval.chunking_factor,
            r.cipher.key_spec() == FIXED_KEY,
            r.delta_b == fpre_eval.delta_ev,
            r.alpha_eval == fpre_eval.alpha_dev,
            r.alpha_gen == fpre_eval.alpha_dgb,
            r.beta_eval == fpre_eval.beta_dev,
            r.beta_gen == fpre_eval.beta_dgb,
            r.correlated_eval == fpre_eval.correlated_dev,
            r.correlated_gen == fpre_eval.correlated_dgb,
            r.gamma_eval == fpre_eval.gamma_dev,
            r.gamma_gen == fpre_eval.gamma_dgb,
            r.x_gen@.len() == 0,
            r.y_gen@.len() == 0,
            r.masked_x_gen@.len() == 0,
            r.masked_y_gen@.len() == 0,
            r.masked_x_bits@.len() == 0,
            r.masked_y_bits@.len() == 0,
            r.outs_ok(),
            r.outs_zero(),
            !r.final_computed,
    {
        let n = fpre_eval.n;
        let m = fpre_eval.m;
        proof {
            assert(m * n == n * m) by (nonlinear_arith);
        }
        AuthTensorEval {
            cipher: FixedKeyAes::new(),
            n,
            m,
            chunking_factor: fpre_eval.chunking_factor,
            delta_b: fpre_eval.delta_ev,
            alpha_eval: fpre_eval.alpha_dev,
            alpha_gen: fpre_eval.alpha_dgb,
            beta_eval: fpre_eval.beta_dev,
            beta_gen: fpre_eval.beta_dgb,
            correlated_eval: fpre_eval.correlated_dev,
            correlated_gen: fpre_eval.correlated_dgb,
            gamma_eval: fpre_eval.gamma_dev,
            gamma_gen: fpre_eval.gamma_dgb,
            x_gen: Vec::new(),
            y_gen: Vec::new(),
            masked_x_gen: Vec::new(),
            masked_y_gen: Vec::new(),
            masked_x_bits: Vec::new(),
            masked_y_bits: Vec::new(),
            first_half_out: BlockMatrix::new(n, m),
            second_half_out: BlockMatrix::new(m, n),
            first_half_out_ev: BlockMatrix::new(n, m),
            second_half_out_ev: BlockMatrix::new(m, n),
            final_computed: false,
        }
    }

    /// One half of the tensor gate on the evaluator's side: rebuilds each chunk's tree
    /// from `choice_bits` and the garbler's ciphertexts, expanding against `y`
    /// into `first_half_out` or `second_half_out`.
    fn eval_chunked_half_outer_product(
        &mut self,
        x: &MatrixViewRef<Block>,
        y: &MatrixViewRef<Block>,
        choice_bits: &[bool],
        chunk_levels: Vec<Vec<Block>>,
        chunk_cts: Vec<Vec<Block>>,
        first_half: bool,
    )
        requires
            online_params_ok(old(self).n, old(self).m, old(self).chunking_factor),
            old(self).outs_ok(),
            x.vec_ok(),
            y.vec_ok(),
            x.view_rows == if first_half { old(self).n } else { old(self).m },
            y.view_rows == if first_half { old(self).m } else { old(self).n },
            choice_bits@.len() == x.view_rows,
            chunk_shapes_ok(chunk_levels@, nested_lens(chunk_cts@), x.view_rows as nat,
                old(self).chunking_factor as nat, y.view_rows as nat),
        ensures
            final(self).same_inputs(&*old(self)),
            final(self).final_computed == old(self).final_computed,
            final(self).outs_ok(),
            final(self).first_half_out_ev == old(self).first_half_out_ev,
            final(self).second_half_out_ev == old(self).second_half_out_ev,
            first_half ==> final(self).second_half_out == old(self).second_half_out,
            !first_half ==> final(self).first_half_out == old(self).first_half_out,
            first_half ==> forall|rr: int, c: int| 0 <= rr < x.view_rows && 0 <= c < y.view_rows ==>
                #[trigger] final(self).first_half_out.val(rr, c) == old(self).first_half_out.val(rr, c)
                    ^ chunked_eval_z(old(self).cipher.key_spec(), 0, x.vec_vals(), choice_bits@,
                        nested_vals(chunk_levels@), nested_vals(chunk_cts@), y.vec_vals(),
                        old(self).chunking_factor as nat, rr as nat, c as nat),
            !first_half ==> forall|rr: int, c: int| 0 <= rr < x.view_rows && 0 <= c < y.view_rows ==>
                #[trigger] final(self).second_half_out.val(rr, c) == old(self).second_half_out.val(rr, c)
                    ^ chunked_eval_z(old(self).cipher.key_spec(), 0, x.vec_vals(), choice_bits@,
                        nested_vals(chunk_levels@), nested_vals(chunk_cts@), y.vec_vals(),
                        old(self).chunking_factor as nat, rr as nat, c as nat),
    {
        let cf = self.chunking_factor;
        let cipher = self.cipher;
        proof {
            assert forall|s: int| 0 <= s < chunk_cts@.len() implies (#[trigger] chunk_cts@[s])@.len() == y.view_rows by {
                assert(nested_lens(chunk_cts@)[s] == chunk_cts@[s]@.len());
            }
        }
        if first_half {
            eval_chunked_outer_product(x, y, choice_bits, &mut self.first_half_out, cf, &cipher,
                chunk_levels.as_slice(), chunk_cts.as_slice());
        } else {
            eval_chunked_outer_product(x, y, choice_bits, &mut self.second_half_out, cf, &cipher,
                chunk_levels.as_slice(), chunk_cts.as_slice());
        }
    }

    /// The wide variant of [`Self::eval_chunked_half_outer_product`]: the κ
    /// halves of the ciphertexts against `y_d_gb` into the `Δ_gb` accumulator,
    /// the ρ halves against `y_d_ev` into the `Δ_ev` accumulator.
    fn eval_chunked_half_outer_product_wide(
        &mut self,
        x: &MatrixViewRef<Block>,
        y_d_gb: &MatrixViewRef<Block>,
        y_d_ev: &MatrixViewRef<Block>,
        choice_bits: &[bool],
        chunk_levels: Vec<Vec<Block>>,
        chunk_cts: Vec<Vec<(Block, Block)>>,
        first_half: bool,
    )
        requires
            online_params_ok(old(self).n, old(self).m, old(self).chunking_factor),
            old(self).outs_ok(),
            x.vec_ok(),
            y_d_gb.vec_ok(),
            y_d_ev.vec_ok(),
            x.view_rows == if first_half { old(self).n } else { old(self).m },
            y_d_gb.view_rows == if first_half { old(self).m } else { old(self).n },
            y_d_ev.view_rows == y_d_gb.view_rows,
            choice_bits@.len() == x.view_rows,
            chunk_shapes_ok(chunk_levels@, nested_lens(chunk_cts@), x.view_rows as nat,
                old(self).chunking_factor as nat, y_d_gb.view_rows as nat),
        ensures
            final(self).same_inputs(&*old(self)),
            final(self).final_computed == old(self).final_computed,
            final(self).outs_ok(),
            first_half ==> final(self).second_half_out == old(self).second_half_out
                && final(self).second_half_out_ev == old(self).second_half_out_ev,
            !first_half ==> final(self).first_half_out == old(self).first_half_out
                && final(self).first_half_out_ev == old(self).first_half_out_ev,
            first_half ==> forall|rr: int, c: int| 0 <= rr < x.view_rows && 0 <= c < y_d_gb.view_rows ==>
                #[trigger] final(self).first_half_out.val(rr, c) == old(self).first_half_out.val(rr, c)
                    ^ chunked_eval_z(old(self).cipher.key_spec(), 1, x.vec_vals(), choice_bits@,
                        nested_vals(chunk_levels@), nested_fst(chunk_cts@), y_d_gb.vec_vals(),
                        old(self).chunking_factor as nat, rr as nat, c as nat),
            first_half ==> forall|rr: int, c: int| 0 <= rr < x.view_rows && 0 <= c < y_d_gb.view_rows ==>
                #[trigger] final(self).first_half_out_ev.val(rr, c) == old(self).first_half_out_ev.val(rr, c)
                    ^ chunked_eval_z(old(self).cipher.key_spec(), 2, x.vec_vals(), choice_bits@,
                        nested_vals(chunk_levels@), nested_snd(chunk_cts@), y_d_ev.vec_vals(),
                        old(self).chunking_factor as nat, rr as nat, c as nat),
            !first_half ==> forall|rr: int, c: int| 0 <= rr < x.view_rows && 0 <= c < y_d_gb.view_rows ==>
                #[trigger] final(self).second_half_out.val(rr, c) == old(self).second_half_out.val(rr, c)
                    ^ chunked_eval_z(old(self).cipher.key_spec(), 1, x.vec_vals(), choice_bits@,
                        nested_vals(chunk_levels@), nested_fst(chunk_cts@), y_d_gb.vec_vals(),
                        old(self).chunking_factor as nat, rr as nat, c as nat),
            !first_half ==> forall|rr: int, c: int| 0 <= rr < x.view_rows && 0 <= c < y_d_gb.view_rows ==>
                #[trigger] final(self).second_half_out_ev.val(rr, c) == old(self).second_half_out_ev.val(rr, c)
                    ^ chunked_eval_z(old(self).cipher.key_spec(), 2, x.vec_vals(), choice_bits@,
                        nested_vals(chunk_levels@), nested_snd(chunk_cts@), y_d_ev.vec_vals(),
                        old(self).chunking_factor as nat, rr as nat, c as nat),
    {
        let cf = self.chunking_factor;
        let cipher = self.cipher;
        proof {
            assert forall|s: int| 0 <= s < chunk_cts@.len() implies (#[trigger] chunk_cts@[s])@.len() == y_d_gb.view_rows by {
                assert(nested_lens(chunk_cts@)[s] == chunk_cts@[s]@.len());
            }
        }
        if first_half {
            eval_chunked_outer_product_wide(x, y_d_gb, y_d_ev, choice_bits, &mut self.first_half_out,
                &mut self.first_half_out_ev, cf, &cipher, chunk_levels.as_slice(), chunk_cts.as_slice());
        } else {
            eval_chunked_outer_product_wide(x, y_d_gb, y_d_ev, choice_bits, &mut self.second_half_out,
                &mut self.second_half_out_ev, cf, &cipher, chunk_levels.as_slice(), chunk_cts.as_slice());
        }
    }

    /// The evaluator's inputs to the first half: `[(x⊕α)·Δ_gb]` against `[β·Δ_gb]`.
    pub fn get_first_inputs(&self) -> (r: (BlockMatrix, BlockMatrix))
        requires
            self.masked_x_gen@.len() == self.n,
            self.beta_gen@.len() == self.m,
        ensures
            r.0.wf(),
            r.1.wf(),
            r.0.nrows() == self.n,
            r.0.ncols() == 1,
            r.1.nrows() == self.m,
            r.1.ncols() == 1,
            r.0.elems() == self.masked_x_gen@,
            r.1.elems() == self.beta_gen@,
    {
        (BlockMatrix::from_column(self.masked_x_gen.as_slice()), BlockMatrix::from_column(self.beta_gen.as_slice()))
    }

    /// The evaluator's inputs to the second half: `[(y⊕β)·Δ_gb]` against `[x·Δ_gb]`.
    pub fn get_second_inputs(&self) -> (r: (BlockMatrix, BlockMatrix))
        requires
            self.masked_y_gen@.len() == self.m,
            self.x_gen@.len() == self.n,
        ensures
            r.0.wf(),
            r.1.wf(),
            r.0.nrows() == self.m,
            r.0.ncols() == 1,
            r.1.nrows() == self.n,
            r.1.ncols() == 1,
            r.0.elems() == self.masked_y_gen@,
            r.1.elems() == self.x_gen@,
    {
        (BlockMatrix::from_column(self.masked_y_gen.as_slice()), BlockMatrix::from_column(self.x_gen.as_slice()))
    }

    /// The evaluator's `Δ_ev`-side inputs of the first half: `[β·Δ_ev]`.
    fn get_first_inputs_p2_y_d_ev(&self) -> (r: BlockMatrix)
        requires
            self.beta_eval@.len() == self.m,
        ensures
            r.wf(),
            r.nrows() == self.m,
            r.ncols() == 1,
            r.elems() == self.beta_eval@,
    {
        BlockMatrix::from_column(self.beta_eval.as_slice())
    }

    /// The evaluator's `Δ_ev`-side inputs of the second half: `[x·Δ_ev]`.
    fn get_second_inputs_p2_y_d_ev(&self) -> (r: BlockMatrix)
        requires
            self.alpha_eval@.len() == self.n,
            self.masked_x_bits@.len() == self.n,
        ensures
            r.wf(),
            r.nrows() == self.n,
            r.ncols() == 1,
            block_vals(r.elems()) == self.second_y_d_ev(),
    {
        let mut v: Vec<Block> = Vec::new();
        let delta_b_block = *self.delta_b.as_block();
        let mut i: usize = 0;
        while i < self.n
            invariant
                i <= self.n,
                self.alpha_eval@.len() == self.n,
                self.masked_x_bits@.len() == self.n,
                delta_b_block@ == self.delta_b@,
                v@.len() == i,
                forall|k: int| 0 <= k < i ==> (#[trigger] v@[k])@ == self.second_y_d_ev()[k],
            decreases self.n - i,
        {
            let b = if self.masked_x_bits[i] {
                self.alpha_eval[i].xor(&delta_b_block)
            } else {
                self.alpha_eval[i]
            };
            proof {
                lemma_xor_zero(self.alpha_eval@[i as int]@);
            }
            v.push(b);
            i = i + 1;
        }
        let r = BlockMatrix::from_column(v.as_slice());
        proof {
            assert(block_vals(r.elems()) =~= self.second_y_d_ev());
        }
        r
    }

    /// Evaluates the first half, `(x⊕α) ⊗ β`, into `first_half_out`, with the
    /// masked `x` bits as choice bits.
    pub fn evaluate_first_half(&mut self, chunk_levels: Vec<Vec<Block>>, chunk_cts: Vec<Vec<Block>>)
        requires
            online_params_ok(old(self).n, old(self).m, old(self).chunking_factor),
            old(self).outs_ok(),
            old(self).masked_x_gen@.len() == old(self).n,
            old(self).beta_gen@.len() == old(self).m,
            old(self).masked_x_bits@.len() == old(self).n,
            chunk_shapes_ok(chunk_levels@, nested_lens(chunk_cts@), old(self).n as nat,
                old(self).chunking_factor as nat, old(self).m as nat),
        ensures
            eval_first_half_step(*old(self), *final(self), chunk_levels@, chunk_cts@),
            final(self).same_inputs(&*old(self)),
            final(self).final_computed == old(self).final_computed,
            final(self).outs_ok(),
            final(self).second_half_out == old(self).second_half_out,
            final(self).first_half_out_ev == old(self).first_half_out_ev,
            final(self).second_half_out_ev == old(self).second_half_out_ev,
            forall|rr: int, c: int| 0 <= rr < old(self).n && 0 <= c < old(self).m ==>
                #[trigger] final(self).first_half_out.val(rr, c) == old(self).first_half_out.val(rr, c)
                    ^ chunked_eval_z(old(self).cipher.key_spec(), 0, block_vals(old(self).masked_x_gen@),
                        old(self).masked_x_bits@, nested_vals(chunk_levels@), nested_vals(chunk_cts@),
                        block_vals(old(self).beta_gen@), old(self).chunking_factor as nat, rr as nat, c as nat),
    {
        let (x, y) = self.get_first_inputs();
        let choice_bits = self.masked_x_bits.clone();
        let xv = x.as_view();
        let yv = y.as_view();
        proof {
            assert(xv.vec_vals() =~= block_vals(self.masked_x_gen@));
            assert(yv.vec_vals() =~= block_vals(self.beta_gen@));
        }
        self.eval_chunked_half_outer_product(&xv, &yv, choice_bits.as_slice(), chunk_levels, chunk_cts, true);
    }

    /// Evaluates the second half, `(y⊕β) ⊗ x`, into `second_half_out`, with
    /// the masked `y` bits as choice bits.
    pub fn evaluate_second_half(&mut self, chunk_levels: Vec<Vec<Block>>, chunk_cts: Vec<Vec<Block>>)
        requires
            online_params_ok(old(self).n, old(self).m, old(self).chunking_factor),
            old(self).outs_ok(),
            old(self).masked_y_gen@.len() == old(self).m,
            old(self).x_gen@.len() == old(self).n,
            old(self).masked_y_bits@.len() == old(self).m,
            chunk_shapes_ok(chunk_levels@, nested_lens(chunk_cts@), old(self).m as nat,
                old(self).chunking_factor as nat, old(self).n as nat),
        ensures
            eval_second_half_step(*old(self), *final(self), chunk_levels@, chunk_cts@),
            final(self).same_inputs(&*old(self)),
            final(self).final_computed == old(self).final_computed,
            final(self).outs_ok(),
            final(self).first_half_out == old(self).first_half_out,
            final(self).first_half_out_ev == old(self).first_half_out_ev,
            final(self).second_half_out_ev == old(self).second_half_out_ev,
            forall|rr: int, c: int| 0 <= rr < old(self).m && 0 <= c < old(self).n ==>
                #[trigger] final(self).second_half_out.val(rr, c) == old(self).second_half_out.val(rr, c)
                    ^ chunked_eval_z(old(self).cipher.key_spec(), 0, block_vals(old(self).masked_y_gen@),
                        old(self).masked_y_bits@, nested_vals(chunk_levels@), nested_vals(chunk_cts@),
                        block_vals(old(self).x_gen@), old(self).chunking_factor as nat, rr as nat, c as nat),
    {
        let (x, y) = self.get_second_inputs();
        let choice_bits = self.masked_y_bits.clone();
        let xv = x.as_view();
        let yv = y.as_view();
        proof {
            assert(xv.vec_vals() =~= block_vals(self.masked_y_gen@));
            assert(yv.vec_vals() =~= block_vals(self.x_gen@));
        }
        self.eval_chunked_half_outer_product(&xv, &yv, choice_bits.as_slice(), chunk_levels, chunk_cts, false);
    }

    /// Folds the second half (transposed) and the evaluator's share of `α·β`
    /// under `Δ_gb` into `first_half_out`.
    pub fn evaluate_final(&mut self)
        requires
            !old(self).final_computed,
            old(self).outs_ok(),
            old(self).correlated_gen@.len() == old(self).n * old(self).m,
        ensures
            eval_final_step(*old(self), *final(self)),
            final(self).same_inputs(&*old(self)),
            final(self).final_computed,
            final(self).outs_ok(),
            final(self).second_half_out == old(self).second_half_out,
            final(self).first_half_out_ev == old(self).first_half_out_ev,
            final(self).second_half_out_ev == old(self).second_half_out_ev,
            forall|i: int, j: int| 0 <= i < old(self).n && 0 <= j < old(self).m ==>
                #[trigger] final(self).first_half_out.val(i, j) == old(self).first_half_out.val(i, j)
                    ^ (old(self).second_half_out.val(j, i) ^ old(self).correlated_gen@[j * old(self).n + i]@),
    {
        fold_final(&mut self.first_half_out, &self.second_half_out, &self.correlated_gen, self.n, self.m);
        self.final_computed = true;
    }

    /// Evaluates the first half with wide leaves into `first_half_out` (`Δ_gb`)
    /// and `first_half_out_ev` (`Δ_ev`, against `[β·Δ_ev]`).
    pub fn evaluate_first_half_p2(&mut self, chunk_levels: Vec<Vec<Block>>, chunk_cts: Vec<Vec<(Block, Block)>>)
        requires
            online_params_ok(old(self).n, old(self).m, old(self).chunking_factor),
            old(self).outs_ok(),
            old(self).masked_x_gen@.len() == old(self).n,
            old(self).beta_gen@.len() == old(self).m,
            old(self).beta_eval@.len() == old(self).m,
            old(self).masked_x_bits@.len() == old(self).n,
            chunk_shapes_ok(chunk_levels@, nested_lens(chunk_cts@), old(self).n as nat,
                old(self).chunking_factor as nat, old(self).m as nat),
        ensures
            eval_first_half_p2_step(*old(self), *final(self), chunk_levels@, chunk_cts@),
            final(self).same_inputs(&*old(self)),
            final(self).final_computed == old(self).final_computed,
            final(self).outs_ok(),
            final(self).second_half_out == old(self).second_half_out,
            final(self).second_half_out_ev == old(self).second_half_out_ev,
            forall|rr: int, c: int| 0 <= rr < old(self).n && 0 <= c < old(self).m ==>
                #[trigger] final(self).first_half_out.val(rr, c) == old(self).first_half_out.val(rr, c)
                    ^ chunked_eval_z(old(self).cipher.key_spec(), 1, block_vals(old(self).masked_x_gen@),
                        old(self).masked_x_bits@, nested_vals(chunk_levels@), nested_fst(chunk_cts@),
                        block_vals(old(self).beta_gen@), old(self).chunking_factor as nat, rr as nat, c as nat),
            forall|rr: int, c: int| 0 <= rr < old(self).n && 0 <= c < old(self).m ==>
                #[trigger] final(self).first_half_out_ev.val(rr, c) == old(self).first_half_out_ev.val(rr, c)
                    ^ chunked_eval_z(old(self).cipher.key_spec(), 2, block_vals(old(self).masked_x_gen@),
                        old(self).masked_x_bits@, nested_vals(chunk_levels@), nested_snd(chunk_cts@),
                        block_vals(old(self).beta_eval@), old(self).chunking_factor as nat, rr as nat, c as nat),
    {
        let (x, y_d_gb) = self.get_first_inputs();
        let y_d_ev = self.get_first_inputs_p2_y_d_ev();
        let choice_bits = self.masked_x_bits.clone();
        let xv = x.as_view();
        let ygv = y_d_gb.as_view();
        let yev = y_d_ev.as_view();
        proof {
            assert(xv.vec_vals() =~= block_vals(self.masked_x_gen@));
            assert(ygv.vec_vals() =~= block_vals(self.beta_gen@));
            assert(yev.vec_vals() =~= block_vals(self.beta_eval@));
        }
        self.eval_chunked_half_outer_product_wide(&xv, &ygv, &yev, choice_bits.as_slice(), chunk_levels, chunk_cts, true);
    }

    /// Evaluates the second half with wide leaves into `second_half_out`
    /// (`Δ_gb`) and `second_half_out_ev` (`Δ_ev`, against `[x·Δ_ev]`).
    pub fn evaluate_second_half_p2(&mut self, chunk_levels: Vec<Vec<Block>>, chunk_cts: Vec<Vec<(Block, Block)>>)
        requires
            online_params_ok(old(self).n, old(self).m, old(self).chunking_factor),
            old(self).outs_ok(),
            old(self).masked_y_gen@.len() == old(self).m,
            old(self).x_gen@.len() == old(self).n,
            old(self).alpha_eval@.len() == old(self).n,
            old(self).masked_x_bits@.len() == old(self).n,
            old(self).masked_y_bits@.len() == old(self).m,
            chunk_shapes_ok(chunk_levels@, nested_lens(chunk_cts@), old(self).m as nat,
                old(self).chunking_factor as nat, old(self).n as nat),
        ensures
            eval_second_half_p2_step(*old(self), *final(self), chunk_levels@, chunk_cts@),
            final(self).same_inputs(&*old(self)),
            final(self).final_computed == old(self).final_computed,
            final(self).outs_ok(),
            final(self).first_half_out == old(self).first_half_out,
            final(self).first_half_out_ev == old(self).first_half_out_ev,
            forall|rr: int, c: int| 0 <= rr < old(self).m && 0 <= c < old(self).n ==>
                #[trigger] final(self).second_half_out.val(rr, c) == old(self).second_half_out.val(rr, c)
                    ^ chunked_eval_z(old(self).cipher.key_spec(), 1, block_vals(old(self).masked_y_gen@),
                        old(self).masked_y_bits@, nested_vals(chunk_levels@), nested_fst(chunk_cts@),
                        block_vals(old(self).x_gen@), old(self).chunking_factor as nat, rr as nat, c as nat),
            forall|rr: int, c: int| 0 <= rr < old(self).m && 0 <= c < old(self).n ==>
                #[trigger] final(self).second_half_out_ev.val(rr, c) == old(self).second_half_out_ev.val(rr, c)
                    ^ chunked_eval_z(old(self).cipher.key_spec(), 2, block_vals(old(self).masked_y_gen@),
                        old(self).masked_y_bits@, nested_vals(chunk_levels@), nested_snd(chunk_cts@),
                        old(self).second_y_d_ev(), old(self).chunking_factor as nat, rr as nat, c as nat),
    {
        let (x, y_d_gb) = self.get_second_inputs();
        let y_d_ev = self.get_second_inputs_p2_y_d_ev();
        let choice_bits = self.masked_y_bits.clone();
        let xv = x.as_view();
        let ygv = y_d_gb.as_view();
        let yev = y_d_ev.as_view();
        proof {
            assert(xv.vec_vals() =~= block_vals(self.masked_y_gen@));
            assert(ygv.vec_vals() =~= block_vals(self.x_gen@));
            assert(yev.vec_vals() =~= self.second_y_d_ev());
        }
        self.eval_chunked_half_outer_product_wide(&xv, &ygv, &yev, choice_bits.as_slice(), chunk_levels, chunk_cts, false);
    }

    /// Folds both halves and the correlated shares into the two outputs and
    /// returns the `Δ_ev` output, column-major.
    pub fn evaluate_final_p2(&mut self) -> (r: Vec<Block>)
        requires
            !old(self).final_computed,
            old(self).outs_ok(),
            old(self).correlated_gen@.len() == old(self).n * old(self).m,
            old(self).correlated_eval@.len() == old(self).n * old(self).m,
        ensures
            eval_final_p2_step(*old(self), *final(self)),
            final(self).same_inputs(&*old(self)),
            final(self).final_computed,
            final(self).outs_ok(),
            final(self).second_half_out == old(self).second_half_out,
            final(self).second_half_out_ev == old(self).second_half_out_ev,
            forall|i: int, j: int| 0 <= i < old(self).n && 0 <= j < old(self).m ==>
                #[trigger] final(self).first_half_out.val(i, j) == old(self).first_half_out.val(i, j)
                    ^ (old(self).second_half_out.val(j, i) ^ old(self).correlated_gen@[j * old(self).n + i]@),
            forall|i: int, j: int| 0 <= i < old(self).n && 0 <= j < old(self).m ==>
                #[trigger] final(self).first_half_out_ev.val(i, j) == old(self).first_half_out_ev.val(i, j)
                    ^ (old(self).second_half_out_ev.val(j, i) ^ old(self).correlated_eval@[j * old(self).n + i]@),
            r@.len() == old(self).n * old(self).m,
            forall|i: int, j: int| 0 <= i < old(self).n && 0 <= j < old(self).m ==>
                (#[trigger] r@[j * old(self).n + i])@ == final(self).first_half_out_ev.val(i, j),
    {
        fold_final(&mut self.first_half_out, &self.second_half_out, &self.correlated_gen, self.n, self.m);
        fold_final(&mut self.first_half_out_ev, &self.second_half_out_ev, &self.correlated_eval, self.n, self.m);
        let d_ev_out = column_major(&self.first_half_out_ev, self.n, self.m);
        self.final_computed = true;
        d_ev_out
    }
}

} // verus!
