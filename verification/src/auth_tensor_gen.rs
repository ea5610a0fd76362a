//! The garbler of the authenticated tensor gate.

use vstd::prelude::*;
use vstd::arithmetic::power2::pow2;
use crate::block::{Block, lsb_of, mul_bool_spec};
use crate::aes::{FixedKeyAes, FIXED_KEY};
use crate::delta::Delta;
use crate::matrix::{BlockMatrix, TypedMatrix, MatrixViewRef};
use crate::preprocessing::TensorFpreGen;
use crate::tensor_ops::{
    gen_chunked_outer_product, gen_chunked_outer_product_wide, chunked_gen_z, chunk_levels_spec, chunk_cts_spec,
    nested_vals, nested_fst, nested_snd,
};
use crate::xor_sum::block_vals;
use crate::auth_tensor_eval::{chunk_shapes_ok, nested_lens, lemma_garbled_shapes};
use crate::tensor_gate::{
    gen_first_half_step, gen_second_half_step, gen_final_step, gen_first_half_p2_step, gen_second_half_p2_step,
    gen_final_p2_step, gen_from_fpre,
};

verus! {

broadcast use crate::block::group_xor;

/// The garbler's state for one `n × m` tensor gate.
pub struct AuthTensorGen {
    pub cipher: FixedKeyAes,
    pub chunking_factor: usize,
    pub n: usize,
    pub m: usize,
    pub delta_a: Delta,
    /// Block-form sharings of α, β, `α·β` and γ under `Δ_ev` (`_eval`) and
    /// under `Δ_gb` (`_gen`): this party's components.
    pub alpha_eval: Vec<Block>,
    pub alpha_gen: Vec<Block>,
    pub beta_eval: Vec<Block>,
    pub beta_gen: Vec<Block>,
    pub correlated_eval: Vec<Block>,
    pub correlated_gen: Vec<Block>,
    pub gamma_eval: Vec<Block>,
    pub gamma_gen: Vec<Block>,
    /// This party's components of the input sharings `[x·Δ_gb]`, `[y·Δ_gb]`.
    pub x_gen: Vec<Block>,
    pub y_gen: Vec<Block>,
    /// This party's components of the masked-input sharings `[(x⊕α)·Δ_gb]`,
    /// `[(y⊕β)·Δ_gb]`.
    pub masked_x_gen: Vec<Block>,
    pub masked_y_gen: Vec<Block>,
    /// This party's component of the masked input bits (all zero).
    pub masked_x_bits: Vec<bool>,
    pub masked_y_bits: Vec<bool>,
    pub first_half_out: BlockMatrix,
    pub second_half_out: BlockMatrix,
    pub first_half_out_ev: BlockMatrix,
    pub second_half_out_ev: BlockMatrix,
    pub final_computed: bool,
}

/// The limits the chunked trees of both halves of the tensor gate need.
pub open spec fn online_params_ok(n: usize, m: usize, cf: usize) -> bool {
    &&& n * m <= usize::MAX
    &&& 1 <= cf < usize::BITS
    &&& n + cf <= usize::MAX
    &&& m + cf <= usize::MAX
    &&& pow2(cf as nat) * m <= usize::MAX
    &&& pow2(cf as nat) * n <= usize::MAX
}

impl AuthTensorGen {
    /// The four output accumulators have the tensor gate's shapes.
    pub open spec fn outs_ok(&self) -> bool {
        &&& self.first_half_out.wf()
        &&& self.first_half_out.nrows() == self.n
        &&& self.first_half_out.ncols() == self.m
        &&& self.second_half_out.wf()
        &&& self.second_half_out.nrows() == self.m
        &&& self.second_half_out.ncols() == self.n
        &&& self.first_half_out_ev.wf()
        &&& self.first_half_out_ev.nrows() == self.n
        &&& self.first_half_out_ev.ncols() == self.m
        &&& self.second_half_out_ev.wf()
        &&& self.second_half_out_ev.nrows() == self.m
        &&& self.second_half_out_ev.ncols() == self.n
    }

    /// The four output accumulators are zero.
    pub open spec fn outs_zero(&self) -> bool {
        &&& self.first_half_out.is_zero()
        &&& self.second_half_out.is_zero()
        &&& self.first_half_out_ev.is_zero()
        &&& self.second_half_out_ev.is_zero()
    }

    /// Everything but the output accumulators agrees.
    pub open spec fn same_inputs(&self, other: &AuthTensorGen) -> bool {
        &&& self.cipher == other.cipher
        &&& self.chunking_factor == other.chunking_factor
        &&& self.n == other.n
        &&& self.m == other.m
        &&& self.delta_a == other.delta_a
        &&& self.alpha_eval == other.alpha_eval
        &&& self.alpha_gen == other.alpha_gen
        &&& self.beta_eval == other.beta_eval
        &&& self.beta_gen == other.beta_gen
        &&& self.correlated_eval == other.correlated_eval
        &&& self.correlated_gen == other.correlated_gen
        &&& self.gamma_eval == other.gamma_eval
        &&& self.gamma_gen == other.gamma_gen
        &&& self.x_gen == other.x_gen
        &&& self.y_gen == other.y_gen
        &&& self.masked_x_gen == other.masked_x_gen
        &&& self.masked_y_gen == other.masked_y_gen
        &&& self.masked_x_bits == other.masked_x_bits
        &&& self.masked_y_bits == other.masked_y_bits
    }

    /// A garbler with a fresh random `Δ_a` (pointer bit 1) and no preprocessing.
    pub fn new(n: usize, m: usize, chunking_factor: usize) -> (r: AuthTensorGen)
        requires
            n * m <= usize::MAX,
        ensures
            r.n == n,
            r.m == m,
            r.chunking_factor == chunking_factor,
            r.cipher.key_spec() == FIXED_KEY,
            lsb_of(r.delta_a@),
            r.outs_ok(),
            r.outs_zero(),
            !r.final_computed,
            r.alpha_eval@.len() == 0,
            r.correlated_gen@.len() == 0,
            r.masked_x_gen@.len() == 0,
    {
        proof {
            assert(m * n == n * m) by (nonlinear_arith);
        }
        AuthTensorGen {
            cipher: FixedKeyAes::new(),
            n,
            m,
            chunking_factor,
            delta_a: Delta::new(Block::random_from_thread()),
            alpha_eval: Vec::new(),
            alpha_gen: Vec::new(),
            beta_eval: Vec::new(),
            beta_gen: Vec::new(),
            correlated_eval: Vec::new(),
            correlated_gen: Vec::new(),
            gamma_eval: Vec::new(),
            gamma_gen: Vec::new(),
            x_gen: Vec::new(),
            y_gen: Vec::new(),
            masked_x_gen: Vec::new(),
            masked_y_gen: Vec::new(),
            masked_x_bits: Vec::new(),
            masked_y_bits: Vec::new(),
            first_half_out: BlockMatrix::new(n, m),
            second_half_out: BlockMatrix::new(m, n),
            first_half_out_ev: BlockMatrix::new(n, m),
            second_half_out_ev: BlockMatrix::new(m, n),
            final_computed: false,
        }
    }

    /// The garbler's state from its preprocessing output: `_eval` fields take
    /// the `Δ_ev` components (`_dev`), `_gen` fields the `Δ_gb` ones (`_dgb`).
    pub fn new_from_fpre_gen(fpre_gen: TensorFpreGen) -> (r: AuthTensorGen)
        requires
            fpre_gen.n * fpre_gen.m <= usize::MAX,
        ensures
            gen_from_fpre(fpre_gen, r),
            r.n == fpre_gen.n,
            r.m == fpre_gen.m,
            r.chunking_factor == fpre_gen.chunking_factor,
            r.cipher.key_spec() == FIXED_KEY,
            r.delta_a == fpre_gen.delta_gb,
            r.alpha_eval == fpre_gen.alpha_dev,
            r.alpha_gen == fpre_gen.alpha_dgb,
            r.beta_eval == fpre_gen.beta_dev,
            r.beta_gen == fpre_gen.beta_dgb,
            r.correlated_eval == fpre_gen.correlated_dev,
            r.correlated_gen == fpre_gen.correlated_dgb,
            r.gamma_eval == fpre_gen.gamma_dev,
            r.gamma_gen == fpre_gen.gamma_dgb,
            r.x_gen@.len() == 0,
            r.y_gen@.len() == 0,
            r.masked_x_gen@.len() == 0,
            r.masked_y_gen@.len() == 0,
            r.masked_x_bits@.len() == 0,
            r.masked_y_bits@.len() == 0,
            r.outs_ok(),
            r.outs_zero(),
            !r.final_computed,
    {
        let n = fpre_gen.n;
        let m = fpre_gen.m;
        proof {
            assert(m * n == n * m) by (nonlinear_arith);
        }
        AuthTensorGen {
            cipher: FixedKeyAes::new(),
            n,
            m,
            chunking_factor: fpre_gen.chunking_factor,
            delta_a: fpre_gen.delta_gb,
            alpha_eval: fpre_gen.alpha_dev,
            alpha_gen: fpre_gen.alpha_dgb,
            beta_eval: fpre_gen.beta_dev,
            beta_gen: fpre_gen.beta_dgb,
            correlated_eval: fpre_gen.correlated_dev,
            correlated_gen: fpre_gen.correlated_dgb,
            gamma_eval: fpre_gen.gamma_dev,
            gamma_gen: fpre_gen.gamma_dgb,
            x_gen: Vec::new(),
            y_gen: Vec::new(),
            masked_x_gen: Vec::new(),
            masked_y_gen: Vec::new(),
            masked_x_bits: Vec::new(),
            masked_y_bits: Vec::new(),
            first_half_out: BlockMatrix::new(n, m),
            second_half_out: BlockMatrix::new(m, n),
            first_half_out_ev: BlockMatrix::new(n, m),
            second_half_out_ev: BlockMatrix::new(m, n),
            final_computed: false,
        }
    }

    /// One half of the tensor gate: `x` against `y` into `first_half_out` (`n × m`)
    /// or `second_half_out` (`m × n`), chunked by the chunking factor.
    pub fn gen_chunked_half_outer_product(
        &mut self,
        x: &MatrixViewRef<Block>,
        y: &MatrixViewRef<Block>,
        first_half: bool,
    ) -> (r: (Vec<Vec<Block>>, Vec<Vec<Block>>))
        requires
            online_params_ok(old(self).n, old(self).m, old(self).chunking_factor),
            old(self).outs_ok(),
            x.vec_ok(),
            y.vec_ok(),
            x.view_rows == if first_half { old(self).n } else { old(self).m },
            y.view_rows == if first_half { old(self).m } else { old(self).n },
        ensures
            final(self).same_inputs(&*old(self)),
            final(self).final_computed == old(self).final_computed,
            final(self).outs_ok(),
            final(self).first_half_out_ev == old(self).first_half_out_ev,
            final(self).second_half_out_ev == old(self).second_half_out_ev,
            first_half ==> final(self).second_half_out == old(self).second_half_out,
            !first_half ==> final(self).first_half_out == old(self).first_half_out,
            first_half ==> forall|rr: int, c: int| 0 <= rr < x.view_rows && 0 <= c < y.view_rows ==>
                #[trigger] final(self).first_half_out.val(rr, c) == old(self).first_half_out.val(rr, c)
                    ^ chunked_gen_z(old(self).cipher.key_spec(), 0, x.vec_vals(), old(self).delta_a@,
                        old(self).chunking_factor as nat, rr as nat, c as nat),
            !first_half ==> forall|rr: int, c: int| 0 <= rr < x.view_rows && 0 <= c < y.view_rows ==>
                #[trigger] final(self).second_half_out.val(rr, c) == old(self).second_half_out.val(rr, c)
                    ^ chunked_gen_z(old(self).cipher.key_spec(), 0, x.vec_vals(), old(self).delta_a@,
                        old(self).chunking_factor as nat, rr as nat, c as nat),
            nested_vals(r.0@) == chunk_levels_spec(old(self).cipher.key_spec(), x.vec_vals(), old(self).delta_a@,
                old(self).chunking_factor as nat),
            nested_vals(r.1@) == chunk_cts_spec(old(self).cipher.key_spec(), 0, x.vec_vals(), old(self).delta_a@,
                old(self).chunking_factor as nat, y.vec_vals()),
    {
        let cf = self.chunking_factor;
        let delta = self.delta_a;
        let cipher = self.cipher;
        if first_half {
            gen_chunked_outer_product(x, y, &mut self.first_half_out, cf, &cipher, delta)
        } else {
            gen_chunked_outer_product(x, y, &mut self.second_half_out, cf, &cipher, delta)
        }
    }

    /// The wide variant of one half: the same trees expanded under the κ
    /// tweaks against `y_d_gb` into the `Δ_gb` accumulator and under the ρ
    /// tweaks against `y_d_ev` into the `Δ_ev` accumulator.
    pub fn gen_chunked_half_outer_product_wide(
        &mut self,
        x: &MatrixViewRef<Block>,
        y_d_gb: &MatrixViewRef<Block>,
        y_d_ev: &MatrixViewRef<Block>,
        first_half: bool,
    ) -> (r: (Vec<Vec<Block>>, Vec<Vec<(Block, Block)>>))
        requires
            online_params_ok(old(self).n, old(self).m, old(self).chunking_factor),
            old(self).outs_ok(),
            x.vec_ok(),
            y_d_gb.vec_ok(),
            y_d_ev.vec_ok(),
            x.view_rows == if first_half { old(self).n } else { old(self).m },
            y_d_gb.view_rows == if first_half { old(self).m } else { old(self).n },
            y_d_ev.view_rows == y_d_gb.view_rows,
        ensures
            final(self).same_inputs(&*old(self)),
            final(self).final_computed == old(self).final_computed,
            final(self).outs_ok(),
            first_half ==> final(self).second_half_out == old(self).second_half_out
                && final(self).second_half_out_ev == old(self).second_half_out_ev,
            !first_half ==> final(self).first_half_out == old(self).first_half_out
                && final(self).first_half_out_ev == old(self).first_half_out_ev,
            first_half ==> forall|rr: int, c: int| 0 <= rr < x.view_rows && 0 <= c < y_d_gb.view_rows ==>
                #[trigger] final(self).first_half_out.val(rr, c) == old(self).first_half_out.val(rr, c)
                    ^ chunked_gen_z(old(self).cipher.key_spec(), 1, x.vec_vals(), old(self).delta_a@,
                        old(self).chunking_factor as nat, rr as nat, c as nat),
            first_half ==> forall|rr: int, c: int| 0 <= rr < x.view_rows && 0 <= c < y_d_gb.view_rows ==>
                #[trigger] final(self).first_half_out_ev.val(rr, c) == old(self).first_half_out_ev.val(rr, c)
                    ^ chunked_gen_z(old(self).cipher.key_spec(), 2, x.vec_vals(), old(self).delta_a@,
                        old(self).chunking_factor as nat, rr as nat, c as nat),
            !first_half ==> forall|rr: int, c: int| 0 <= rr < x.view_rows && 0 <= c < y_d_gb.view_rows ==>
                #[trigger] final(self).second_half_out.val(rr, c) == old(self).second_half_out.val(rr, c)
                    ^ chunked_gen_z(old(self).cipher.key_spec(), 1, x.vec_vals(), old(self).delta_a@,
                        old(self).chunking_factor as nat, rr as nat, c as nat),
            !first_half ==> forall|rr: int, c: int| 0 <= rr < x.view_rows && 0 <= c < y_d_gb.view_rows ==>
                #[trigger] final(self).second_half_out_ev.val(rr, c) == old(self).second_half_out_ev.val(rr, c)
                    ^ chunked_gen_z(old(self).cipher.key_spec(), 2, x.vec_vals(), old(self).delta_a@,
                        old(self).chunking_factor as nat, rr as nat, c as nat),
            nested_vals(r.0@) == chunk_levels_spec(old(self).cipher.key_spec(), x.vec_vals(), old(self).delta_a@,
                old(self).chunking_factor as nat),
            nested_fst(r.1@) == chunk_cts_spec(old(self).cipher.key_spec(), 1, x.vec_vals(), old(self).delta_a@,
                old(self).chunking_factor as nat, y_d_gb.vec_vals()),
            nested_snd(r.1@) == chunk_cts_spec(old(self).cipher.key_spec(), 2, x.vec_vals(), old(self).delta_a@,
                old(self).chunking_factor as nat, y_d_ev.vec_vals()),
    {
        let cf = self.chunking_factor;
        let delta = self.delta_a;
        let cipher = self.cipher;
        if first_half {
            gen_chunked_outer_product_wide(x, y_d_gb, y_d_ev, &mut self.first_half_out,
                &mut self.first_half_out_ev, cf, &cipher, delta)
        } else {
            gen_chunked_outer_product_wide(x, y_d_gb, y_d_ev, &mut self.second_half_out,
                &mut self.second_half_out_ev, cf, &cipher, delta)
        }
    }

    /// The garbler's inputs to the first half: `[(x⊕α)·Δ_gb]` against `[β·Δ_gb]`.
    pub fn get_first_inputs(&self) -> (r: (BlockMatrix, BlockMatrix))
        requires
            self.masked_x_gen@.len() == self.n,
            self.beta_gen@.len() == self.m,
        ensures
            r.0.wf(),
            r.1.wf(),
            r.0.nrows() == self.n,
            r.0.ncols() == 1,
            r.1.nrows() == self.m,
            r.1.ncols() == 1,
            r.0.elems() == self.masked_x_gen@,
            r.1.elems() == self.beta_gen@,
    {
        (BlockMatrix::from_column(self.masked_x_gen.as_slice()), BlockMatrix::from_column(self.beta_gen.as_slice()))
    }

    /// The garbler's inputs to the second half: `[(y⊕β)·Δ_gb]` against `[x·Δ_gb]`.
    pub fn get_second_inputs(&self) -> (r: (BlockMatrix, BlockMatrix))
        requires
            self.masked_y_gen@.len() == self.m,
            self.x_gen@.len() == self.n,
        ensures
            r.0.wf(),
            r.1.wf(),
            r.0.nrows() == self.m,
            r.0.ncols() == 1,
            r.1.nrows() == self.n,
            r.1.ncols() == 1,
            r.0.elems() == self.masked_y_gen@,
            r.1.elems() == self.x_gen@,
    {
        (BlockMatrix::from_column(self.masked_y_gen.as_slice()), BlockMatrix::from_column(self.x_gen.as_slice()))
    }

    /// Garbles the first half, `(x⊕α) ⊗ β`, into `first_half_out`; returns the
    /// per-chunk level and leaf ciphertexts.
    pub fn garble_first_half(&mut self) -> (r: (Vec<Vec<Block>>, Vec<Vec<Block>>))
        requires
            online_params_ok(old(self).n, old(self).m, old(self).chunking_factor),
            old(self).outs_ok(),
            old(self).masked_x_gen@.len() == old(self).n,
            old(self).beta_gen@.len() == old(self).m,
        ensures
            chunk_shapes_ok(r.0@, nested_lens(r.1@), old(self).n as nat, old(self).chunking_factor as nat, old(self).m as nat),
            gen_first_half_step(*old(self), *final(self), r.0@, r.1@),
            final(self).same_inputs(&*old(self)),
            final(self).final_computed == old(self).final_computed,
            final(self).outs_ok(),
            final(self).second_half_out == old(self).second_half_out,
            final(self).first_half_out_ev == old(self).first_half_out_ev,
            final(self).second_half_out_ev == old(self).second_half_out_ev,
            forall|rr: int, c: int| 0 <= rr < old(self).n && 0 <= c < old(self).m ==>
                #[trigger] final(self).first_half_out.val(rr, c) == old(self).first_half_out.val(rr, c)
                    ^ chunked_gen_z(old(self).cipher.key_spec(), 0, block_vals(old(self).masked_x_gen@),
                        old(self).delta_a@, old(self).chunking_factor as nat, rr as nat, c as nat),
            nested_vals(r.0@) == chunk_levels_spec(old(self).cipher.key_spec(), block_vals(old(self).masked_x_gen@),
                old(self).delta_a@, old(self).chunking_factor as nat),
            nested_vals(r.1@) == chunk_cts_spec(old(self).cipher.key_spec(), 0, block_vals(old(self).masked_x_gen@),
                old(self).delta_a@, old(self).chunking_factor as nat, block_vals(old(self).beta_gen@)),
    {
        let (x, y) = self.get_first_inputs();
        let xv = x.as_view();
        let yv = y.as_view();
        proof {
            assert(xv.vec_vals() =~= block_vals(self.masked_x_gen@));
            assert(yv.vec_vals() =~= block_vals(self.beta_gen@));
        }
        let ghost g0 = *self;
        let r = self.gen_chunked_half_outer_product(&xv, &yv, true);
        proof {
            assert(nested_vals(r.1@).len() == r.1@.len());
            assert(nested_lens(r.1@).len() == r.1@.len());
            assert(xv.vec_vals().len() == xv.view_rows);
            assert forall|s: int| 0 <= s < nested_lens(r.1@).len() implies #[trigger] nested_lens(r.1@)[s] == g0.m by {
                assert(nested_vals(r.1@)[s].len() == r.1@[s]@.len());
                assert(nested_vals(r.1@)[s] == chunk_cts_spec(g0.cipher.key_spec(), 0, block_vals(g0.masked_x_gen@), g0.delta_a@,
                    g0.chunking_factor as nat, block_vals(g0.beta_gen@))[s]);
            }
            assert(nested_vals(r.1@) == chunk_cts_spec(g0.cipher.key_spec(), 0, block_vals(g0.masked_x_gen@), g0.delta_a@,
                g0.chunking_factor as nat, block_vals(g0.beta_gen@)));
            lemma_garbled_shapes(r.0@, nested_lens(r.1@), g0.cipher.key_spec(), block_vals(g0.masked_x_gen@), g0.delta_a@,
                g0.chunking_factor as nat, g0.m as nat);
        }
        r
    }

    /// Garbles the second half, `(y⊕β) ⊗ x`, into `second_half_out`.
    pub fn garble_second_half(&mut self) -> (r: (Vec<Vec<Block>>, Vec<Vec<Block>>))
        requires
            online_params_ok(old(self).n, old(self).m, old(self).chunking_factor),
            old(self).outs_ok(),
            old(self).masked_y_gen@.len() == old(self).m,
            old(self).x_gen@.len() == old(self).n,
        ensures
            chunk_shapes_ok(r.0@, nested_lens(r.1@), old(self).m as nat, old(self).chunking_factor as nat, old(self).n as nat),
            gen_second_half_step(*old(self), *final(self), r.0@, r.1@),
            final(self).same_inputs(&*old(self)),
            final(self).final_computed == old(self).final_computed,
            final(self).outs_ok(),
            final(self).first_half_out == old(self).first_half_out,
            final(self).first_half_out_ev == old(self).first_half_out_ev,
            final(self).second_half_out_ev == old(self).second_half_out_ev,
            forall|rr: int, c: int| 0 <= rr < old(self).m && 0 <= c < old(self).n ==>
                #[trigger] final(self).second_half_out.val(rr, c) == old(self).second_half_out.val(rr, c)
                    ^ chunked_gen_z(old(self).cipher.key_spec(), 0, block_vals(old(self).masked_y_gen@),
                        old(self).delta_a@, old(self).chunking_factor as nat, rr as nat, c as nat),
            nested_vals(r.0@) == chunk_levels_spec(old(self).cipher.key_spec(), block_vals(old(self).masked_y_gen@),
                old(self).delta_a@, old(self).chunking_factor as nat),
            nested_vals(r.1@) == chunk_cts_spec(old(self).cipher.key_spec(), 0, block_vals(old(self).masked_y_gen@),
                old(self).delta_a@, old(self).chunking_factor as nat, block_vals(old(self).x_gen@)),
    {
        let (x, y) = self.get_second_inputs();
        let xv = x.as_view();
        let yv = y.as_view();
        proof {
            assert(xv.vec_vals() =~= block_vals(self.masked_y_gen@));
            assert(yv.vec_vals() =~= block_vals(self.x_gen@));
        }
        let ghost g0 = *self;
        let r = self.gen_chunked_half_outer_product(&xv, &yv, false);
        proof {
            assert(nested_vals(r.1@).len() == r.1@.len());
            assert(nested_lens(r.1@).len() == r.1@.len());
            assert(xv.vec_vals().len() == xv.view_rows);
            assert forall|s: int| 0 <= s < nested_lens(r.1@).len() implies #[trigger] nested_lens(r.1@)[s] == g0.n by {
                assert(nested_vals(r.1@)[s].len() == r.1@[s]@.len());
                assert(nested_vals(r.1@)[s] == chunk_cts_spec(g0.cipher.key_spec(), 0, block_vals(g0.masked_y_gen@), g0.delta_a@,
                    g0.chunking_factor as nat, block_vals(g0.x_gen@))[s]);
            }
            assert(nested_vals(r.1@) == chunk_cts_spec(g0.cipher.key_spec(), 0, block_vals(g0.masked_y_gen@), g0.delta_a@,
                g0.chunking_factor as nat, block_vals(g0.x_gen@)));
            lemma_garbled_shapes(r.0@, nested_lens(r.1@), g0.cipher.key_spec(), block_vals(g0.masked_y_gen@), g0.delta_a@,
                g0.chunking_factor as nat, g0.n as nat);
        }
        r
    }

    /// Folds the second half (transposed) and the garbler's share of `α·β`
    /// under `Δ_gb` into `first_half_out`.
    pub fn garble_final(&mut self)
        requires
            !old(self).final_computed,
            old(self).outs_ok(),
            old(self).correlated_gen@.len() == old(self).n * old(self).m,
        ensures
            gen_final_step(*old(self), *final(self)),
            final(self).same_inputs(&*old(self)),
            final(self).final_computed,
            final(self).outs_ok(),
            final(self).second_half_out == old(self).second_half_out,
            final(self).first_half_out_ev == old(self).first_half_out_ev,
            final(self).second_half_out_ev == old(self).second_half_out_ev,
            forall|i: int, j: int| 0 <= i < old(self).n && 0 <= j < old(self).m ==>
                #[trigger] final(self).first_half_out.val(i, j) == old(self).first_half_out.val(i, j)
                    ^ (old(self).second_half_out.val(j, i) ^ old(self).correlated_gen@[j * old(self).n + i]@),
    {
        fold_final(&mut self.first_half_out, &self.second_half_out, &self.correlated_gen, self.n, self.m);
        self.final_computed = true;
    }

    /// The garbler's `Δ_ev`-side inputs of the first half: `[β·Δ_ev]`.
    fn get_first_inputs_p2_y_d_ev(&self) -> (r: BlockMatrix)
        requires
            self.beta_eval@.len() == self.m,
        ensures
            r.wf(),
            r.nrows() == self.m,
            r.ncols() == 1,
            r.elems() == self.beta_eval@,
    {
        BlockMatrix::from_column(self.beta_eval.as_slice())
    }

    /// The garbler's `Δ_ev`-side inputs of the second half: `[α·Δ_ev]`.
    fn get_second_inputs_p2_y_d_ev(&self) -> (r: BlockMatrix)
        requires
            self.alpha_eval@.len() == self.n,
        ensures
            r.wf(),
            r.nrows() == self.n,
            r.ncols() == 1,
            r.elems() == self.alpha_eval@,
    {
        BlockMatrix::from_column(self.alpha_eval.as_slice())
    }

    /// Garbles the first half with wide leaves: `(x⊕α) ⊗ β` under `Δ_gb` into
    /// `first_half_out` and under `Δ_ev` into `first_half_out_ev`.
    pub fn garble_first_half_p2(&mut self) -> (r: (Vec<Vec<Block>>, Vec<Vec<(Block, Block)>>))
        requires
            online_params_ok(old(self).n, old(self).m, old(self).chunking_factor),
            old(self).outs_ok(),
            old(self).masked_x_gen@.len() == old(self).n,
            old(self).beta_gen@.len() == old(self).m,
            old(self).beta_eval@.len() == old(self).m,
        ensures
            chunk_shapes_ok(r.0@, nested_lens(r.1@), old(self).n as nat, old(self).chunking_factor as nat, old(self).m as nat),
            gen_first_half_p2_step(*old(self), *final(self), r.0@, r.1@),
            final(self).same_inputs(&*old(self)),
            final(self).final_computed == old(self).final_computed,
            final(self).outs_ok(),
            final(self).second_half_out == old(self).second_half_out,
            final(self).second_half_out_ev == old(self).second_half_out_ev,
            forall|rr: int, c: int| 0 <= rr < old(self).n && 0 <= c < old(self).m ==>
                #[trigger] final(self).first_half_out.val(rr, c) == old(self).first_half_out.val(rr, c)
                    ^ chunked_gen_z(old(self).cipher.key_spec(), 1, block_vals(old(self).masked_x_gen@),
                        old(self).delta_a@, old(self).chunking_factor as nat, rr as nat, c as nat),
            forall|rr: int, c: int| 0 <= rr < old(self).n && 0 <= c < old(self).m ==>
                #[trigger] final(self).first_half_out_ev.val(rr, c) == old(self).first_half_out_ev.val(rr, c)
                    ^ chunked_gen_z(old(self).cipher.key_spec(), 2, block_vals(old(self).masked_x_gen@),
                        old(self).delta_a@, old(self).chunking_factor as nat, rr as nat, c as nat),
            nested_vals(r.0@) == chunk_levels_spec(old(self).cipher.key_spec(), block_vals(old(self).masked_x_gen@),
                old(self).delta_a@, old(self).chunking_factor as nat),
            nested_fst(r.1@) == chunk_cts_spec(old(self).cipher.key_spec(), 1, block_vals(old(self).masked_x_gen@),
                old(self).delta_a@, old(self).chunking_factor as nat, block_vals(old(self).beta_gen@)),
            nested_snd(r.1@) == chunk_cts_spec(old(self).cipher.key_spec(), 2, block_vals(old(self).masked_x_gen@),
                old(self).delta_a@, old(self).chunking_factor as nat, block_vals(old(self).beta_eval@)),
    {
        let (x, y_d_gb) = self.get_first_inputs();
        let y_d_ev = self.get_first_inputs_p2_y_d_ev();
        let xv = x.as_view();
        let ygv = y_d_gb.as_view();
        let yev = y_d_ev.as_view();
        proof {
            assert(xv.vec_vals() =~= block_vals(self.masked_x_gen@));
            assert(ygv.vec_vals() =~= block_vals(self.beta_gen@));
            assert(yev.vec_vals() =~= block_vals(self.beta_eval@));
        }
        let ghost g0 = *self;
        let r = self.gen_chunked_half_outer_product_wide(&xv, &ygv, &yev, true);
        proof {
            assert(nested_fst(r.1@).len() == r.1@.len());
            assert(nested_lens(r.1@).len() == r.1@.len());
            assert(xv.vec_vals().len() == xv.view_rows);
            assert forall|s: int| 0 <= s < nested_lens(r.1@).len() implies #[trigger] nested_lens(r.1@)[s] == g0.m by {
                assert(nested_fst(r.1@)[s].len() == r.1@[s]@.len());
                assert(nested_fst(r.1@)[s] == chunk_cts_spec(g0.cipher.key_spec(), 1, block_vals(g0.masked_x_gen@), g0.delta_a@,
                    g0.chunking_factor as nat, block_vals(g0.beta_gen@))[s]);
            }
            assert(nested_fst(r.1@) == chunk_cts_spec(g0.cipher.key_spec(), 1, block_vals(g0.masked_x_gen@), g0.delta_a@,
                g0.chunking_factor as nat, block_vals(g0.beta_gen@)));
            lemma_garbled_shapes(r.0@, nested_lens(r.1@), g0.cipher.key_spec(), block_vals(g0.masked_x_gen@), g0.delta_a@,
                g0.chunking_factor as nat, g0.m as nat);
        }
        r
    }

    /// Garbles the second half with wide leaves: `(y⊕β) ⊗ x` under `Δ_gb` into
    /// `second_half_out` and, against `[α·Δ_ev]`, into `second_half_out_ev`.
    pub fn garble_second_half_p2(&mut self) -> (r: (Vec<Vec<Block>>, Vec<Vec<(Block, Block)>>))
        requires
            online_params_ok(old(self).n, old(self).m, old(self).chunking_factor),
            old(self).outs_ok(),
            old(self).masked_y_gen@.len() == old(self).m,
            old(self).x_gen@.len() == old(self).n,
            old(self).alpha_eval@.len() == old(self).n,
        ensures
            chunk_shapes_ok(r.0@, nested_lens(r.1@), old(self).m as nat, old(self).chunking_factor as nat, old(self).n as nat),
            gen_second_half_p2_step(*old(self), *final(self), r.0@, r.1@),
            final(self).same_inputs(&*old(self)),
            final(self).final_computed == old(self).final_computed,
            final(self).outs_ok(),
            final(self).first_half_out == old(self).first_half_out,
            final(self).first_half_out_ev == old(self).first_half_out_ev,
            forall|rr: int, c: int| 0 <= rr < old(self).m && 0 <= c < old(self).n ==>
                #[trigger] final(self).second_half_out.val(rr, c) == old(self).second_half_out.val(rr, c)
                    ^ chunked_gen_z(old(self).cipher.key_spec(), 1, block_vals(old(self).masked_y_gen@),
                        old(self).delta_a@, old(self).chunking_factor as nat, rr as nat, c as nat),
            forall|rr: int, c: int| 0 <= rr < old(self).m && 0 <= c < old(self).n ==>
                #[trigger] final(self).second_half_out_ev.val(rr, c) == old(self).second_half_out_ev.val(rr, c)
                    ^ chunked_gen_z(old(self).cipher.key_spec(), 2, block_vals(old(self).masked_y_gen@),
                        old(self).delta_a@, old(self).chunking_factor as nat, rr as nat, c as nat),
            nested_vals(r.0@) == chunk_levels_spec(old(self).cipher.key_spec(), block_vals(old(self).masked_y_gen@),
                old(self).delta_a@, old(self).chunking_factor as nat),
            nested_fst(r.1@) == chunk_cts_spec(old(self).cipher.key_spec(), 1, block_vals(old(self).masked_y_gen@),
                old(self).delta_a@, old(self).chunking_factor as nat, block_vals(old(self).x_gen@)),
            nested_snd(r.1@) == chunk_cts_spec(old(self).cipher.key_spec(), 2, block_vals(old(self).masked_y_gen@),
                old(self).delta_a@, old(self).chunking_factor as nat, block_vals(old(self).alpha_eval@)),
    {
        let (x, y_d_gb) = self.get_second_inputs();
        let y_d_ev = self.get_second_inputs_p2_y_d_ev();
        let xv = x.as_view();
        let ygv = y_d_gb.as_view();
        let yev = y_d_ev.as_view();
        proof {
            assert(xv.vec_vals() =~= block_vals(self.masked_y_gen@));
            assert(ygv.vec_vals() =~= block_vals(self.x_gen@));
            assert(yev.vec_vals() =~= block_vals(self.alpha_eval@));
        }
        let ghost g0 = *self;
        let r = self.gen_chunked_half_outer_product_wide(&xv, &ygv, &yev, false);
        proof {
            assert(nested_fst(r.1@).len() == r.1@.len());
            assert(nested_lens(r.1@).len() == r.1@.len());
            assert(xv.vec_vals().len() == xv.view_rows);
            assert forall|s: int| 0 <= s < nested_lens(r.1@).len() implies #[trigger] nested_lens(r.1@)[s] == g0.n by {
                assert(nested_fst(r.1@)[s].len() == r.1@[s]@.len());
                assert(nested_fst(r.1@)[s] == chunk_cts_spec(g0.cipher.key_spec(), 1, block_vals(g0.masked_y_gen@), g0.delta_a@,
                    g0.chunking_factor as nat, block_vals(g0.x_gen@))[s]);
            }
            assert(nested_fst(r.1@) == chunk_cts_spec(g0.cipher.key_spec(), 1, block_vals(g0.masked_y_gen@), g0.delta_a@,
                g0.chunking_factor as nat, block_vals(g0.x_gen@)));
            lemma_garbled_shapes(r.0@, nested_lens(r.1@), g0.cipher.key_spec(), block_vals(g0.masked_y_gen@), g0.delta_a@,
                g0.chunking_factor as nat, g0.n as nat);
        }
        r
    }

    /// Folds both halves and the correlated shares into the two outputs, and
    /// returns them column-major: the `Δ_gb` output from `first_half_out` and
    /// the `Δ_ev` output from `first_half_out_ev`.
    pub fn garble_final_p2(&mut self) -> (r: (Vec<Block>, Vec<Block>))
        requires
            !old(self).final_computed,
            old(self).outs_ok(),
            old(self).correlated_gen@.len() == old(self).n * old(self).m,
            old(self).correlated_eval@.len() == old(self).n * old(self).m,
        ensures
            gen_final_p2_step(*old(self), *final(self)),
            final(self).same_inputs(&*old(self)),
            final(self).final_computed,
            final(self).outs_ok(),
            final(self).second_half_out == old(self).second_half_out,
            final(self).second_half_out_ev == old(self).second_half_out_ev,
            forall|i: int, j: int| 0 <= i < old(self).n && 0 <= j < old(self).m ==>
                #[trigger] final(self).first_half_out.val(i, j) == old(self).first_half_out.val(i, j)
                    ^ (old(self).second_half_out.val(j, i) ^ old(self).correlated_gen@[j * old(self).n + i]@),
            forall|i: int, j: int| 0 <= i < old(self).n && 0 <= j < old(self).m ==>
                #[trigger] final(self).first_half_out_ev.val(i, j) == old(self).first_half_out_ev.val(i, j)
                    ^ (old(self).second_half_out_ev.val(j, i) ^ old(self).correlated_eval@[j * old(self).n + i]@),
            r.0@.len() == old(self).n * old(self).m,
            r.1@.len() == old(self).n * old(self).m,
            forall|i: int, j: int| 0 <= i < old(self).n && 0 <= j < old(self).m ==>
                (#[trigger] r.0@[j * old(self).n + i])@ == final(self).first_half_out.val(i, j)
                && r.1@[j * old(self).n + i]@ == final(self).first_half_out_ev.val(i, j),
    {
        fold_final(&mut self.first_half_out, &self.second_half_out, &self.correlated_gen, self.n, self.m);
        fold_final(&mut self.first_half_out_ev, &self.second_half_out_ev, &self.correlated_eval, self.n, self.m);
        let d_gb_out = column_major(&self.first_half_out, self.n, self.m);
        let d_ev_out = column_major(&self.first_half_out_ev, self.n, self.m);
        self.final_computed = true;
        (d_gb_out, d_ev_out)
    }
}

/// `first[(i, j)] ^= second[(j, i)] ^ corr[j·n + i]` for every `i < n`, `j < m`.
pub(crate) fn fold_final(first: &mut BlockMatrix, second: &BlockMatrix, corr: &Vec<Block>, n: usize, m: usize)
    requires
        old(first).wf(),
        second.wf(),
        old(first).nrows() == n,
        old(first).ncols() == m,
        second.nrows() == m,
        second.ncols() == n,
        corr@.len() == n * m,
    ensures
        final(first).wf(),
        final(first).nrows() == n,
        final(first).ncols() == m,
        forall|i: int, j: int| 0 <= i < n && 0 <= j < m ==>
            #[trigger] final(first).val(i, j) == old(first).val(i, j) ^ (second.val(j, i) ^ corr@[j * n + i]@),
{
    let ghost before = *first;
    let mut i: usize = 0;
    while i < n
        invariant
            i <= n,
            first.wf(),
            second.wf(),
            first.nrows() == n,
            first.ncols() == m,
            second.nrows() == m,
            second.ncols() == n,
            corr@.len() == n * m,
            forall|ii: int, jj: int| 0 <= ii < n && 0 <= jj < m ==>
                #[trigger] first.val(ii, jj) == if ii < i {
                    before.val(ii, jj) ^ (second.val(jj, ii) ^ corr@[jj * n + ii]@)
                } else {
                    before.val(ii, jj)
                },
        decreases n - i,
    {
        let mut j: usize = 0;
        while j < m
            invariant
                i < n,
                j <= m,
                first.wf(),
                second.wf(),
                first.nrows() == n,
                first.ncols() == m,
                second.nrows() == m,
                second.ncols() == n,
                corr@.len() == n * m,
                forall|ii: int, jj: int| 0 <= ii < n && 0 <= jj < m ==>
                    #[trigger] first.val(ii, jj) == if ii < i || (ii == i && jj < j) {
                        before.val(ii, jj) ^ (second.val(jj, ii) ^ corr@[jj * n + ii]@)
                    } else {
                        before.val(ii, jj)
                    },
            decreases m - j,
        {
            proof {
                crate::matrix::lemma_flat_bound(i as int, j as int, n as int, m as int);
                assert(j * n + i == i + j * n);
            }
            let v = second.get(j, i).xor(&corr[j * n + i]);
            first.xor_at(i, j, v);
            j = j + 1;
        }
        i = i + 1;
    }
}

/// The entries of an `n × m` matrix, column-major.
pub(crate) fn column_major(mat: &BlockMatrix, n: usize, m: usize) -> (r: Vec<Block>)
    requires
        mat.wf(),
        mat.nrows() == n,
        mat.ncols() == m,
    ensures
        r@.len() == n * m,
        forall|i: int, j: int| 0 <= i < n && 0 <= j < m ==> (#[trigger] r@[j * n + i])@ == mat.val(i, j),
{
    let mut out: Vec<Block> = Vec::new();
    let mut j: usize = 0;
    while j < m
        invariant
            j <= m,
            mat.wf(),
            mat.nrows() == n,
            mat.ncols() == m,
            out@.len() == j * n,
            forall|i: int, jj: int| 0 <= i < n && 0 <= jj < j ==> (#[trigger] out@[jj * n + i])@ == mat.val(i, jj),
        decreases m - j,
    {
        let mut i: usize = 0;
        while i < n
            invariant
                i <= n,
                j < m,
                mat.wf(),
                mat.nrows() == n,
                mat.ncols() == m,
                out@.len() == j * n + i,
                forall|ii: int, jj: int| 0 <= ii < n && 0 <= jj < j ==> (#[trigger] out@[jj * n + ii])@ == mat.val(ii, jj),
                forall|ii: int| 0 <= ii < i ==> (#[trigger] out@[j * n + ii])@ == mat.val(ii, j as int),
            decreases n - i,
        {
            let ghost before = out@;
            out.push(mat.get(i, j));
            proof {
                assert forall|ii: int, jj: int| 0 <= ii < n && 0 <= jj < j implies
                    (#[trigger] out@[jj * n + ii])@ == mat.val(ii, jj) by {
                    assert(jj * n + ii < j * n) by (nonlinear_arith)
                        requires
                            0 <= ii < n,
                            jj < j,
                    ;
                    assert(out@[jj * n + ii] == before[jj * n + ii]);
                }
            }
            i = i + 1;
        }
        proof {
            assert((j + 1) * n == j * n + n) by (nonlinear_arith);
        }
        j = j + 1;
    }
    proof {
        assert(m * n == n * m) by (nonlinear_arith);
    }
    out
}

} // verus!
