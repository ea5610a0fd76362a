//! The garbler of the semi-honest tensor gate.

use vstd::prelude::*;
use crate::block::{Block, mul_bool_spec};
use crate::aes::{FixedKeyAes, FIXED_KEY};
use crate::delta::Delta;
use crate::matrix::{BlockMatrix, MatrixViewRef};
use crate::tensor_pre::SemiHonestTensorPreGen;
use crate::tensor_ops::{gen_chunked_outer_product, chunked_gen_z, chunk_levels_spec, chunk_cts_spec, nested_vals};
use crate::auth_tensor_gen::{online_params_ok, fold_final};
use crate::xor_sum::block_vals;
use crate::auth_tensor_eval::{chunk_shapes_ok, nested_lens, lemma_garbled_shapes};
use crate::tensor_eval::{
    semi_honest_gen_first_half_step, semi_honest_gen_second_half_step, semi_honest_gen_final_step,
    semi_honest_gen_from_fpre,
};

verus! {

broadcast use crate::block::group_xor;

/// The semi-honest garbler's state for one `n × m` tensor gate.
pub struct TensorProductGen {
    pub cipher: FixedKeyAes,
    pub chunking_factor: usize,
    pub n: usize,
    pub m: usize,
    pub delta: Delta,
    pub x_labels: Vec<Block>,
    pub y_labels: Vec<Block>,
    pub alpha_labels: Vec<Block>,
    pub beta_labels: Vec<Block>,
    pub gb_first_half_out_dgb: BlockMatrix,
    pub gb_second_half_out_dgb: BlockMatrix,
}

/// `x ⊕ y`, element-wise.
pub open spec fn xor_vals(x: Seq<Block>, y: Seq<Block>) -> Seq<u128> {
    Seq::new(x.len(), |i: int| x[i]@ ^ y[i]@)
}

/// Entry `(i, j)` of the garbler's share of `α ⊗ β`: `Δ` when both its mask
/// shares are nonzero.
pub open spec fn cross_entry(alpha: Seq<Block>, beta: Seq<Block>, delta: u128, i: int, j: int) -> u128 {
    if alpha[i]@ != 0 && beta[j]@ != 0 {
        delta
    } else {
        0
    }
}

impl TensorProductGen {
    /// The two accumulators have the tensor gate's shapes and the label vectors
    /// their lengths.
    pub open spec fn shapes_ok(&self) -> bool {
        &&& self.gb_first_half_out_dgb.wf()
        &&& self.gb_first_half_out_dgb.nrows() == self.n
        &&& self.gb_first_half_out_dgb.ncols() == self.m
        &&& self.gb_second_half_out_dgb.wf()
        &&& self.gb_second_half_out_dgb.nrows() == self.m
        &&& self.gb_second_half_out_dgb.ncols() == self.n
        &&& self.x_labels@.len() == self.n
        &&& self.y_labels@.len() == self.m
        &&& self.alpha_labels@.len() == self.n
        &&& self.beta_labels@.len() == self.m
    }

    /// Everything but the accumulators agrees.
    pub open spec fn same_labels(&self, other: &TensorProductGen) -> bool {
        &&& self.cipher == other.cipher
        &&& self.chunking_factor == other.chunking_factor
        &&& self.n == other.n
        &&& self.m == other.m
        &&& self.delta == other.delta
        &&& self.x_labels == other.x_labels
        &&& self.y_labels == other.y_labels
        &&& self.alpha_labels == other.alpha_labels
        &&& self.beta_labels == other.beta_labels
    }

    /// A garbler over the dealer's garbler half, with zero accumulators.
    pub fn new_from_fpre_gen(fpre_gen: SemiHonestTensorPreGen) -> (r: TensorProductGen)
        requires
            fpre_gen.n * fpre_gen.m <= usize::MAX,
        ensures
            r.n == fpre_gen.n,
            r.m == fpre_gen.m,
            r.chunking_factor == fpre_gen.chunking_factor,
            r.cipher.key_spec() == FIXED_KEY,
            r.delta == fpre_gen.delta,
            r.x_labels == fpre_gen.x_labels,
            r.y_labels == fpre_gen.y_labels,
            r.alpha_labels == fpre_gen.alpha_labels,
            r.beta_labels == fpre_gen.beta_labels,
            r.gb_first_half_out_dgb.wf(),
            r.gb_first_half_out_dgb.nrows() == fpre_gen.n,
            r.gb_first_half_out_dgb.ncols() == fpre_gen.m,
            r.gb_first_half_out_dgb.is_zero(),
            r.gb_second_half_out_dgb.wf(),
            r.gb_second_half_out_dgb.nrows() == fpre_gen.m,
            r.gb_second_half_out_dgb.ncols() == fpre_gen.n,
            r.gb_second_half_out_dgb.is_zero(),
            semi_honest_gen_from_fpre(fpre_gen, r),
    {
        let n = fpre_gen.n;
        let m = fpre_gen.m;
        proof {
            assert(m * n == n * m) by (nonlinear_arith);
        }
        TensorProductGen {
            cipher: FixedKeyAes::new(),
            n,
            m,
            chunking_factor: fpre_gen.chunking_factor,
            delta: fpre_gen.delta,
            x_labels: fpre_gen.x_labels,
            y_labels: fpre_gen.y_labels,
            alpha_labels: fpre_gen.alpha_labels,
            beta_labels: fpre_gen.beta_labels,
            gb_first_half_out_dgb: BlockMatrix::new(n, m),
            gb_second_half_out_dgb: BlockMatrix::new(m, n),
        }
    }

    /// One half of the tensor gate: `x` against `y` into the first (`n × m`) or the
    /// second (`m × n`) accumulator, chunked by the chunking factor.
    pub fn gen_chunked_half_outer_product(
        &mut self,
        x: &MatrixViewRef<Block>,
        y: &MatrixViewRef<Block>,
        first_half: bool,
    ) -> (r: (Vec<Vec<Block>>, Vec<Vec<Block>>))
        requires
            online_params_ok(old(self).n, old(self).m, old(self).chunking_factor),
            old(self).shapes_ok(),
            x.vec_ok(),
            y.vec_ok(),
            x.view_rows == if first_half { old(self).n } else { old(self).m },
            y.view_rows == if first_half { old(self).m } else { old(self).n },
        ensures
            final(self).same_labels(&*old(self)),
            final(self).shapes_ok(),
            first_half ==> final(self).gb_second_half_out_dgb == old(self).gb_second_half_out_dgb,
            !first_half ==> final(self).gb_first_half_out_dgb == old(self).gb_first_half_out_dgb,
            first_half ==> forall|rr: int, c: int| 0 <= rr < x.view_rows && 0 <= c < y.view_rows ==>
                #[trigger] final(self).gb_first_half_out_dgb.val(rr, c) == old(self).gb_first_half_out_dgb.val(rr, c)
                    ^ chunked_gen_z(old(self).cipher.key_spec(), 0, x.vec_vals(), old(self).delta@,
                        old(self).chunking_factor as nat, rr as nat, c as nat),
            !first_half ==> forall|rr: int, c: int| 0 <= rr < x.view_rows && 0 <= c < y.view_rows ==>
                #[trigger] final(self).gb_second_half_out_dgb.val(rr, c) == old(self).gb_second_half_out_dgb.val(
                    rr, c) ^ chunked_gen_z(old(self).cipher.key_spec(), 0, x.vec_vals(), old(self).delta@,
                    old(self).chunking_factor as nat, rr as nat, c as nat),
            nested_vals(r.0@) == chunk_levels_spec(old(self).cipher.key_spec(), x.vec_vals(), old(self).delta@,
                old(self).chunking_factor as nat),
            nested_vals(r.1@) == chunk_cts_spec(old(self).cipher.key_spec(), 0, x.vec_vals(), old(self).delta@,
                old(self).chunking_factor as nat, y.vec_vals()),
    {
        let cf = self.chunking_factor;
        let delta = self.delta;
        let cipher = self.cipher;
        if first_half {
            gen_chunked_outer_product(x, y, &mut self.gb_first_half_out_dgb, cf, &cipher, delta)
        } else {
            gen_chunked_outer_product(x, y, &mut self.gb_second_half_out_dgb, cf, &cipher, delta)
        }
    }

    /// The garbler's inputs to the first half: its `x` labels against its `y`
    /// labels plus its β shares.
    pub fn get_first_inputs(&self) -> (r: (BlockMatrix, BlockMatrix))
        requires
            self.x_labels@.len() == self.n,
            self.y_labels@.len() == self.m,
            self.beta_labels@.len() == self.m,
        ensures
            r.0.wf(),
            r.1.wf(),
            r.0.nrows() == self.n,
            r.0.ncols() == 1,
            r.1.nrows() == self.m,
            r.1.ncols() == 1,
            r.0.elems() == self.x_labels@,
            block_vals(r.1.elems()) == xor_vals(self.y_labels@, self.beta_labels@),
    {
        let mut y: Vec<Block> = Vec::with_capacity(self.m);
        let mut j: usize = 0;
        while j < self.m
            invariant
                j <= self.m,
                self.y_labels@.len() == self.m,
                self.beta_labels@.len() == self.m,
                y@.len() == j,
                forall|t: int| 0 <= t < j ==> (#[trigger] y@[t])@ == self.y_labels@[t]@ ^ self.beta_labels@[t]@,
            decreases self.m - j,
        {
            y.push(self.y_labels[j] ^ self.beta_labels[j]);
            j = j + 1;
        }
        let ym = BlockMatrix::from_column(y.as_slice());
        proof {
            assert(block_vals(ym.elems()) =~= xor_vals(self.y_labels@, self.beta_labels@));
        }
        (BlockMatrix::from_column(self.x_labels.as_slice()), ym)
    }

    /// The garbler's inputs to the second half: its `y` labels against its α
    /// shares.
    pub fn get_second_inputs(&self) -> (r: (BlockMatrix, BlockMatrix))
        requires
            self.y_labels@.len() == self.m,
            self.alpha_labels@.len() == self.n,
        ensures
            r.0.wf(),
            r.1.wf(),
            r.0.nrows() == self.m,
            r.0.ncols() == 1,
            r.1.nrows() == self.n,
            r.1.ncols() == 1,
            r.0.elems() == self.y_labels@,
            r.1.elems() == self.alpha_labels@,
    {
        (BlockMatrix::from_column(self.y_labels.as_slice()), BlockMatrix::from_column(self.alpha_labels.as_slice()))
    }

    /// Garbles the first half; returns the per-chunk level and leaf ciphertexts.
    pub fn garble_first_half_outer_product(&mut self) -> (r: (Vec<Vec<Block>>, Vec<Vec<Block>>))
        requires
            online_params_ok(old(self).n, old(self).m, old(self).chunking_factor),
            old(self).shapes_ok(),
        ensures
            semi_honest_gen_first_half_step(*old(self), *final(self), r.0@, r.1@),
            chunk_shapes_ok(r.0@, nested_lens(r.1@), old(self).n as nat, old(self).chunking_factor as nat, old(self).m as nat),
            final(self).same_labels(&*old(self)),
            final(self).shapes_ok(),
            final(self).gb_second_half_out_dgb == old(self).gb_second_half_out_dgb,
            forall|rr: int, c: int| 0 <= rr < old(self).n && 0 <= c < old(self).m ==>
                #[trigger] final(self).gb_first_half_out_dgb.val(rr, c) == old(self).gb_first_half_out_dgb.val(rr, c)
                    ^ chunked_gen_z(old(self).cipher.key_spec(), 0, block_vals(old(self).x_labels@),
                        old(self).delta@, old(self).chunking_factor as nat, rr as nat, c as nat),
            nested_vals(r.0@) == chunk_levels_spec(old(self).cipher.key_spec(), block_vals(old(self).x_labels@),
                old(self).delta@, old(self).chunking_factor as nat),
            nested_vals(r.1@) == chunk_cts_spec(old(self).cipher.key_spec(), 0, block_vals(old(self).x_labels@),
                old(self).delta@, old(self).chunking_factor as nat, xor_vals(old(self).y_labels@,
                old(self).beta_labels@)),
    {
        let (x, y) = self.get_first_inputs();
        let xv = x.as_view();
        let yv = y.as_view();
        proof {
            assert(xv.vec_vals() =~= block_vals(self.x_labels@));
            assert(yv.vec_vals() =~= xor_vals(self.y_labels@, self.beta_labels@));
        }
        let ghost g0 = *self;
        let r = self.gen_chunked_half_outer_product(&xv, &yv, true);
        proof {
            assert(nested_vals(r.1@).len() == r.1@.len());
            assert(nested_lens(r.1@).len() == r.1@.len());
            assert forall|s: int| 0 <= s < nested_lens(r.1@).len() implies #[trigger] nested_lens(r.1@)[s] == g0.m by {
                assert(nested_vals(r.1@)[s].len() == r.1@[s]@.len());
                assert(nested_vals(r.1@)[s] == chunk_cts_spec(g0.cipher.key_spec(), 0, block_vals(g0.x_labels@), g0.delta@,
                    g0.chunking_factor as nat, xor_vals(g0.y_labels@, g0.beta_labels@))[s]);
            }
            lemma_garbled_shapes(r.0@, nested_lens(r.1@), g0.cipher.key_spec(), block_vals(g0.x_labels@), g0.delta@,
                g0.chunking_factor as nat, g0.m as nat);
        }
        r
    }

    /// Garbles the second half; returns the per-chunk level and leaf ciphertexts.
    pub fn garble_second_half_outer_product(&mut self) -> (r: (Vec<Vec<Block>>, Vec<Vec<Block>>))
        requires
            online_params_ok(old(self).n, old(self).m, old(self).chunking_factor),
            old(self).shapes_ok(),
        ensures
            semi_honest_gen_second_half_step(*old(self), *final(self), r.0@, r.1@),
            chunk_shapes_ok(r.0@, nested_lens(r.1@), old(self).m as nat, old(self).chunking_factor as nat, old(self).n as nat),
            final(self).same_labels(&*old(self)),
            final(self).shapes_ok(),
            final(self).gb_first_half_out_dgb == old(self).gb_first_half_out_dgb,
            forall|rr: int, c: int| 0 <= rr < old(self).m && 0 <= c < old(self).n ==>
                #[trigger] final(self).gb_second_half_out_dgb.val(rr, c) == old(self).gb_second_half_out_dgb.val(
                    rr, c) ^ chunked_gen_z(old(self).cipher.key_spec(), 0, block_vals(old(self).y_labels@),
                    old(self).delta@, old(self).chunking_factor as nat, rr as nat, c as nat),
            nested_vals(r.0@) == chunk_levels_spec(old(self).cipher.key_spec(), block_vals(old(self).y_labels@),
                old(self).delta@, old(self).chunking_factor as nat),
            nested_vals(r.1@) == chunk_cts_spec(old(self).cipher.key_spec(), 0, block_vals(old(self).y_labels@),
                old(self).delta@, old(self).chunking_factor as nat, block_vals(old(self).alpha_labels@)),
    {
        let (x, y) = self.get_second_inputs();
        let xv = x.as_view();
        let yv = y.as_view();
        proof {
            assert(xv.vec_vals() =~= block_vals(self.y_labels@));
            assert(yv.vec_vals() =~= block_vals(self.alpha_labels@));
        }
        let ghost g0 = *self;
        let r = self.gen_chunked_half_outer_product(&xv, &yv, false);
        proof {
            assert(nested_vals(r.1@).len() == r.1@.len());
            assert(nested_lens(r.1@).len() == r.1@.len());
            assert forall|s: int| 0 <= s < nested_lens(r.1@).len() implies #[trigger] nested_lens(r.1@)[s] == g0.n by {
                assert(nested_vals(r.1@)[s].len() == r.1@[s]@.len());
                assert(nested_vals(r.1@)[s] == chunk_cts_spec(g0.cipher.key_spec(), 0, block_vals(g0.y_labels@), g0.delta@,
                    g0.chunking_factor as nat, block_vals(g0.alpha_labels@))[s]);
            }
            lemma_garbled_shapes(r.0@, nested_lens(r.1@), g0.cipher.key_spec(), block_vals(g0.y_labels@), g0.delta@,
                g0.chunking_factor as nat, g0.n as nat);
        }
        r
    }

    /// The garbler's share of `α ⊗ β` under `delta`: entry `(i, j)` is `delta`
    /// when both mask shares are nonzero, zero otherwise.
    pub fn color_cross_product(&self, delta: Delta) -> (r: BlockMatrix)
        requires
            self.alpha_labels@.len() >= self.n,
            self.beta_labels@.len() >= self.m,
            self.n * self.m <= usize::MAX,
        ensures
            r.wf(),
            r.nrows() == self.n,
            r.ncols() == self.m,
            forall|i: int, j: int| 0 <= i < self.n && 0 <= j < self.m ==> #[trigger] r.val(i, j) == cross_entry(
                self.alpha_labels@, self.beta_labels@, delta@, i, j),
    {
        let elems = self.cross_elements(delta);
        let r = BlockMatrix::from_elements(self.n, self.m, elems);
        proof {
            assert forall|i: int, j: int| 0 <= i < self.n && 0 <= j < self.m implies #[trigger] r.val(i, j)
                == cross_entry(self.alpha_labels@, self.beta_labels@, delta@, i, j) by {
                crate::matrix::lemma_flat_bound(i, j, self.n as int, self.m as int);
            }
        }
        r
    }

    /// The entries of [`Self::color_cross_product`], column-major.
    fn cross_elements(&self, delta: Delta) -> (r: Vec<Block>)
        requires
            self.alpha_labels@.len() >= self.n,
            self.beta_labels@.len() >= self.m,
            self.n * self.m <= usize::MAX,
        ensures
            r@.len() == self.n * self.m,
            forall|i: int, j: int| 0 <= i < self.n && 0 <= j < self.m ==> (#[trigger] r@[j * self.n + i])@
                == cross_entry(self.alpha_labels@, self.beta_labels@, delta@, i, j),
    {
        let n = self.n;
        let m = self.m;
        let mut out: Vec<Block> = Vec::with_capacity(n * m);
        let mut j: usize = 0;
        while j < m
            invariant
                j <= m,
                n == self.n,
                m == self.m,
                n * m <= usize::MAX,
                self.alpha_labels@.len() >= n,
                self.beta_labels@.len() >= m,
                out@.len() == j * n,
                forall|ii: int, jj: int| 0 <= ii < n && 0 <= jj < j ==> (#[trigger] out@[jj * n + ii])@
                    == cross_entry(self.alpha_labels@, self.beta_labels@, delta@, ii, jj),
            decreases m - j,
        {
            let mut i: usize = 0;
            while i < n
                invariant
                    i <= n,
                    j < m,
                    n == self.n,
                    m == self.m,
                    n * m <= usize::MAX,
                    self.alpha_labels@.len() >= n,
                    self.beta_labels@.len() >= m,
                    out@.len() == j * n + i,
                    forall|ii: int, jj: int| 0 <= ii < n && 0 <= jj < j ==> (#[trigger] out@[jj * n + ii])@
                        == cross_entry(self.alpha_labels@, self.beta_labels@, delta@, ii, jj),
                    forall|ii: int| 0 <= ii < i ==> (#[trigger] out@[j * n + ii])@ == cross_entry(
                        self.alpha_labels@, self.beta_labels@, delta@, ii, j as int),
                decreases n - i,
            {
                proof {
                    crate::matrix::lemma_flat_bound(i as int, j as int, n as int, m as int);
                }
                let a1 = self.alpha_labels[i].v != 0;
                let b1 = self.beta_labels[j].v != 0;
                let v = if a1 && b1 { *delta.as_block() } else { Block::default() };
                let ghost before = out@;
                out.push(v);
                proof {
                    assert forall|ii: int, jj: int| 0 <= ii < n && 0 <= jj < j implies (#[trigger] out@[jj * n
                        + ii])@ == cross_entry(self.alpha_labels@, self.beta_labels@, delta@, ii, jj) by {
                        lemma_below_column(ii, jj, j as int, n as int);
                        assert(out@[jj * n + ii] == before[jj * n + ii]);
                    }
                }
                i = i + 1;
            }
            proof {
                assert((j + 1) * n == j * n + n) by (nonlinear_arith);
            }
            j = j + 1;
        }
        proof {
            assert(m * n == n * m) by (nonlinear_arith);
        }
        out
    }

    /// Folds the transposed second half and the garbler's `α ⊗ β` share into
    /// the first accumulator and returns a copy of it.
    pub fn garble_final_outer_product(&mut self) -> (r: BlockMatrix)
        requires
            old(self).shapes_ok(),
            old(self).n * old(self).m <= usize::MAX,
        ensures
            semi_honest_gen_final_step(*old(self), *final(self)),
            final(self).same_labels(&*old(self)),
            final(self).shapes_ok(),
            final(self).gb_second_half_out_dgb == old(self).gb_second_half_out_dgb,
            forall|i: int, j: int| 0 <= i < old(self).n && 0 <= j < old(self).m ==>
                #[trigger] final(self).gb_first_half_out_dgb.val(i, j) == old(self).gb_first_half_out_dgb.val(i, j)
                    ^ (old(self).gb_second_half_out_dgb.val(j, i) ^ cross_entry(old(self).alpha_labels@,
                    old(self).beta_labels@, old(self).delta@, i, j)),
            r.nrows() == final(self).gb_first_half_out_dgb.nrows(),
            r.ncols() == final(self).gb_first_half_out_dgb.ncols(),
            r.elems() == final(self).gb_first_half_out_dgb.elems(),
    {
        let cross = self.cross_elements(self.delta);
        fold_final(&mut self.gb_first_half_out_dgb, &self.gb_second_half_out_dgb, &cross, self.n, self.m);
        self.gb_first_half_out_dgb.duplicate()
    }
}

/// Entries of earlier columns lie before column `j`.
proof fn lemma_below_column(ii: int, jj: int, j: int, n: int)
    requires
        0 <= ii < n,
        0 <= jj < j,
    ensures
        jj * n + ii < j * n,
{
    assert(jj * n + ii < j * n) by (nonlinear_arith)
        requires
            0 <= ii < n,
            0 <= jj < j,
    ;
}

} // verus!
