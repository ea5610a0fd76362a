//! Input encoding: between preprocessing and garbling, the garbler's inputs
//! `x` (n bits) and `y` (m bits) become wire-label sharings under `Δ_gb`, and
//! the evaluator learns the masked bits `x ⊕ α`, `y ⊕ β` it walks the trees by.

use vstd::prelude::*;
use vstd::arithmetic::power2::pow2;
use crate::block::{Block, lsb_of, mul_bool_spec, group_xor, lemma_xor_zero};
use crate::auth_tensor_gen::AuthTensorGen;
use crate::auth_tensor_eval::AuthTensorEval;
use crate::tensor_gate::inputs_encoded;
use rand_chacha::ChaCha12Rng;

verus! {

broadcast use group_xor;

/// Bit `i` of `x` (zero past the width of a `usize`).
pub open spec fn input_bit(x: usize, i: int) -> bool {
    if 0 <= i < usize::BITS {
        (x as nat / pow2(i as nat)) % 2 == 1
    } else {
        false
    }
}

/// The bits `0 .. len` of `x`.
pub open spec fn input_bits(x: usize, len: nat) -> Seq<bool> {
    Seq::new(len, |i: int| input_bit(x, i))
}

/// Bit `i` of `x`.
pub(crate) fn input_bit_at(x: usize, i: usize) -> (r: bool)
    ensures
        r == input_bit(x, i as int),
{
    if i < usize::BITS as usize {
        proof {
            vstd::bits::lemma_usize_shr_is_div(x, i);
            let q: usize = x >> i;
            assert(q & 1usize == q % 2) by (bit_vector);
        }
        ((x >> i) & 1) != 0
    } else {
        false
    }
}

/// A party's own share of an authenticated bit, read from its two Block-form
/// components: the pointer bit of their XOR.
pub open spec fn own_bit(dev_component: Block, dgb_component: Block) -> bool {
    lsb_of(dev_component@ ^ dgb_component@)
}

/// The garbler's state outside the input fields is the same.
pub open spec fn gen_rest_same(a: AuthTensorGen, b: AuthTensorGen) -> bool {
    &&& a.cipher == b.cipher
    &&& a.chunking_factor == b.chunking_factor
    &&& a.n == b.n
    &&& a.m == b.m
    &&& a.delta_a == b.delta_a
    &&& a.alpha_eval == b.alpha_eval
    &&& a.alpha_gen == b.alpha_gen
    &&& a.beta_eval == b.beta_eval
    &&& a.beta_gen == b.beta_gen
    &&& a.correlated_eval == b.correlated_eval
    &&& a.correlated_gen == b.correlated_gen
    &&& a.gamma_eval == b.gamma_eval
    &&& a.gamma_gen == b.gamma_gen
    &&& a.first_half_out == b.first_half_out
    &&& a.second_half_out == b.second_half_out
    &&& a.first_half_out_ev == b.first_half_out_ev
    &&& a.second_half_out_ev == b.second_half_out_ev
    &&& a.final_computed == b.final_computed
}

/// The evaluator's state outside the input fields is the same.
pub open spec fn eval_rest_same(a: AuthTensorEval, b: AuthTensorEval) -> bool {
    &&& a.cipher == b.cipher
    &&& a.chunking_factor == b.chunking_factor
    &&& a.n == b.n
    &&& a.m == b.m
    &&& a.delta_b == b.delta_b
    &&& a.alpha_eval == b.alpha_eval
    &&& a.alpha_gen == b.alpha_gen
    &&& a.beta_eval == b.beta_eval
    &&& a.beta_gen == b.beta_gen
    &&& a.correlated_eval == b.correlated_eval
    &&& a.correlated_gen == b.correlated_gen
    &&& a.gamma_eval == b.gamma_eval
    &&& a.gamma_gen == b.gamma_gen
    &&& a.first_half_out == b.first_half_out
    &&& a.second_half_out == b.second_half_out
    &&& a.first_half_out_ev == b.first_half_out_ev
    &&& a.second_half_out_ev == b.second_half_out_ev
    &&& a.final_computed == b.final_computed
}

/// The sharings input encoding produces for one vector of inputs `xb` masked by
/// the authenticated bits whose components are `g_dev`, `g_dgb` (garbler) and
/// `e_dev`, `e_dgb` (evaluator): for each `i`, the evaluator's label has its
/// pointer bit clear and the garbler's is it plus `x_i·Δ`; both masked labels
/// add the party's `Δ_gb` component and `(x_i ⊕ a_i)·Δ`; the evaluator's masked
/// bit is `x_i ⊕ a_i ⊕ b_i`, the garbler's is zero.
pub open spec fn encoding_ok(
    xb: Seq<bool>,
    delta: u128,
    g_dev: Seq<Block>,
    g_dgb: Seq<Block>,
    e_dev: Seq<Block>,
    e_dgb: Seq<Block>,
    g_label: Seq<Block>,
    e_label: Seq<Block>,
    g_masked: Seq<Block>,
    e_masked: Seq<Block>,
    g_bits: Seq<bool>,
    e_bits: Seq<bool>,
) -> bool {
    let n = xb.len();
    &&& g_label.len() == n
    &&& e_label.len() == n
    &&& g_masked.len() == n
    &&& e_masked.len() == n
    &&& g_bits.len() == n
    &&& e_bits.len() == n
    &&& forall|i: int| 0 <= i < n ==> #[trigger] encoding_at(xb[i], delta, g_dev[i], g_dgb[i], e_dev[i], e_dgb[i],
        g_label[i], e_label[i], g_masked[i], e_masked[i], g_bits[i], e_bits[i])
}

/// The encoding of one input bit (see [`encoding_ok`]).
pub open spec fn encoding_at(
    x: bool,
    delta: u128,
    g_dev: Block,
    g_dgb: Block,
    e_dev: Block,
    e_dgb: Block,
    g_label: Block,
    e_label: Block,
    g_masked: Block,
    e_masked: Block,
    g_bit: bool,
    e_bit: bool,
) -> bool {
    let a = own_bit(g_dev, g_dgb);
    let b = own_bit(e_dev, e_dgb);
    &&& !lsb_of(e_label@)
    &&& g_label@ == e_label@ ^ mul_bool_spec(delta, x)
    &&& g_masked@ == (g_label@ ^ g_dgb@) ^ mul_bool_spec(delta, x != a)
    &&& e_masked@ == (e_label@ ^ e_dgb@) ^ mul_bool_spec(delta, x != a)
    &&& e_bit == ((x != a) != b)
    &&& !g_bit
}

/// Encodes one input vector (see [`encoding_ok`]).
fn encode_vector(
    x: usize,
    n: usize,
    delta: Block,
    g_dev: &Vec<Block>,
    g_dgb: &Vec<Block>,
    e_dev: &Vec<Block>,
    e_dgb: &Vec<Block>,
    rng: &mut ChaCha12Rng,
) -> (r: (Vec<Block>, Vec<Block>, Vec<Block>, Vec<Block>, Vec<bool>, Vec<bool>))
    requires
        g_dev@.len() == n,
        g_dgb@.len() == n,
        e_dev@.len() == n,
        e_dgb@.len() == n,
    ensures
        encoding_ok(input_bits(x, n as nat), delta@, g_dev@, g_dgb@, e_dev@, e_dgb@, r.0@, r.1@, r.2@, r.3@, r.4@, r.5@),
{
    let mut g_label: Vec<Block> = Vec::new();
    let mut e_label: Vec<Block> = Vec::new();
    let mut g_masked: Vec<Block> = Vec::new();
    let mut e_masked: Vec<Block> = Vec::new();
    let mut g_bits: Vec<bool> = Vec::new();
    let mut e_bits: Vec<bool> = Vec::new();
    let ghost xb = input_bits(x, n as nat);
    let mut i: usize = 0;
    while i < n
        invariant
            i <= n,
            xb == input_bits(x, n as nat),
            g_dev@.len() == n,
            g_dgb@.len() == n,
            e_dev@.len() == n,
            e_dgb@.len() == n,
            encoding_ok(xb.subrange(0, i as int), delta@, g_dev@, g_dgb@, e_dev@, e_dgb@, g_label@, e_label@,
                g_masked@, e_masked@, g_bits@, e_bits@),
        decreases n - i,
    {
        let x_i = if i < usize::BITS as usize {
            proof {
                vstd::bits::lemma_usize_shr_is_div(x, i);
                let q: usize = x >> i;
                assert(q & 1usize == q % 2) by (bit_vector);
            }
            ((x >> i) & 1) != 0
        } else {
            false
        };
        let a_i = g_dev[i].xor(&g_dgb[i]).lsb();
        let b_i = e_dev[i].xor(&e_dgb[i]).lsb();
        let d_i = (x_i != a_i) != b_i;
        let mut input_key = Block::random(rng);
        input_key.set_lsb(false);
        let input_mac = if x_i { input_key.xor(&delta) } else { input_key };
        let lsb_shift = if x_i != a_i { delta } else { Block::zero() };
        g_label.push(input_mac);
        e_label.push(input_key);
        g_masked.push(input_mac.xor(&g_dgb[i]).xor(&lsb_shift));
        e_masked.push(input_key.xor(&e_dgb[i]).xor(&lsb_shift));
        g_bits.push(false);
        e_bits.push(d_i);
        proof {
            assert(x_i == xb[i as int]);
            lemma_xor_zero(input_key@);
            let xs = xb.subrange(0, i + 1);
            assert(encoding_at(xs[i as int], delta@, g_dev@[i as int], g_dgb@[i as int], e_dev@[i as int],
                e_dgb@[i as int], g_label@[i as int], e_label@[i as int], g_masked@[i as int], e_masked@[i as int],
                g_bits@[i as int], e_bits@[i as int]));
            assert forall|k: int| 0 <= k < i implies xs[k] == xb.subrange(0, i as int)[k] by {}
        }
        i = i + 1;
    }
    proof {
        assert(xb.subrange(0, n as int) =~= xb);
    }
    (g_label, e_label, g_masked, e_masked, g_bits, e_bits)
}

/// Encodes the garbler's inputs `x` (bit `i` for `i < n`) and `y` (bit `j` for
/// `j < m`) into both parties' input sharings under `Δ_gb` and the evaluator's
/// masked bits (see [`encoding_ok`]); every other field is left as it was.
pub fn encode_inputs(gb: &mut AuthTensorGen, ev: &mut AuthTensorEval, x: usize, y: usize, rng: &mut ChaCha12Rng)
    requires
        x == 0 || old(gb).alpha_gen@.len() <= usize::BITS,
        y == 0 || old(gb).beta_gen@.len() <= usize::BITS,
        old(gb).alpha_eval@.len() == old(gb).alpha_gen@.len(),
        old(gb).beta_eval@.len() == old(gb).beta_gen@.len(),
        old(ev).alpha_gen@.len() == old(gb).alpha_gen@.len(),
        old(ev).alpha_eval@.len() == old(gb).alpha_gen@.len(),
        old(ev).beta_gen@.len() == old(gb).beta_gen@.len(),
        old(ev).beta_eval@.len() == old(gb).beta_gen@.len(),
    ensures
        inputs_encoded(*old(gb), *old(ev), *final(gb), *final(ev), x, y),
        gen_rest_same(*final(gb), *old(gb)),
        eval_rest_same(*final(ev), *old(ev)),
        encoding_ok(input_bits(x, old(gb).alpha_gen@.len()), old(gb).delta_a@, old(gb).alpha_eval@, old(gb).alpha_gen@,
            old(ev).alpha_eval@, old(ev).alpha_gen@, final(gb).x_gen@, final(ev).x_gen@, final(gb).masked_x_gen@,
            final(ev).masked_x_gen@, final(gb).masked_x_bits@, final(ev).masked_x_bits@),
        encoding_ok(input_bits(y, old(gb).beta_gen@.len()), old(gb).delta_a@, old(gb).beta_eval@, old(gb).beta_gen@,
            old(ev).beta_eval@, old(ev).beta_gen@, final(gb).y_gen@, final(ev).y_gen@, final(gb).masked_y_gen@,
            final(ev).masked_y_gen@, final(gb).masked_y_bits@, final(ev).masked_y_bits@),
{
    let n = gb.alpha_gen.len();
    let m = gb.beta_gen.len();
    let delta_a_block = *gb.delta_a.as_block();
    let (gx, ex, gmx, emx, gbx, ebx) = encode_vector(x, n, delta_a_block, &gb.alpha_eval, &gb.alpha_gen,
        &ev.alpha_eval, &ev.alpha_gen, rng);
    let (gy, ey, gmy, emy, gby, eby) = encode_vector(y, m, delta_a_block, &gb.beta_eval, &gb.beta_gen,
        &ev.beta_eval, &ev.beta_gen, rng);
    gb.x_gen = gx;
    gb.masked_x_gen = gmx;
    gb.masked_x_bits = gbx;
    gb.y_gen = gy;
    gb.masked_y_gen = gmy;
    gb.masked_y_bits = gby;
    ev.x_gen = ex;
    ev.masked_x_gen = emx;
    ev.masked_x_bits = ebx;
    ev.y_gen = ey;
    ev.masked_y_gen = emy;
    ev.masked_y_bits = eby;
}

} // verus!
