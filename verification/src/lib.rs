use vstd::prelude::*;

pub mod random;
pub mod block;
pub mod aes;
pub mod delta;
pub mod macs;
pub mod keys;
pub mod sharing;
pub mod matrix;
pub mod matrix_text;
pub mod xor_sum;
pub mod tensor_ops;
pub mod online;
pub mod feq;
pub mod preprocessing;
pub mod auth_tensor_fpre;
pub mod auth_tensor_gen;
pub mod auth_tensor_eval;
pub mod input_encoding;
pub mod tensor_gate;
pub mod bcot;
pub mod tensor_macro;
pub mod leaky_tensor_pre;
pub mod auth_tensor_pre;
pub mod tensor_pre;
pub mod tensor_gen;
pub mod tensor_eval;
pub mod circuit;
pub mod fpre;
pub mod auth_eval;
pub mod auth_gen;
pub mod auth_garbling;

use crate::block::{Block, mul_bool_spec};
use crate::auth_tensor_gen::AuthTensorGen;
use crate::auth_tensor_eval::AuthTensorEval;
use crate::xor_sum::block_vals;

verus! {

broadcast use crate::block::group_xor;

/// κ, the computational security parameter in bits: the width of a block and
/// of every cipher and hash output.
pub const CSP: usize = 128;

/// ρ, the statistical security parameter in bits.
pub const SSP: usize = 40;

/// The garbler's input-wire check block of one wire: `[v·Δ_ev] ⊕ [l·Δ_ev]`.
pub open spec fn wire_check_gen(v: u128, l: u128) -> u128 {
    v ^ l
}

/// The evaluator's input-wire check block of one wire:
/// `[v·Δ_ev] ⊕ [l·Δ_ev] ⊕ L·Δ_ev`.
pub open spec fn wire_check_eval(v: u128, l: u128, public_bit: bool, delta: u128) -> u128 {
    (v ^ l) ^ mul_bool_spec(delta, public_bit)
}

/// Both parties' input-wire CheckZero block values, α wire `i` at index `i`
/// and β wire `j` at index `n + j`, for the `v` shares, the announced masked
/// values and the parties' `l` shares.
pub open spec fn input_wire_blocks(
    gb_v_alpha: Seq<Block>,
    ev_v_alpha: Seq<Block>,
    gb_v_beta: Seq<Block>,
    ev_v_beta: Seq<Block>,
    l_alpha_pub: Seq<bool>,
    l_beta_pub: Seq<bool>,
    gb: AuthTensorGen,
    ev: AuthTensorEval,
) -> (Seq<u128>, Seq<u128>) {
    let n = gb_v_alpha.len() as int;
    let m = gb_v_beta.len() as int;
    (
        Seq::new(
            (n + m) as nat,
            |k: int|
                if k < n {
                    wire_check_gen(gb_v_alpha[k]@, gb.alpha_eval@[k]@)
                } else {
                    wire_check_gen(gb_v_beta[k - n]@, gb.beta_eval@[k - n]@)
                },
        ),
        Seq::new(
            (n + m) as nat,
            |k: int|
                if k < n {
                    wire_check_eval(ev_v_alpha[k]@, ev.alpha_eval@[k]@, l_alpha_pub[k], ev.delta_b@)
                } else {
                    wire_check_eval(ev_v_beta[k - n]@, ev.beta_eval@[k - n]@, l_beta_pub[k - n], ev.delta_b@)
                },
        ),
    )
}

/// Builds both parties' CheckZero blocks for the tensor gate's input wires
/// under `Δ_ev`: index `i < n` is the α wire `i`, index `n + j` the β wire `j`.
/// The garbler's block is `[v·Δ_ev] ⊕ [l·Δ_ev]`, the evaluator's the same
/// plus `L·Δ_ev` for the announced masked value `L`.
pub fn assemble_e_input_wire_blocks_p1(
    n: usize,
    m: usize,
    gb_v_alpha_eval: &[Block],
    ev_v_alpha_eval: &[Block],
    gb_v_beta_eval: &[Block],
    ev_v_beta_eval: &[Block],
    l_alpha_pub: &[bool],
    l_beta_pub: &[bool],
    gb: &AuthTensorGen,
    ev: &AuthTensorEval,
) -> (r: (Vec<Block>, Vec<Block>))
    requires
        gb_v_alpha_eval@.len() == n,
        ev_v_alpha_eval@.len() == n,
        gb_v_beta_eval@.len() == m,
        ev_v_beta_eval@.len() == m,
        l_alpha_pub@.len() == n,
        l_beta_pub@.len() == m,
        gb.alpha_eval@.len() == n,
        gb.beta_eval@.len() == m,
        ev.alpha_eval@.len() == n,
        ev.beta_eval@.len() == m,
        n + m <= usize::MAX,
    ensures
        r.0@.len() == n + m,
        r.1@.len() == n + m,
        forall|i: int| 0 <= i < n ==> (#[trigger] r.0@[i])@ == wire_check_gen(gb_v_alpha_eval@[i]@, gb.alpha_eval@[i]@),
        forall|i: int| 0 <= i < n ==> (#[trigger] r.1@[i])@ == wire_check_eval(ev_v_alpha_eval@[i]@,
            ev.alpha_eval@[i]@, l_alpha_pub@[i], ev.delta_b@),
        forall|j: int| 0 <= j < m ==> (#[trigger] r.0@[n + j])@ == wire_check_gen(gb_v_beta_eval@[j]@, gb.beta_eval@[j]@),
        forall|j: int| 0 <= j < m ==> (#[trigger] r.1@[n + j])@ == wire_check_eval(ev_v_beta_eval@[j]@,
            ev.beta_eval@[j]@, l_beta_pub@[j], ev.delta_b@),
        (block_vals(r.0@), block_vals(r.1@)) == input_wire_blocks(gb_v_alpha_eval@, ev_v_alpha_eval@,
            gb_v_beta_eval@, ev_v_beta_eval@, l_alpha_pub@, l_beta_pub@, *gb, *ev),
        forall|i: int| 0 <= i < n ==> (#[trigger] r.0@[i])@ == gb_v_alpha_eval@[i]@ ^ gb.alpha_eval@[i]@,
        forall|i: int| 0 <= i < n ==> (#[trigger] r.1@[i])@ == (ev_v_alpha_eval@[i]@ ^ ev.alpha_eval@[i]@)
            ^ mul_bool_spec(ev.delta_b@, l_alpha_pub@[i]),
        forall|j: int| 0 <= j < m ==> (#[trigger] r.0@[n + j])@ == gb_v_beta_eval@[j]@ ^ gb.beta_eval@[j]@,
        forall|j: int| 0 <= j < m ==> (#[trigger] r.1@[n + j])@ == (ev_v_beta_eval@[j]@ ^ ev.beta_eval@[j]@)
            ^ mul_bool_spec(ev.delta_b@, l_beta_pub@[j]),
{
    let mut gen_blocks: Vec<Block> = Vec::with_capacity(n + m);
    let mut eval_blocks: Vec<Block> = Vec::with_capacity(n + m);
    let mut i: usize = 0;
    while i < n
        invariant
            i <= n,
            n + m <= usize::MAX,
            gb_v_alpha_eval@.len() == n,
            ev_v_alpha_eval@.len() == n,
            l_alpha_pub@.len() == n,
            gb.alpha_eval@.len() == n,
            ev.alpha_eval@.len() == n,
            gen_blocks@.len() == i,
            eval_blocks@.len() == i,
            forall|k: int| 0 <= k < i ==> (#[trigger] gen_blocks@[k])@ == wire_check_gen(gb_v_alpha_eval@[k]@,
                gb.alpha_eval@[k]@),
            forall|k: int| 0 <= k < i ==> (#[trigger] eval_blocks@[k])@ == wire_check_eval(ev_v_alpha_eval@[k]@,
                ev.alpha_eval@[k]@, l_alpha_pub@[k], ev.delta_b@),
        decreases n - i,
    {
        let correction = if l_alpha_pub[i] { *ev.delta_b.as_block() } else { Block::default() };
        gen_blocks.push(gb_v_alpha_eval[i] ^ gb.alpha_eval[i]);
        eval_blocks.push(ev_v_alpha_eval[i] ^ ev.alpha_eval[i] ^ correction);
        i = i + 1;
    }
    let mut j: usize = 0;
    while j < m
        invariant
            j <= m,
            n + m <= usize::MAX,
            gb_v_alpha_eval@.len() == n,
            ev_v_alpha_eval@.len() == n,
            l_alpha_pub@.len() == n,
            gb.alpha_eval@.len() == n,
            ev.alpha_eval@.len() == n,
            gb_v_beta_eval@.len() == m,
            ev_v_beta_eval@.len() == m,
            l_beta_pub@.len() == m,
            gb.beta_eval@.len() == m,
            ev.beta_eval@.len() == m,
            gen_blocks@.len() == n + j,
            eval_blocks@.len() == n + j,
            forall|k: int| 0 <= k < n ==> (#[trigger] gen_blocks@[k])@ == wire_check_gen(gb_v_alpha_eval@[k]@,
                gb.alpha_eval@[k]@),
            forall|k: int| 0 <= k < n ==> (#[trigger] eval_blocks@[k])@ == wire_check_eval(ev_v_alpha_eval@[k]@,
                ev.alpha_eval@[k]@, l_alpha_pub@[k], ev.delta_b@),
            forall|k: int| 0 <= k < j ==> (#[trigger] gen_blocks@[n + k])@ == wire_check_gen(gb_v_beta_eval@[k]@,
                gb.beta_eval@[k]@),
            forall|k: int| 0 <= k < j ==> (#[trigger] eval_blocks@[n + k])@ == wire_check_eval(ev_v_beta_eval@[k]@,
                ev.beta_eval@[k]@, l_beta_pub@[k], ev.delta_b@),
        decreases m - j,
    {
        let correction = if l_beta_pub[j] { *ev.delta_b.as_block() } else { Block::default() };
        gen_blocks.push(gb_v_beta_eval[j] ^ gb.beta_eval[j]);
        eval_blocks.push(ev_v_beta_eval[j] ^ ev.beta_eval[j] ^ correction);
        proof {
            assert(gen_blocks@[n + j] == gen_blocks@[(n + j) as int]);
        }
        j = j + 1;
    }
    proof {
        let w = input_wire_blocks(gb_v_alpha_eval@, ev_v_alpha_eval@, gb_v_beta_eval@, ev_v_beta_eval@,
            l_alpha_pub@, l_beta_pub@, *gb, *ev);
        assert forall|k: int| 0 <= k < n + m implies #[trigger] block_vals(gen_blocks@)[k] == w.0[k] by {
            if k >= n {
                assert(gen_blocks@[n + (k - n)] == gen_blocks@[k]);
            }
        }
        assert forall|k: int| 0 <= k < n + m implies #[trigger] block_vals(eval_blocks@)[k] == w.1[k] by {
            if k >= n {
                assert(eval_blocks@[n + (k - n)] == eval_blocks@[k]);
            }
        }
        assert(block_vals(gen_blocks@) =~= w.0);
        assert(block_vals(eval_blocks@) =~= w.1);
    }
    (gen_blocks, eval_blocks)
}

/// The α/β input-wire CheckZero blocks of the second protocol: the same
/// three-term XOR as [`assemble_e_input_wire_blocks_p1`]. Both functions
/// require the same of their arguments and return the same blocks, the
/// `input_wire_blocks` of those arguments.
pub fn assemble_c_alpha_beta_blocks_p2(
    n: usize,
    m: usize,
    gb_v_alpha_eval: &[Block],
    ev_v_alpha_eval: &[Block],
    gb_v_beta_eval: &[Block],
    ev_v_beta_eval: &[Block],
    l_alpha_pub: &[bool],
    l_beta_pub: &[bool],
    gb: &AuthTensorGen,
    ev: &AuthTensorEval,
) -> (r: (Vec<Block>, Vec<Block>))
    requires
        gb_v_alpha_eval@.len() == n,
        ev_v_alpha_eval@.len() == n,
        gb_v_beta_eval@.len() == m,
        ev_v_beta_eval@.len() == m,
        l_alpha_pub@.len() == n,
        l_beta_pub@.len() == m,
        gb.alpha_eval@.len() == n,
        gb.beta_eval@.len() == m,
        ev.alpha_eval@.len() == n,
        ev.beta_eval@.len() == m,
        n + m <= usize::MAX,
    ensures
        r.0@.len() == n + m,
        r.1@.len() == n + m,
        forall|i: int| 0 <= i < n ==> (#[trigger] r.0@[i])@ == wire_check_gen(gb_v_alpha_eval@[i]@, gb.alpha_eval@[i]@),
        forall|i: int| 0 <= i < n ==> (#[trigger] r.1@[i])@ == wire_check_eval(ev_v_alpha_eval@[i]@,
            ev.alpha_eval@[i]@, l_alpha_pub@[i], ev.delta_b@),
        forall|j: int| 0 <= j < m ==> (#[trigger] r.0@[n + j])@ == wire_check_gen(gb_v_beta_eval@[j]@, gb.beta_eval@[j]@),
        forall|j: int| 0 <= j < m ==> (#[trigger] r.1@[n + j])@ == wire_check_eval(ev_v_beta_eval@[j]@,
            ev.beta_eval@[j]@, l_beta_pub@[j], ev.delta_b@),
        (block_vals(r.0@), block_vals(r.1@)) == input_wire_blocks(gb_v_alpha_eval@, ev_v_alpha_eval@,
            gb_v_beta_eval@, ev_v_beta_eval@, l_alpha_pub@, l_beta_pub@, *gb, *ev),
        forall|i: int| 0 <= i < n ==> (#[trigger] r.0@[i])@ == gb_v_alpha_eval@[i]@ ^ gb.alpha_eval@[i]@,
        forall|i: int| 0 <= i < n ==> (#[trigger] r.1@[i])@ == (ev_v_alpha_eval@[i]@ ^ ev.alpha_eval@[i]@)
            ^ mul_bool_spec(ev.delta_b@, l_alpha_pub@[i]),
        forall|j: int| 0 <= j < m ==> (#[trigger] r.0@[n + j])@ == gb_v_beta_eval@[j]@ ^ gb.beta_eval@[j]@,
        forall|j: int| 0 <= j < m ==> (#[trigger] r.1@[n + j])@ == (ev_v_beta_eval@[j]@ ^ ev.beta_eval@[j]@)
            ^ mul_bool_spec(ev.delta_b@, l_beta_pub@[j]),
{
    assemble_e_input_wire_blocks_p1(n, m, gb_v_alpha_eval, ev_v_alpha_eval, gb_v_beta_eval, ev_v_beta_eval,
        l_alpha_pub, l_beta_pub, gb, ev)
}

/// An honest input wire passes CheckZero: when the `v` shares reconstruct
/// `v·Δ`, the `l` shares reconstruct `l·Δ` and the announced bit is `L = v ⊕ l`,
/// the two parties' check blocks are equal.
pub proof fn lemma_input_wire_check_passes(
    v_gen: u128,
    v_eval: u128,
    l_gen: u128,
    l_eval: u128,
    v: bool,
    l: bool,
    public_bit: bool,
    delta: u128,
)
    requires
        v_gen ^ v_eval == mul_bool_spec(delta, v),
        l_gen ^ l_eval == mul_bool_spec(delta, l),
        public_bit == (v != l),
    ensures
        wire_check_gen(v_gen, l_gen) == wire_check_eval(v_eval, l_eval, public_bit, delta),
{
    crate::block::lemma_mul_bool_xor(delta, v, l);
    let a = mul_bool_spec(delta, v);
    let b = mul_bool_spec(delta, l);
    assert((v_gen ^ l_gen) == ((v_eval ^ l_eval) ^ (a ^ b))) by (bit_vector)
        requires
            v_gen ^ v_eval == a,
            l_gen ^ l_eval == b,
    ;
}

/// CheckZero on an input wire catches any offset: where the shares are
/// honest and one party's `v` share is changed by a block `d`, the two check
/// blocks differ by exactly `d` (all 128 bits), so they are equal only when
/// `d` is zero.
pub proof fn lemma_input_wire_check_detects_offset(
    v_gen: u128,
    v_eval: u128,
    l_gen: u128,
    l_eval: u128,
    v: bool,
    l: bool,
    public_bit: bool,
    delta: u128,
    d: u128,
)
    requires
        v_gen ^ v_eval == mul_bool_spec(delta, v),
        l_gen ^ l_eval == mul_bool_spec(delta, l),
        public_bit == (v != l),
    ensures
        wire_check_gen(v_gen ^ d, l_gen) ^ wire_check_eval(v_eval, l_eval, public_bit, delta) == d,
        wire_check_gen(v_gen, l_gen) ^ wire_check_eval(v_eval ^ d, l_eval, public_bit, delta) == d,
        (wire_check_gen(v_gen ^ d, l_gen) == wire_check_eval(v_eval, l_eval, public_bit, delta)) == (d == 0),
        (wire_check_gen(v_gen, l_gen) == wire_check_eval(v_eval ^ d, l_eval, public_bit, delta)) == (d == 0),
{
    lemma_input_wire_check_passes(v_gen, v_eval, l_gen, l_eval, v, l, public_bit, delta);
    let c = mul_bool_spec(delta, public_bit);
    assert(((v_gen ^ d) ^ l_gen) ^ ((v_eval ^ l_eval) ^ c) == d) by (bit_vector)
        requires
            (v_gen ^ l_gen) == ((v_eval ^ l_eval) ^ c),
    ;
    assert((v_gen ^ l_gen) ^ (((v_eval ^ d) ^ l_eval) ^ c) == d) by (bit_vector)
        requires
            (v_gen ^ l_gen) == ((v_eval ^ l_eval) ^ c),
    ;
    assert((((v_gen ^ d) ^ l_gen) == ((v_eval ^ l_eval) ^ c)) == (d == 0)) by (bit_vector)
        requires
            (v_gen ^ l_gen) == ((v_eval ^ l_eval) ^ c),
    ;
    assert(((v_gen ^ l_gen) == (((v_eval ^ d) ^ l_eval) ^ c)) == (d == 0)) by (bit_vector)
        requires
            (v_gen ^ l_gen) == ((v_eval ^ l_eval) ^ c),
    ;
}

} // verus!
