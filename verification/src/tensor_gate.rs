//! What the online phase of the authenticated tensor gate computes: the
//! garbler's and the evaluator's output shares reconstruct `x ⊗ y` under
//! `Δ_gb` (and, with wide leaves, under `Δ_ev` too).

use vstd::prelude::*;
use crate::block::{
    Block, lsb_of, mul_bool_spec, group_xor, lemma_mul_bool_xor, lemma_lsb_mul_bool, lemma_xor_regroup6,
    lemma_xor_masked, lemma_xor_laws, lemma_xor_self, lemma_xor_zero,
};
use crate::sharing::cross_valid;
use crate::keys::auth_spec;
use crate::auth_tensor_gen::AuthTensorGen;
use crate::auth_tensor_eval::AuthTensorEval;
use crate::preprocessing::{
    TensorFpreGen, TensorFpreEval, fpre_valid, gamma_valid, full_bit_at, lemma_lowered_sharing, lowered_ok, mac_blocks, key_blocks,
};
use crate::input_encoding::{
    encoding_ok, encoding_at, own_bit, input_bit, input_bits, gen_rest_same, eval_rest_same,
};
use crate::aes::FIXED_KEY;
use crate::tensor_ops::{
    chunked_gen_z, chunked_eval_z, chunk_levels_spec, chunk_cts_spec, lemma_chunked_product, nested_vals, nested_fst,
    nested_snd,
};
use crate::xor_sum::block_vals;

verus! {

broadcast use group_xor;

/// One Block-form sharing of `bits` under `delta`: the components XOR to
/// `bit·delta` at every index.
pub open spec fn shares_bits(g: Seq<Block>, e: Seq<Block>, bits: Seq<bool>, delta: u128) -> bool {
    &&& g.len() == bits.len()
    &&& e.len() == bits.len()
    &&& forall|i: int| 0 <= i < bits.len() ==> (#[trigger] g[i])@ ^ e[i]@ == mul_bool_spec(delta, bits[i])
}

/// The parties' own shares of `bits`, read from their `Δ_ev` and `Δ_gb`
/// components, XOR to `bits`.
pub open spec fn own_bits_ok(g_dev: Seq<Block>, g_dgb: Seq<Block>, e_dev: Seq<Block>, e_dgb: Seq<Block>, bits: Seq<bool>) -> bool {
    forall|i: int| 0 <= i < bits.len() ==>
        (own_bit(#[trigger] g_dev[i], g_dgb[i]) != own_bit(e_dev[i], e_dgb[i])) == bits[i]
}

/// A garbler and an evaluator set up from consistent preprocessing with mask
/// bits `ab` (α, length n) and `bb` (β, length m): shared dimensions and
/// cipher, `Δ_gb` with pointer bit 1 and `Δ_ev` with pointer bit 0, and
/// sharings of α, β and `α·β` under both.
pub open spec fn pair_ready(gb: AuthTensorGen, ev: AuthTensorEval, ab: Seq<bool>, bb: Seq<bool>) -> bool {
    let n = gb.n as int;
    let m = gb.m as int;
    let dgb = gb.delta_a@;
    let dev = ev.delta_b@;
    &&& gb.n == ev.n
    &&& gb.m == ev.m
    &&& gb.chunking_factor == ev.chunking_factor
    &&& gb.cipher == ev.cipher
    &&& ab.len() == n
    &&& bb.len() == m
    &&& lsb_of(dgb)
    &&& !lsb_of(dev)
    &&& shares_bits(gb.alpha_gen@, ev.alpha_gen@, ab, dgb)
    &&& shares_bits(gb.alpha_eval@, ev.alpha_eval@, ab, dev)
    &&& shares_bits(gb.beta_gen@, ev.beta_gen@, bb, dgb)
    &&& shares_bits(gb.beta_eval@, ev.beta_eval@, bb, dev)
    &&& own_bits_ok(gb.alpha_eval@, gb.alpha_gen@, ev.alpha_eval@, ev.alpha_gen@, ab)
    &&& own_bits_ok(gb.beta_eval@, gb.beta_gen@, ev.beta_eval@, ev.beta_gen@, bb)
    &&& gb.correlated_gen@.len() == n * m
    &&& ev.correlated_gen@.len() == n * m
    &&& gb.correlated_eval@.len() == n * m
    &&& ev.correlated_eval@.len() == n * m
    &&& forall|i: int, j: int| 0 <= i < n && 0 <= j < m ==>
        (#[trigger] gb.correlated_gen@[j * n + i])@ ^ ev.correlated_gen@[j * n + i]@ == mul_bool_spec(dgb, ab[i] && bb[j])
    &&& forall|i: int, j: int| 0 <= i < n && 0 <= j < m ==>
        (#[trigger] gb.correlated_eval@[j * n + i])@ ^ ev.correlated_eval@[j * n + i]@ == mul_bool_spec(dev, ab[i] && bb[j])
}

/// The mask bits of the α's of a preprocessing pair.
pub open spec fn alpha_bits(g: TensorFpreGen, e: TensorFpreEval) -> Seq<bool> {
    Seq::new(g.n as nat, |i: int| full_bit_at(g.alpha_auth_bit_shares@, e.alpha_auth_bit_shares@, i))
}

/// The mask bits of the β's of a preprocessing pair.
pub open spec fn beta_bits(g: TensorFpreGen, e: TensorFpreEval) -> Seq<bool> {
    Seq::new(g.m as nat, |j: int| full_bit_at(g.beta_auth_bit_shares@, e.beta_auth_bit_shares@, j))
}

/// A party's own bit of a cross-party authenticated bit is its share's value.
proof fn lemma_own_bits(g: crate::sharing::AuthBitShare, e: crate::sharing::AuthBitShare, dgb: u128, dev: u128)
    requires
        cross_valid(g, e, dgb, dev),
        !lsb_of(g.key@),
        !lsb_of(e.key@),
        lsb_of(dgb),
        !lsb_of(dev),
    ensures
        lsb_of(g.mac@ ^ (g.key@ ^ mul_bool_spec(dgb, g.value))) == g.value,
        lsb_of((e.key@ ^ mul_bool_spec(dev, e.value)) ^ e.mac@) == e.value,
{
    lemma_lsb_mul_bool(dgb, g.value);
    lemma_lsb_mul_bool(dev, g.value);
    lemma_lsb_mul_bool(dgb, e.value);
    lemma_lsb_mul_bool(dev, e.value);
    assert(g.mac@ == auth_spec(e.key@, g.value, dev));
    assert(e.mac@ == auth_spec(g.key@, e.value, dgb));
}

/// Lowered components have as many entries as the shares they come from.
proof fn lemma_lowered_lens(
    g: Seq<crate::sharing::AuthBitShare>,
    e: Seq<crate::sharing::AuthBitShare>,
    g_dev: Seq<Block>,
    g_dgb: Seq<Block>,
    e_dev: Seq<Block>,
    e_dgb: Seq<Block>,
    dgb: u128,
    dev: u128,
)
    requires
        lowered_ok(g, e, g_dev, g_dgb, e_dev, e_dgb, dgb, dev),
    ensures
        g_dev.len() == g.len(),
        g_dgb.len() == g.len(),
        e_dev.len() == e.len(),
        e_dgb.len() == e.len(),
{
    assert(block_vals(g_dev).len() == g_dev.len());
    assert(block_vals(g_dgb).len() == g_dgb.len());
    assert(block_vals(e_dev).len() == e_dev.len());
    assert(block_vals(e_dgb).len() == e_dgb.len());
    assert(mac_blocks(g).len() == g.len());
    assert(key_blocks(g, dgb).len() == g.len());
    assert(mac_blocks(e).len() == e.len());
    assert(key_blocks(e, dev).len() == e.len());
}

/// Parties built from a consistent preprocessing pair are ready for the online
/// phase, with the α's and β's of the pair as mask bits.
pub proof fn lemma_pair_from_fpre(fg: TensorFpreGen, fe: TensorFpreEval, gb: AuthTensorGen, ev: AuthTensorEval)
    requires
        fpre_valid(fg, fe),
        gb.n == fg.n,
        gb.m == fg.m,
        gb.chunking_factor == fg.chunking_factor,
        ev.n == fe.n,
        ev.m == fe.m,
        ev.chunking_factor == fe.chunking_factor,
        gb.cipher == ev.cipher,
        gb.delta_a == fg.delta_gb,
        ev.delta_b == fe.delta_ev,
        gb.alpha_eval == fg.alpha_dev,
        gb.alpha_gen == fg.alpha_dgb,
        gb.beta_eval == fg.beta_dev,
        gb.beta_gen == fg.beta_dgb,
        gb.correlated_eval == fg.correlated_dev,
        gb.correlated_gen == fg.correlated_dgb,
        ev.alpha_eval == fe.alpha_dev,
        ev.alpha_gen == fe.alpha_dgb,
        ev.beta_eval == fe.beta_dev,
        ev.beta_gen == fe.beta_dgb,
        ev.correlated_eval == fe.correlated_dev,
        ev.correlated_gen == fe.correlated_dgb,
    ensures
        pair_ready(gb, ev, alpha_bits(fg, fe), beta_bits(fg, fe)),
{
    let n = fg.n as int;
    let m = fg.m as int;
    let dgb = fg.delta_gb@;
    let dev = fe.delta_ev@;
    let ab = alpha_bits(fg, fe);
    let bb = beta_bits(fg, fe);
    let ga = fg.alpha_auth_bit_shares@;
    let ea = fe.alpha_auth_bit_shares@;
    let gbt = fg.beta_auth_bit_shares@;
    let ebt = fe.beta_auth_bit_shares@;
    let gc = fg.correlated_auth_bit_shares@;
    let ec = fe.correlated_auth_bit_shares@;
    lemma_lowered_lens(ga, ea, fg.alpha_dev@, fg.alpha_dgb@, fe.alpha_dev@, fe.alpha_dgb@, dgb, dev);
    lemma_lowered_lens(gbt, ebt, fg.beta_dev@, fg.beta_dgb@, fe.beta_dev@, fe.beta_dgb@, dgb, dev);
    lemma_lowered_lens(gc, ec, fg.correlated_dev@, fg.correlated_dgb@, fe.correlated_dev@, fe.correlated_dgb@, dgb, dev);
    assert forall|i: int|
        #![trigger gb.alpha_gen@[i]]
        #![trigger gb.alpha_eval@[i]]
        0 <= i < n implies {
        &&& gb.alpha_gen@[i]@ ^ ev.alpha_gen@[i]@ == mul_bool_spec(dgb, ab[i])
        &&& gb.alpha_eval@[i]@ ^ ev.alpha_eval@[i]@ == mul_bool_spec(dev, ab[i])
        &&& (own_bit(gb.alpha_eval@[i], gb.alpha_gen@[i]) != own_bit(ev.alpha_eval@[i], ev.alpha_gen@[i])) == ab[i]
    } by {
        assert(cross_valid(ga[i], ea[i], dgb, dev));
        assert(block_vals(gb.alpha_gen@)[i] == gb.alpha_gen@[i]@);
        assert(block_vals(ev.alpha_gen@)[i] == ev.alpha_gen@[i]@);
        assert(block_vals(gb.alpha_eval@)[i] == gb.alpha_eval@[i]@);
        assert(block_vals(ev.alpha_eval@)[i] == ev.alpha_eval@[i]@);
        assert(mac_blocks(ga)[i] == ga[i].mac@);
        assert(mac_blocks(ea)[i] == ea[i].mac@);
        assert(key_blocks(ga, dgb)[i] == ga[i].key@ ^ mul_bool_spec(dgb, ga[i].value));
        assert(key_blocks(ea, dev)[i] == ea[i].key@ ^ mul_bool_spec(dev, ea[i].value));
        lemma_lowered_sharing(ga[i], ea[i], dgb, dev);
        lemma_xor_laws(ea[i].mac@, ga[i].key@ ^ mul_bool_spec(dgb, ga[i].value), 0);
        lemma_own_bits(ga[i], ea[i], dgb, dev);
    }
    assert forall|j: int|
        #![trigger gb.beta_gen@[j]]
        #![trigger gb.beta_eval@[j]]
        0 <= j < m implies {
        &&& gb.beta_gen@[j]@ ^ ev.beta_gen@[j]@ == mul_bool_spec(dgb, bb[j])
        &&& gb.beta_eval@[j]@ ^ ev.beta_eval@[j]@ == mul_bool_spec(dev, bb[j])
        &&& (own_bit(gb.beta_eval@[j], gb.beta_gen@[j]) != own_bit(ev.beta_eval@[j], ev.beta_gen@[j])) == bb[j]
    } by {
        assert(cross_valid(gbt[j], ebt[j], dgb, dev));
        assert(block_vals(gb.beta_gen@)[j] == gb.beta_gen@[j]@);
        assert(block_vals(ev.beta_gen@)[j] == ev.beta_gen@[j]@);
        assert(block_vals(gb.beta_eval@)[j] == gb.beta_eval@[j]@);
        assert(block_vals(ev.beta_eval@)[j] == ev.beta_eval@[j]@);
        assert(mac_blocks(gbt)[j] == gbt[j].mac@);
        assert(mac_blocks(ebt)[j] == ebt[j].mac@);
        assert(key_blocks(gbt, dgb)[j] == gbt[j].key@ ^ mul_bool_spec(dgb, gbt[j].value));
        assert(key_blocks(ebt, dev)[j] == ebt[j].key@ ^ mul_bool_spec(dev, ebt[j].value));
        lemma_lowered_sharing(gbt[j], ebt[j], dgb, dev);
        lemma_xor_laws(ebt[j].mac@, gbt[j].key@ ^ mul_bool_spec(dgb, gbt[j].value), 0);
        lemma_own_bits(gbt[j], ebt[j], dgb, dev);
    }
    assert forall|i: int, j: int|
        #![trigger gb.correlated_gen@[j * n + i]]
        #![trigger gb.correlated_eval@[j * n + i]]
        0 <= i < n && 0 <= j < m implies {
        &&& gb.correlated_gen@[j * n + i]@ ^ ev.correlated_gen@[j * n + i]@ == mul_bool_spec(dgb, ab[i] && bb[j])
        &&& gb.correlated_eval@[j * n + i]@ ^ ev.correlated_eval@[j * n + i]@ == mul_bool_spec(dev, ab[i] && bb[j])
    } by {
        let k = j * n + i;
        assert(0 <= k < n * m) by (nonlinear_arith)
            requires
                0 <= i < n,
                0 <= j < m,
                k == j * n + i,
        ;
        assert(cross_valid(gc[k], ec[k], dgb, dev));
        assert(full_bit_at(gc, ec, k) == (full_bit_at(ga, ea, i) && full_bit_at(gbt, ebt, j)));
        assert(block_vals(gb.correlated_gen@)[k] == gb.correlated_gen@[k]@);
        assert(block_vals(ev.correlated_gen@)[k] == ev.correlated_gen@[k]@);
        assert(block_vals(gb.correlated_eval@)[k] == gb.correlated_eval@[k]@);
        assert(block_vals(ev.correlated_eval@)[k] == ev.correlated_eval@[k]@);
        assert(mac_blocks(gc)[k] == gc[k].mac@);
        assert(mac_blocks(ec)[k] == ec[k].mac@);
        assert(key_blocks(gc, dgb)[k] == gc[k].key@ ^ mul_bool_spec(dgb, gc[k].value));
        assert(key_blocks(ec, dev)[k] == ec[k].key@ ^ mul_bool_spec(dev, ec[k].value));
        lemma_lowered_sharing(gc[k], ec[k], dgb, dev);
        lemma_xor_laws(ec[k].mac@, gc[k].key@ ^ mul_bool_spec(dgb, gc[k].value), 0);
    }
}

/// The mask bits of the γ's of a preprocessing pair.
pub open spec fn gamma_bits(g: TensorFpreGen, e: TensorFpreEval) -> Seq<bool> {
    Seq::new((g.n * g.m) as nat, |k: int| full_bit_at(g.gamma_auth_bit_shares@, e.gamma_auth_bit_shares@, k))
}

/// Parties built from a preprocessing pair with valid γ's hold sharings of
/// the γ mask bits under both keys, and their own shares of each γ bit read
/// from their two components XOR to it.
pub proof fn lemma_gamma_from_fpre(fg: TensorFpreGen, fe: TensorFpreEval, gb: AuthTensorGen, ev: AuthTensorEval)
    requires
        gamma_valid(fg, fe),
        lsb_of(fg.delta_gb@),
        !lsb_of(fe.delta_ev@),
        gb.delta_a == fg.delta_gb,
        ev.delta_b == fe.delta_ev,
        gb.gamma_eval == fg.gamma_dev,
        gb.gamma_gen == fg.gamma_dgb,
        ev.gamma_eval == fe.gamma_dev,
        ev.gamma_gen == fe.gamma_dgb,
    ensures
        shares_bits(gb.gamma_gen@, ev.gamma_gen@, gamma_bits(fg, fe), gb.delta_a@),
        shares_bits(gb.gamma_eval@, ev.gamma_eval@, gamma_bits(fg, fe), ev.delta_b@),
        own_bits_ok(gb.gamma_eval@, gb.gamma_gen@, ev.gamma_eval@, ev.gamma_gen@, gamma_bits(fg, fe)),
{
    let nm = (fg.n * fg.m) as int;
    let dgb = fg.delta_gb@;
    let dev = fe.delta_ev@;
    let gm = gamma_bits(fg, fe);
    let gg = fg.gamma_auth_bit_shares@;
    let eg = fe.gamma_auth_bit_shares@;
    lemma_lowered_lens(gg, eg, fg.gamma_dev@, fg.gamma_dgb@, fe.gamma_dev@, fe.gamma_dgb@, dgb, dev);
    assert forall|k: int|
        #![trigger gb.gamma_gen@[k]]
        #![trigger gb.gamma_eval@[k]]
        0 <= k < nm implies {
        &&& gb.gamma_gen@[k]@ ^ ev.gamma_gen@[k]@ == mul_bool_spec(dgb, gm[k])
        &&& gb.gamma_eval@[k]@ ^ ev.gamma_eval@[k]@ == mul_bool_spec(dev, gm[k])
        &&& (own_bit(gb.gamma_eval@[k], gb.gamma_gen@[k]) != own_bit(ev.gamma_eval@[k], ev.gamma_gen@[k])) == gm[k]
    } by {
        assert(cross_valid(gg[k], eg[k], dgb, dev));
        assert(block_vals(gb.gamma_gen@)[k] == gb.gamma_gen@[k]@);
        assert(block_vals(ev.gamma_gen@)[k] == ev.gamma_gen@[k]@);
        assert(block_vals(gb.gamma_eval@)[k] == gb.gamma_eval@[k]@);
        assert(block_vals(ev.gamma_eval@)[k] == ev.gamma_eval@[k]@);
        assert(mac_blocks(gg)[k] == gg[k].mac@);
        assert(mac_blocks(eg)[k] == eg[k].mac@);
        assert(key_blocks(gg, dgb)[k] == gg[k].key@ ^ mul_bool_spec(dgb, gg[k].value));
        assert(key_blocks(eg, dev)[k] == eg[k].key@ ^ mul_bool_spec(dev, eg[k].value));
        lemma_lowered_sharing(gg[k], eg[k], dgb, dev);
        lemma_xor_laws(eg[k].mac@, gg[k].key@ ^ mul_bool_spec(dgb, gg[k].value), 0);
        lemma_own_bits(gg[k], eg[k], dgb, dev);
    }
}

/// The garbler's share of entry `(r, c)` of the first half under `Δ_gb`.
pub open spec fn gen_first_half_share(gb: AuthTensorGen, kind: nat, r: int, c: int) -> u128 {
    chunked_gen_z(gb.cipher.key_spec(), kind, block_vals(gb.masked_x_gen@), gb.delta_a@, gb.chunking_factor as nat,
        r as nat, c as nat)
}

/// The evaluator's share of entry `(r, c)` of the first half under `Δ_gb`,
/// evaluated with the garbler's ciphertexts.
pub open spec fn eval_first_half_share(gb: AuthTensorGen, ev: AuthTensorEval, kind: nat, r: int, c: int) -> u128 {
    let key = gb.cipher.key_spec();
    let cf = gb.chunking_factor as nat;
    let gx = block_vals(gb.masked_x_gen@);
    chunked_eval_z(key, kind, block_vals(ev.masked_x_gen@), ev.masked_x_bits@, chunk_levels_spec(key, gx, gb.delta_a@,
        cf), chunk_cts_spec(key, kind, gx, gb.delta_a@, cf, block_vals(gb.beta_gen@)), block_vals(ev.beta_gen@), cf,
        r as nat, c as nat)
}

/// The garbler's share of entry `(r, c)` of the second half under `Δ_gb`.
pub open spec fn gen_second_half_share(gb: AuthTensorGen, kind: nat, r: int, c: int) -> u128 {
    chunked_gen_z(gb.cipher.key_spec(), kind, block_vals(gb.masked_y_gen@), gb.delta_a@, gb.chunking_factor as nat,
        r as nat, c as nat)
}

/// The evaluator's share of entry `(r, c)` of the second half under `Δ_gb`,
/// evaluated with the garbler's ciphertexts.
pub open spec fn eval_second_half_share(gb: AuthTensorGen, ev: AuthTensorEval, kind: nat, r: int, c: int) -> u128 {
    let key = gb.cipher.key_spec();
    let cf = gb.chunking_factor as nat;
    let gy = block_vals(gb.masked_y_gen@);
    chunked_eval_z(key, kind, block_vals(ev.masked_y_gen@), ev.masked_y_bits@, chunk_levels_spec(key, gy, gb.delta_a@,
        cf), chunk_cts_spec(key, kind, gy, gb.delta_a@, cf, block_vals(gb.x_gen@)), block_vals(ev.x_gen@), cf,
        r as nat, c as nat)
}

/// The garbler's share of output entry `(i, j)` under `Δ_gb`: first half,
/// transposed second half, and its `α·β` share (`kind` 0 for narrow leaves,
/// 1 for the κ halves of wide ones).
pub open spec fn gen_output_share(gb: AuthTensorGen, kind: nat, i: int, j: int) -> u128 {
    let key = gb.cipher.key_spec();
    let cf = gb.chunking_factor as nat;
    chunked_gen_z(key, kind, block_vals(gb.masked_x_gen@), gb.delta_a@, cf, i as nat, j as nat)
        ^ (chunked_gen_z(key, kind, block_vals(gb.masked_y_gen@), gb.delta_a@, cf, j as nat, i as nat)
            ^ gb.correlated_gen@[j * gb.n + i]@)
}

/// The evaluator's share of output entry `(i, j)` under `Δ_gb`, evaluated with
/// the garbler's ciphertexts.
pub open spec fn eval_output_share(gb: AuthTensorGen, ev: AuthTensorEval, kind: nat, i: int, j: int) -> u128 {
    let key = gb.cipher.key_spec();
    let cf = gb.chunking_factor as nat;
    let gx = block_vals(gb.masked_x_gen@);
    let gy = block_vals(gb.masked_y_gen@);
    chunked_eval_z(key, kind, block_vals(ev.masked_x_gen@), ev.masked_x_bits@, chunk_levels_spec(key, gx, gb.delta_a@, cf),
        chunk_cts_spec(key, kind, gx, gb.delta_a@, cf, block_vals(gb.beta_gen@)), block_vals(ev.beta_gen@), cf,
        i as nat, j as nat)
        ^ (chunked_eval_z(key, kind, block_vals(ev.masked_y_gen@), ev.masked_y_bits@,
            chunk_levels_spec(key, gy, gb.delta_a@, cf), chunk_cts_spec(key, kind, gy, gb.delta_a@, cf,
            block_vals(gb.x_gen@)), block_vals(ev.x_gen@), cf, j as nat, i as nat) ^ ev.correlated_gen@[j * gb.n + i]@)
}

/// The garbler's share of output entry `(i, j)` under `Δ_ev` (ρ halves).
pub open spec fn gen_output_share_ev(gb: AuthTensorGen, i: int, j: int) -> u128 {
    let key = gb.cipher.key_spec();
    let cf = gb.chunking_factor as nat;
    chunked_gen_z(key, 2, block_vals(gb.masked_x_gen@), gb.delta_a@, cf, i as nat, j as nat)
        ^ (chunked_gen_z(key, 2, block_vals(gb.masked_y_gen@), gb.delta_a@, cf, j as nat, i as nat)
            ^ gb.correlated_eval@[j * gb.n + i]@)
}

/// The evaluator's share of output entry `(i, j)` under `Δ_ev` (ρ halves).
pub open spec fn eval_output_share_ev(gb: AuthTensorGen, ev: AuthTensorEval, i: int, j: int) -> u128 {
    let key = gb.cipher.key_spec();
    let cf = gb.chunking_factor as nat;
    let gx = block_vals(gb.masked_x_gen@);
    let gy = block_vals(gb.masked_y_gen@);
    chunked_eval_z(key, 2, block_vals(ev.masked_x_gen@), ev.masked_x_bits@, chunk_levels_spec(key, gx, gb.delta_a@, cf),
        chunk_cts_spec(key, 2, gx, gb.delta_a@, cf, block_vals(gb.beta_eval@)), block_vals(ev.beta_eval@), cf,
        i as nat, j as nat)
        ^ (chunked_eval_z(key, 2, block_vals(ev.masked_y_gen@), ev.masked_y_bits@,
            chunk_levels_spec(key, gy, gb.delta_a@, cf), chunk_cts_spec(key, 2, gy, gb.delta_a@, cf,
            block_vals(gb.alpha_eval@)), ev.second_y_d_ev(), cf, j as nat, i as nat) ^ ev.correlated_eval@[j * gb.n + i]@)
}

/// After input encoding, the evaluator's masked labels are the garbler's
/// shifted by `d·Δ_gb`, where `d = x ⊕ mask` are the evaluator's masked bits.
proof fn lemma_masked_labels(
    xb: Seq<bool>,
    mask: Seq<bool>,
    delta: u128,
    g_dev: Seq<Block>,
    g_dgb: Seq<Block>,
    e_dev: Seq<Block>,
    e_dgb: Seq<Block>,
    g_label: Seq<Block>,
    e_label: Seq<Block>,
    g_masked: Seq<Block>,
    e_masked: Seq<Block>,
    g_bits: Seq<bool>,
    e_bits: Seq<bool>,
)
    requires
        encoding_ok(xb, delta, g_dev, g_dgb, e_dev, e_dgb, g_label, e_label, g_masked, e_masked, g_bits, e_bits),
        shares_bits(g_dgb, e_dgb, mask, delta),
        own_bits_ok(g_dev, g_dgb, e_dev, e_dgb, mask),
        mask.len() == xb.len(),
    ensures
        forall|t: int| 0 <= t < xb.len() ==> #[trigger] block_vals(e_masked)[t]
            == block_vals(g_masked)[t] ^ mul_bool_spec(delta, e_bits[t]),
        forall|t: int| 0 <= t < xb.len() ==> #[trigger] e_bits[t] == (xb[t] != mask[t]),
        forall|t: int| 0 <= t < xb.len() ==> #[trigger] block_vals(g_label)[t] ^ block_vals(e_label)[t]
            == mul_bool_spec(delta, xb[t]),
{
    assert forall|t: int|
        #![trigger block_vals(e_masked)[t]]
        #![trigger e_bits[t]]
        #![trigger block_vals(g_label)[t]]
        0 <= t < xb.len() implies {
        &&& block_vals(e_masked)[t] == block_vals(g_masked)[t] ^ mul_bool_spec(delta, e_bits[t])
        &&& e_bits[t] == (xb[t] != mask[t])
        &&& block_vals(g_label)[t] ^ block_vals(e_label)[t] == mul_bool_spec(delta, xb[t])
    } by {
        assert(block_vals(g_label)[t] == g_label[t]@);
        assert(block_vals(e_label)[t] == e_label[t]@);
        assert(encoding_at(xb[t], delta, g_dev[t], g_dgb[t], e_dev[t], e_dgb[t], g_label[t], e_label[t], g_masked[t],
            e_masked[t], g_bits[t], e_bits[t]));
        assert(g_dgb[t]@ ^ e_dgb[t]@ == mul_bool_spec(delta, mask[t]));
        let a = own_bit(g_dev[t], g_dgb[t]);
        let s = mul_bool_spec(delta, xb[t] != a);
        lemma_xor_masked(e_label[t]@, mul_bool_spec(delta, xb[t]), g_dgb[t]@, e_dgb[t]@, mul_bool_spec(delta, mask[t]), s);
        lemma_mul_bool_xor(delta, xb[t], mask[t]);
        let mx = mul_bool_spec(delta, xb[t]);
        lemma_xor_laws(e_label[t]@, mx, 0);
        lemma_xor_laws(mx, e_label[t]@, e_label[t]@);
        lemma_xor_self(e_label[t]@);
        lemma_xor_zero(mx);
    }
}

/// Boolean core of the tensor gate: `(x⊕α)β ⊕ (y⊕β)x ⊕ αβ = xy`, lifted to multiples of `Δ`.
proof fn lemma_gate_algebra(d: u128, x: bool, y: bool, a: bool, b: bool)
    ensures
        (mul_bool_spec(d, (x != a) && b) ^ mul_bool_spec(d, (y != b) && x)) ^ mul_bool_spec(d, a && b)
            == mul_bool_spec(d, x && y),
{
    lemma_mul_bool_xor(d, (x != a) && b, (y != b) && x);
    lemma_mul_bool_xor(d, ((x != a) && b) != ((y != b) && x), a && b);
}

/// Correctness of the authenticated tensor gate under `Δ_gb`: for parties
/// ready from consistent preprocessing, after input encoding of `x`, `y`, the
/// garbler's and the evaluator's output shares of entry `(i, j)` reconstruct
/// `x_i·y_j·Δ_gb`, with narrow (`kind` 0) or wide (`kind` 1) leaves.
pub proof fn lemma_gate_output(
    gb: AuthTensorGen,
    ev: AuthTensorEval,
    ab: Seq<bool>,
    bb: Seq<bool>,
    xb: Seq<bool>,
    yb: Seq<bool>,
    kind: nat,
    i: int,
    j: int,
)
    requires
        pair_ready(gb, ev, ab, bb),
        gb.chunking_factor > 0,
        xb.len() == gb.n,
        yb.len() == gb.m,
        encoding_ok(xb, gb.delta_a@, gb.alpha_eval@, gb.alpha_gen@, ev.alpha_eval@, ev.alpha_gen@, gb.x_gen@, ev.x_gen@,
            gb.masked_x_gen@, ev.masked_x_gen@, gb.masked_x_bits@, ev.masked_x_bits@),
        encoding_ok(yb, gb.delta_a@, gb.beta_eval@, gb.beta_gen@, ev.beta_eval@, ev.beta_gen@, gb.y_gen@, ev.y_gen@,
            gb.masked_y_gen@, ev.masked_y_gen@, gb.masked_y_bits@, ev.masked_y_bits@),
        0 <= i < gb.n,
        0 <= j < gb.m,
    ensures
        gen_output_share(gb, kind, i, j) ^ eval_output_share(gb, ev, kind, i, j)
            == mul_bool_spec(gb.delta_a@, xb[i] && yb[j]),
        gen_first_half_share(gb, kind, i, j) ^ eval_first_half_share(gb, ev, kind, i, j)
            == mul_bool_spec(gb.delta_a@, ev.masked_x_bits@[i] && bb[j]),
        gen_second_half_share(gb, kind, j, i) ^ eval_second_half_share(gb, ev, kind, j, i)
            == mul_bool_spec(gb.delta_a@, ev.masked_y_bits@[j] && xb[i]),
        ev.masked_x_bits@[i] == (xb[i] != ab[i]),
        ev.masked_y_bits@[j] == (yb[j] != bb[j]),
{
    let d = gb.delta_a@;
    let key = gb.cipher.key_spec();
    let cf = gb.chunking_factor as nat;
    let n = gb.n as int;
    lemma_masked_labels(xb, ab, d, gb.alpha_eval@, gb.alpha_gen@, ev.alpha_eval@, ev.alpha_gen@, gb.x_gen@, ev.x_gen@,
        gb.masked_x_gen@, ev.masked_x_gen@, gb.masked_x_bits@, ev.masked_x_bits@);
    lemma_masked_labels(yb, bb, d, gb.beta_eval@, gb.beta_gen@, ev.beta_eval@, ev.beta_gen@, gb.y_gen@, ev.y_gen@,
        gb.masked_y_gen@, ev.masked_y_gen@, gb.masked_y_bits@, ev.masked_y_bits@);
    let gx = block_vals(gb.masked_x_gen@);
    let ex = block_vals(ev.masked_x_gen@);
    let gy = block_vals(gb.masked_y_gen@);
    let ey = block_vals(ev.masked_y_gen@);
    lemma_chunked_product(key, kind, gx, ex, ev.masked_x_bits@, d, cf, block_vals(gb.beta_gen@),
        block_vals(ev.beta_gen@), i as nat, j as nat);
    lemma_chunked_product(key, kind, gy, ey, ev.masked_y_bits@, d, cf, block_vals(gb.x_gen@),
        block_vals(ev.x_gen@), j as nat, i as nat);
    let z1g = chunked_gen_z(key, kind, gx, d, cf, i as nat, j as nat);
    let z1e = chunked_eval_z(key, kind, ex, ev.masked_x_bits@, chunk_levels_spec(key, gx, d, cf),
        chunk_cts_spec(key, kind, gx, d, cf, block_vals(gb.beta_gen@)), block_vals(ev.beta_gen@), cf, i as nat, j as nat);
    let z2g = chunked_gen_z(key, kind, gy, d, cf, j as nat, i as nat);
    let z2e = chunked_eval_z(key, kind, ey, ev.masked_y_bits@, chunk_levels_spec(key, gy, d, cf),
        chunk_cts_spec(key, kind, gy, d, cf, block_vals(gb.x_gen@)), block_vals(ev.x_gen@), cf, j as nat, i as nat);
    let cg = gb.correlated_gen@[j * n + i]@;
    let ce = ev.correlated_gen@[j * n + i]@;
    lemma_xor_regroup6(z1g, z2g, cg, z1e, z2e, ce);
    assert(block_vals(gb.beta_gen@)[j] ^ block_vals(ev.beta_gen@)[j] == mul_bool_spec(d, bb[j]));
    assert(z1g ^ z1e == mul_bool_spec(d, (xb[i] != ab[i]) && bb[j]));
    assert(z2g ^ z2e == mul_bool_spec(d, (yb[j] != bb[j]) && xb[i]));
    assert(cg ^ ce == mul_bool_spec(d, ab[i] && bb[j]));
    lemma_xor_laws(z1g ^ z1e, z2g ^ z2e, cg ^ ce);
    lemma_gate_algebra(d, xb[i], yb[j], ab[i], bb[j]);
}

/// Correctness of the wide gate under `Δ_ev`: the ρ-half output shares of
/// entry `(i, j)` reconstruct `x_i·y_j·Δ_ev`.
pub proof fn lemma_gate_output_ev(
    gb: AuthTensorGen,
    ev: AuthTensorEval,
    ab: Seq<bool>,
    bb: Seq<bool>,
    xb: Seq<bool>,
    yb: Seq<bool>,
    i: int,
    j: int,
)
    requires
        pair_ready(gb, ev, ab, bb),
        gb.chunking_factor > 0,
        xb.len() == gb.n,
        yb.len() == gb.m,
        encoding_ok(xb, gb.delta_a@, gb.alpha_eval@, gb.alpha_gen@, ev.alpha_eval@, ev.alpha_gen@, gb.x_gen@, ev.x_gen@,
            gb.masked_x_gen@, ev.masked_x_gen@, gb.masked_x_bits@, ev.masked_x_bits@),
        encoding_ok(yb, gb.delta_a@, gb.beta_eval@, gb.beta_gen@, ev.beta_eval@, ev.beta_gen@, gb.y_gen@, ev.y_gen@,
            gb.masked_y_gen@, ev.masked_y_gen@, gb.masked_y_bits@, ev.masked_y_bits@),
        0 <= i < gb.n,
        0 <= j < gb.m,
    ensures
        gen_output_share_ev(gb, i, j) ^ eval_output_share_ev(gb, ev, i, j) == mul_bool_spec(ev.delta_b@, xb[i] && yb[j]),
{
    let d = gb.delta_a@;
    let dv = ev.delta_b@;
    let key = gb.cipher.key_spec();
    let cf = gb.chunking_factor as nat;
    let n = gb.n as int;
    lemma_masked_labels(xb, ab, d, gb.alpha_eval@, gb.alpha_gen@, ev.alpha_eval@, ev.alpha_gen@, gb.x_gen@, ev.x_gen@,
        gb.masked_x_gen@, ev.masked_x_gen@, gb.masked_x_bits@, ev.masked_x_bits@);
    lemma_masked_labels(yb, bb, d, gb.beta_eval@, gb.beta_gen@, ev.beta_eval@, ev.beta_gen@, gb.y_gen@, ev.y_gen@,
        gb.masked_y_gen@, ev.masked_y_gen@, gb.masked_y_bits@, ev.masked_y_bits@);
    let gx = block_vals(gb.masked_x_gen@);
    let ex = block_vals(ev.masked_x_gen@);
    let gy = block_vals(gb.masked_y_gen@);
    let ey = block_vals(ev.masked_y_gen@);
    lemma_chunked_product(key, 2, gx, ex, ev.masked_x_bits@, d, cf, block_vals(gb.beta_eval@),
        block_vals(ev.beta_eval@), i as nat, j as nat);
    lemma_chunked_product(key, 2, gy, ey, ev.masked_y_bits@, d, cf, block_vals(gb.alpha_eval@),
        ev.second_y_d_ev(), j as nat, i as nat);
    let z1g = chunked_gen_z(key, 2, gx, d, cf, i as nat, j as nat);
    let z1e = chunked_eval_z(key, 2, ex, ev.masked_x_bits@, chunk_levels_spec(key, gx, d, cf),
        chunk_cts_spec(key, 2, gx, d, cf, block_vals(gb.beta_eval@)), block_vals(ev.beta_eval@), cf, i as nat, j as nat);
    let z2g = chunked_gen_z(key, 2, gy, d, cf, j as nat, i as nat);
    let z2e = chunked_eval_z(key, 2, ey, ev.masked_y_bits@, chunk_levels_spec(key, gy, d, cf),
        chunk_cts_spec(key, 2, gy, d, cf, block_vals(gb.alpha_eval@)), ev.second_y_d_ev(), cf, j as nat, i as nat);
    let cg = gb.correlated_eval@[j * n + i]@;
    let ce = ev.correlated_eval@[j * n + i]@;
    lemma_xor_regroup6(z1g, z2g, cg, z1e, z2e, ce);
    assert(block_vals(gb.beta_eval@)[j] ^ block_vals(ev.beta_eval@)[j] == mul_bool_spec(dv, bb[j]));
    let ag = gb.alpha_eval@[i]@;
    let ae = ev.alpha_eval@[i]@;
    assert(ag ^ ae == mul_bool_spec(dv, ab[i]));
    assert(ev.second_y_d_ev()[i] == ae ^ mul_bool_spec(dv, ev.masked_x_bits@[i]));
    lemma_xor_laws(ag, ae, mul_bool_spec(dv, ev.masked_x_bits@[i]));
    lemma_mul_bool_xor(dv, ab[i], ev.masked_x_bits@[i]);
    assert(block_vals(gb.alpha_eval@)[i] ^ ev.second_y_d_ev()[i] == mul_bool_spec(dv, xb[i]));
    assert(z1g ^ z1e == mul_bool_spec(dv, (xb[i] != ab[i]) && bb[j]));
    assert(z2g ^ z2e == mul_bool_spec(dv, (yb[j] != bb[j]) && xb[i]));
    assert(cg ^ ce == mul_bool_spec(dv, ab[i] && bb[j]));
    lemma_xor_laws(z1g ^ z1e, z2g ^ z2e, cg ^ ce);
    lemma_gate_algebra(dv, xb[i], yb[j], ab[i], bb[j]);
}

/// What the garbler's first half does: `first_half_out` gains the garbled
/// `(x⊕α) ⊗ β`, the rest of the state stays, and the returned levels and leaf
/// ciphertexts are those of the masked `x` labels against `[β·Δ_gb]`.
pub open spec fn gen_first_half_step(g0: AuthTensorGen, g1: AuthTensorGen, cl: Seq<Vec<Block>>, ct: Seq<Vec<Block>>) -> bool {
    let key = g0.cipher.key_spec();
    let cf = g0.chunking_factor as nat;
    let gx = block_vals(g0.masked_x_gen@);
    &&& g1.same_inputs(&g0)
    &&& g1.second_half_out == g0.second_half_out
    &&& forall|r: int, c: int| 0 <= r < g0.n && 0 <= c < g0.m ==> #[trigger] g1.first_half_out.val(r, c)
        == g0.first_half_out.val(r, c) ^ chunked_gen_z(key, 0, gx, g0.delta_a@, cf, r as nat, c as nat)
    &&& nested_vals(cl) == chunk_levels_spec(key, gx, g0.delta_a@, cf)
    &&& nested_vals(ct) == chunk_cts_spec(key, 0, gx, g0.delta_a@, cf, block_vals(g0.beta_gen@))
}

/// What the evaluator's first half does with the garbler's levels `cl` and
/// ciphertexts `ct`: `first_half_out` gains the evaluated first half, with the
/// masked `x` bits as choice bits; the rest of the state stays.
pub open spec fn eval_first_half_step(e0: AuthTensorEval, e1: AuthTensorEval, cl: Seq<Vec<Block>>, ct: Seq<Vec<Block>>) -> bool {
    let key = e0.cipher.key_spec();
    let cf = e0.chunking_factor as nat;
    &&& e1.same_inputs(&e0)
    &&& e1.second_half_out == e0.second_half_out
    &&& forall|r: int, c: int| 0 <= r < e0.n && 0 <= c < e0.m ==> #[trigger] e1.first_half_out.val(r, c)
        == e0.first_half_out.val(r, c) ^ chunked_eval_z(key, 0, block_vals(e0.masked_x_gen@), e0.masked_x_bits@,
        nested_vals(cl), nested_vals(ct), block_vals(e0.beta_gen@), cf, r as nat, c as nat)
}

/// What the garbler's second half does: `second_half_out` gains the garbled
/// `(y⊕β) ⊗ x`, the rest of the state stays, and the returned levels and leaf
/// ciphertexts are those of the masked `y` labels against the `x` labels.
pub open spec fn gen_second_half_step(g0: AuthTensorGen, g1: AuthTensorGen, cl: Seq<Vec<Block>>, ct: Seq<Vec<Block>>) -> bool {
    let key = g0.cipher.key_spec();
    let cf = g0.chunking_factor as nat;
    let gy = block_vals(g0.masked_y_gen@);
    &&& g1.same_inputs(&g0)
    &&& g1.first_half_out == g0.first_half_out
    &&& forall|r: int, c: int| 0 <= r < g0.m && 0 <= c < g0.n ==> #[trigger] g1.second_half_out.val(r, c)
        == g0.second_half_out.val(r, c) ^ chunked_gen_z(key, 0, gy, g0.delta_a@, cf, r as nat, c as nat)
    &&& nested_vals(cl) == chunk_levels_spec(key, gy, g0.delta_a@, cf)
    &&& nested_vals(ct) == chunk_cts_spec(key, 0, gy, g0.delta_a@, cf, block_vals(g0.x_gen@))
}

/// What the evaluator's second half does with the garbler's levels `cl` and
/// ciphertexts `ct`: `second_half_out` gains the evaluated second half, with
/// the masked `y` bits as choice bits; the rest of the state stays.
pub open spec fn eval_second_half_step(e0: AuthTensorEval, e1: AuthTensorEval, cl: Seq<Vec<Block>>, ct: Seq<Vec<Block>>) -> bool {
    let key = e0.cipher.key_spec();
    let cf = e0.chunking_factor as nat;
    &&& e1.same_inputs(&e0)
    &&& e1.first_half_out == e0.first_half_out
    &&& forall|r: int, c: int| 0 <= r < e0.m && 0 <= c < e0.n ==> #[trigger] e1.second_half_out.val(r, c)
        == e0.second_half_out.val(r, c) ^ chunked_eval_z(key, 0, block_vals(e0.masked_y_gen@), e0.masked_y_bits@,
        nested_vals(cl), nested_vals(ct), block_vals(e0.x_gen@), cf, r as nat, c as nat)
}

/// What the garbler's final fold does: entry `(i, j)` of `first_half_out`
/// gains entry `(j, i)` of `second_half_out` and its `α·β` share under `Δ_gb`.
pub open spec fn gen_final_step(g0: AuthTensorGen, g1: AuthTensorGen) -> bool {
    &&& g1.same_inputs(&g0)
    &&& forall|i: int, j: int| 0 <= i < g0.n && 0 <= j < g0.m ==> #[trigger] g1.first_half_out.val(i, j)
        == g0.first_half_out.val(i, j) ^ (g0.second_half_out.val(j, i) ^ g0.correlated_gen@[j * g0.n + i]@)
}

/// What the evaluator's final fold does: entry `(i, j)` of `first_half_out`
/// gains entry `(j, i)` of `second_half_out` and its `α·β` share under `Δ_gb`.
pub open spec fn eval_final_step(e0: AuthTensorEval, e1: AuthTensorEval) -> bool {
    &&& e1.same_inputs(&e0)
    &&& forall|i: int, j: int| 0 <= i < e0.n && 0 <= j < e0.m ==> #[trigger] e1.first_half_out.val(i, j)
        == e0.first_half_out.val(i, j) ^ (e0.second_half_out.val(j, i) ^ e0.correlated_gen@[j * e0.n + i]@)
}

/// The first protocol end to end: from a garbler and an evaluator ready for
/// the online phase with encoded inputs `x`, `y` and zero accumulators, the
/// garbler's first half, the evaluator's first half on what it sent, the same
/// for the second half, then both final folds leave `first_half_out` shares
/// that reconstruct `x_i·y_j·Δ_gb` at every entry `(i, j)`.
pub proof fn lemma_protocol_1_output(
    g0: AuthTensorGen,
    e0: AuthTensorEval,
    g1: AuthTensorGen,
    e1: AuthTensorEval,
    g2: AuthTensorGen,
    e2: AuthTensorEval,
    g3: AuthTensorGen,
    e3: AuthTensorEval,
    cl1: Seq<Vec<Block>>,
    ct1: Seq<Vec<Block>>,
    cl2: Seq<Vec<Block>>,
    ct2: Seq<Vec<Block>>,
    ab: Seq<bool>,
    bb: Seq<bool>,
    xb: Seq<bool>,
    yb: Seq<bool>,
)
    requires
        pair_ready(g0, e0, ab, bb),
        g0.chunking_factor > 0,
        xb.len() == g0.n,
        yb.len() == g0.m,
        encoding_ok(xb, g0.delta_a@, g0.alpha_eval@, g0.alpha_gen@, e0.alpha_eval@, e0.alpha_gen@, g0.x_gen@, e0.x_gen@,
            g0.masked_x_gen@, e0.masked_x_gen@, g0.masked_x_bits@, e0.masked_x_bits@),
        encoding_ok(yb, g0.delta_a@, g0.beta_eval@, g0.beta_gen@, e0.beta_eval@, e0.beta_gen@, g0.y_gen@, e0.y_gen@,
            g0.masked_y_gen@, e0.masked_y_gen@, g0.masked_y_bits@, e0.masked_y_bits@),
        g0.outs_ok(),
        g0.outs_zero(),
        e0.outs_ok(),
        e0.outs_zero(),
        gen_first_half_step(g0, g1, cl1, ct1),
        eval_first_half_step(e0, e1, cl1, ct1),
        gen_second_half_step(g1, g2, cl2, ct2),
        eval_second_half_step(e1, e2, cl2, ct2),
        gen_final_step(g2, g3),
        eval_final_step(e2, e3),
    ensures
        forall|i: int, j: int| 0 <= i < g0.n && 0 <= j < g0.m ==> #[trigger] g1.first_half_out.val(i, j)
            ^ e1.first_half_out.val(i, j) == mul_bool_spec(g0.delta_a@, e0.masked_x_bits@[i] && bb[j]),
        forall|i: int, j: int| 0 <= i < g0.n && 0 <= j < g0.m ==> #[trigger] g2.second_half_out.val(j, i)
            ^ e2.second_half_out.val(j, i) == mul_bool_spec(g0.delta_a@, e0.masked_y_bits@[j] && xb[i]),
        e2.first_half_out == e1.first_half_out,
        forall|i: int, j: int| 0 <= i < g0.n && 0 <= j < g0.m ==> #[trigger] g3.first_half_out.val(i, j)
            ^ e3.first_half_out.val(i, j) == mul_bool_spec(g0.delta_a@, xb[i] && yb[j]),
{
    assert forall|i: int, j: int|
        #![trigger g1.first_half_out.val(i, j)]
        #![trigger g2.second_half_out.val(j, i)]
        #![trigger g3.first_half_out.val(i, j)]
        0 <= i < g0.n && 0 <= j < g0.m implies {
        &&& g1.first_half_out.val(i, j) ^ e1.first_half_out.val(i, j) == mul_bool_spec(g0.delta_a@,
            e0.masked_x_bits@[i] && bb[j])
        &&& g2.second_half_out.val(j, i) ^ e2.second_half_out.val(j, i) == mul_bool_spec(g0.delta_a@,
            e0.masked_y_bits@[j] && xb[i])
        &&& g3.first_half_out.val(i, j) ^ e3.first_half_out.val(i, j) == mul_bool_spec(g0.delta_a@, xb[i] && yb[j])
    } by {
        assert(g0.first_half_out.val(i, j) == 0);
        assert(g0.second_half_out.val(j, i) == 0);
        assert(e0.first_half_out.val(i, j) == 0);
        assert(e0.second_half_out.val(j, i) == 0);
        let key = g0.cipher.key_spec();
        let cf = g0.chunking_factor as nat;
        let z1g = chunked_gen_z(key, 0, block_vals(g0.masked_x_gen@), g0.delta_a@, cf, i as nat, j as nat);
        let z2g = chunked_gen_z(key, 0, block_vals(g0.masked_y_gen@), g0.delta_a@, cf, j as nat, i as nat);
        let z1e = chunked_eval_z(key, 0, block_vals(e0.masked_x_gen@), e0.masked_x_bits@, nested_vals(cl1),
            nested_vals(ct1), block_vals(e0.beta_gen@), cf, i as nat, j as nat);
        let z2e = chunked_eval_z(key, 0, block_vals(e0.masked_y_gen@), e0.masked_y_bits@, nested_vals(cl2),
            nested_vals(ct2), block_vals(e0.x_gen@), cf, j as nat, i as nat);
        lemma_xor_zero(z1g);
        lemma_xor_zero(z2g);
        lemma_xor_zero(z1e);
        lemma_xor_zero(z2e);
        assert(g1.first_half_out.val(i, j) == z1g);
        assert(g2.second_half_out.val(j, i) == g1.second_half_out.val(j, i) ^ chunked_gen_z(g1.cipher.key_spec(), 0,
            block_vals(g1.masked_y_gen@), g1.delta_a@, g1.chunking_factor as nat, j as nat, i as nat));
        assert(e1.first_half_out.val(i, j) == e0.first_half_out.val(i, j) ^ chunked_eval_z(e0.cipher.key_spec(), 0,
            block_vals(e0.masked_x_gen@), e0.masked_x_bits@, nested_vals(cl1), nested_vals(ct1),
            block_vals(e0.beta_gen@), e0.chunking_factor as nat, i as nat, j as nat));
        assert(e2.second_half_out.val(j, i) == e1.second_half_out.val(j, i) ^ chunked_eval_z(e1.cipher.key_spec(), 0,
            block_vals(e1.masked_y_gen@), e1.masked_y_bits@, nested_vals(cl2), nested_vals(ct2),
            block_vals(e1.x_gen@), e1.chunking_factor as nat, j as nat, i as nat));
        assert(g3.first_half_out.val(i, j) == g2.first_half_out.val(i, j) ^ (g2.second_half_out.val(j, i)
            ^ g2.correlated_gen@[j * g2.n + i]@));
        assert(e3.first_half_out.val(i, j) == e2.first_half_out.val(i, j) ^ (e2.second_half_out.val(j, i)
            ^ e2.correlated_gen@[j * e2.n + i]@));
        assert(g3.first_half_out.val(i, j) == gen_output_share(g0, 0, i, j));
        assert(e3.first_half_out.val(i, j) == eval_output_share(g0, e0, 0, i, j));
        lemma_gate_output(g0, e0, ab, bb, xb, yb, 0, i, j);
    }
}

/// What the garbler's first half with wide leaves does: `first_half_out`
/// gains the κ halves and `first_half_out_ev` the ρ halves of the garbled
/// `(x⊕α) ⊗ β`, the rest of the state stays, and the returned levels and leaf
/// ciphertext pairs are those of the masked `x` labels against `[β·Δ_gb]` and
/// `[β·Δ_ev]`.
pub open spec fn gen_first_half_p2_step(
    g0: AuthTensorGen,
    g1: AuthTensorGen,
    cl: Seq<Vec<Block>>,
    ct: Seq<Vec<(Block, Block)>>,
) -> bool {
    let key = g0.cipher.key_spec();
    let cf = g0.chunking_factor as nat;
    let gx = block_vals(g0.masked_x_gen@);
    &&& g1.same_inputs(&g0)
    &&& g1.second_half_out == g0.second_half_out
    &&& g1.second_half_out_ev == g0.second_half_out_ev
    &&& forall|r: int, c: int| 0 <= r < g0.n && 0 <= c < g0.m ==> #[trigger] g1.first_half_out.val(r, c)
        == g0.first_half_out.val(r, c) ^ chunked_gen_z(key, 1, gx, g0.delta_a@, cf, r as nat, c as nat)
    &&& forall|r: int, c: int| 0 <= r < g0.n && 0 <= c < g0.m ==> #[trigger] g1.first_half_out_ev.val(r, c)
        == g0.first_half_out_ev.val(r, c) ^ chunked_gen_z(key, 2, gx, g0.delta_a@, cf, r as nat, c as nat)
    &&& nested_vals(cl) == chunk_levels_spec(key, gx, g0.delta_a@, cf)
    &&& nested_fst(ct) == chunk_cts_spec(key, 1, gx, g0.delta_a@, cf, block_vals(g0.beta_gen@))
    &&& nested_snd(ct) == chunk_cts_spec(key, 2, gx, g0.delta_a@, cf, block_vals(g0.beta_eval@))
}

/// What the evaluator's first half with wide leaves does with the garbler's
/// levels and ciphertext pairs: both first-half accumulators gain the
/// evaluated halves; the rest of the state stays.
pub open spec fn eval_first_half_p2_step(
    e0: AuthTensorEval,
    e1: AuthTensorEval,
    cl: Seq<Vec<Block>>,
    ct: Seq<Vec<(Block, Block)>>,
) -> bool {
    let key = e0.cipher.key_spec();
    let cf = e0.chunking_factor as nat;
    let ex = block_vals(e0.masked_x_gen@);
    &&& e1.same_inputs(&e0)
    &&& e1.second_half_out == e0.second_half_out
    &&& e1.second_half_out_ev == e0.second_half_out_ev
    &&& forall|r: int, c: int| 0 <= r < e0.n && 0 <= c < e0.m ==> #[trigger] e1.first_half_out.val(r, c)
        == e0.first_half_out.val(r, c) ^ chunked_eval_z(key, 1, ex, e0.masked_x_bits@, nested_vals(cl),
        nested_fst(ct), block_vals(e0.beta_gen@), cf, r as nat, c as nat)
    &&& forall|r: int, c: int| 0 <= r < e0.n && 0 <= c < e0.m ==> #[trigger] e1.first_half_out_ev.val(r, c)
        == e0.first_half_out_ev.val(r, c) ^ chunked_eval_z(key, 2, ex, e0.masked_x_bits@, nested_vals(cl),
        nested_snd(ct), block_vals(e0.beta_eval@), cf, r as nat, c as nat)
}

/// What the garbler's second half with wide leaves does: both second-half
/// accumulators gain the garbled `(y⊕β) ⊗ x`, the rest of the state stays, and
/// the returned levels and ciphertext pairs are those of the masked `y` labels
/// against the `x` labels and `[α·Δ_ev]`.
pub open spec fn gen_second_half_p2_step(
    g0: AuthTensorGen,
    g1: AuthTensorGen,
    cl: Seq<Vec<Block>>,
    ct: Seq<Vec<(Block, Block)>>,
) -> bool {
    let key = g0.cipher.key_spec();
    let cf = g0.chunking_factor as nat;
    let gy = block_vals(g0.masked_y_gen@);
    &&& g1.same_inputs(&g0)
    &&& g1.first_half_out == g0.first_half_out
    &&& g1.first_half_out_ev == g0.first_half_out_ev
    &&& forall|r: int, c: int| 0 <= r < g0.m && 0 <= c < g0.n ==> #[trigger] g1.second_half_out.val(r, c)
        == g0.second_half_out.val(r, c) ^ chunked_gen_z(key, 1, gy, g0.delta_a@, cf, r as nat, c as nat)
    &&& forall|r: int, c: int| 0 <= r < g0.m && 0 <= c < g0.n ==> #[trigger] g1.second_half_out_ev.val(r, c)
        == g0.second_half_out_ev.val(r, c) ^ chunked_gen_z(key, 2, gy, g0.delta_a@, cf, r as nat, c as nat)
    &&& nested_vals(cl) == chunk_levels_spec(key, gy, g0.delta_a@, cf)
    &&& nested_fst(ct) == chunk_cts_spec(key, 1, gy, g0.delta_a@, cf, block_vals(g0.x_gen@))
    &&& nested_snd(ct) == chunk_cts_spec(key, 2, gy, g0.delta_a@, cf, block_vals(g0.alpha_eval@))
}

/// What the evaluator's second half with wide leaves does with the garbler's
/// levels and ciphertext pairs: both second-half accumulators gain the
/// evaluated halves; the rest of the state stays.
pub open spec fn eval_second_half_p2_step(
    e0: AuthTensorEval,
    e1: AuthTensorEval,
    cl: Seq<Vec<Block>>,
    ct: Seq<Vec<(Block, Block)>>,
) -> bool {
    let key = e0.cipher.key_spec();
    let cf = e0.chunking_factor as nat;
    let ey = block_vals(e0.masked_y_gen@);
    &&& e1.same_inputs(&e0)
    &&& e1.first_half_out == e0.first_half_out
    &&& e1.first_half_out_ev == e0.first_half_out_ev
    &&& forall|r: int, c: int| 0 <= r < e0.m && 0 <= c < e0.n ==> #[trigger] e1.second_half_out.val(r, c)
        == e0.second_half_out.val(r, c) ^ chunked_eval_z(key, 1, ey, e0.masked_y_bits@, nested_vals(cl),
        nested_fst(ct), block_vals(e0.x_gen@), cf, r as nat, c as nat)
    &&& forall|r: int, c: int| 0 <= r < e0.m && 0 <= c < e0.n ==> #[trigger] e1.second_half_out_ev.val(r, c)
        == e0.second_half_out_ev.val(r, c) ^ chunked_eval_z(key, 2, ey, e0.masked_y_bits@, nested_vals(cl),
        nested_snd(ct), e0.second_y_d_ev(), cf, r as nat, c as nat)
}

/// What the garbler's final fold with wide leaves does: under each key, entry
/// `(i, j)` of the first-half accumulator gains entry `(j, i)` of the second
/// and the garbler's `α·β` share under that key.
pub open spec fn gen_final_p2_step(g0: AuthTensorGen, g1: AuthTensorGen) -> bool {
    &&& g1.same_inputs(&g0)
    &&& forall|i: int, j: int| 0 <= i < g0.n && 0 <= j < g0.m ==> #[trigger] g1.first_half_out.val(i, j)
        == g0.first_half_out.val(i, j) ^ (g0.second_half_out.val(j, i) ^ g0.correlated_gen@[j * g0.n + i]@)
    &&& forall|i: int, j: int| 0 <= i < g0.n && 0 <= j < g0.m ==> #[trigger] g1.first_half_out_ev.val(i, j)
        == g0.first_half_out_ev.val(i, j) ^ (g0.second_half_out_ev.val(j, i) ^ g0.correlated_eval@[j * g0.n + i]@)
}

/// What the evaluator's final fold with wide leaves does (see
/// [`gen_final_p2_step`]).
pub open spec fn eval_final_p2_step(e0: AuthTensorEval, e1: AuthTensorEval) -> bool {
    &&& e1.same_inputs(&e0)
    &&& forall|i: int, j: int| 0 <= i < e0.n && 0 <= j < e0.m ==> #[trigger] e1.first_half_out.val(i, j)
        == e0.first_half_out.val(i, j) ^ (e0.second_half_out.val(j, i) ^ e0.correlated_gen@[j * e0.n + i]@)
    &&& forall|i: int, j: int| 0 <= i < e0.n && 0 <= j < e0.m ==> #[trigger] e1.first_half_out_ev.val(i, j)
        == e0.first_half_out_ev.val(i, j) ^ (e0.second_half_out_ev.val(j, i) ^ e0.correlated_eval@[j * e0.n + i]@)
}

/// The second protocol end to end: from a garbler and an evaluator ready for
/// the online phase with encoded inputs `x`, `y` and zero accumulators, both
/// halves with wide leaves, garbled and evaluated in turn, then both final
/// folds, leave shares that reconstruct `x_i·y_j·Δ_gb` in `first_half_out` and
/// `x_i·y_j·Δ_ev` in `first_half_out_ev` at every entry `(i, j)`.
pub proof fn lemma_protocol_2_output(
    g0: AuthTensorGen,
    e0: AuthTensorEval,
    g1: AuthTensorGen,
    e1: AuthTensorEval,
    g2: AuthTensorGen,
    e2: AuthTensorEval,
    g3: AuthTensorGen,
    e3: AuthTensorEval,
    cl1: Seq<Vec<Block>>,
    ct1: Seq<Vec<(Block, Block)>>,
    cl2: Seq<Vec<Block>>,
    ct2: Seq<Vec<(Block, Block)>>,
    ab: Seq<bool>,
    bb: Seq<bool>,
    xb: Seq<bool>,
    yb: Seq<bool>,
)
    requires
        pair_ready(g0, e0, ab, bb),
        g0.chunking_factor > 0,
        xb.len() == g0.n,
        yb.len() == g0.m,
        encoding_ok(xb, g0.delta_a@, g0.alpha_eval@, g0.alpha_gen@, e0.alpha_eval@, e0.alpha_gen@, g0.x_gen@, e0.x_gen@,
            g0.masked_x_gen@, e0.masked_x_gen@, g0.masked_x_bits@, e0.masked_x_bits@),
        encoding_ok(yb, g0.delta_a@, g0.beta_eval@, g0.beta_gen@, e0.beta_eval@, e0.beta_gen@, g0.y_gen@, e0.y_gen@,
            g0.masked_y_gen@, e0.masked_y_gen@, g0.masked_y_bits@, e0.masked_y_bits@),
        g0.outs_ok(),
        g0.outs_zero(),
        e0.outs_ok(),
        e0.outs_zero(),
        gen_first_half_p2_step(g0, g1, cl1, ct1),
        eval_first_half_p2_step(e0, e1, cl1, ct1),
        gen_second_half_p2_step(g1, g2, cl2, ct2),
        eval_second_half_p2_step(e1, e2, cl2, ct2),
        gen_final_p2_step(g2, g3),
        eval_final_p2_step(e2, e3),
    ensures
        forall|i: int, j: int| 0 <= i < g0.n && 0 <= j < g0.m ==> #[trigger] g3.first_half_out.val(i, j)
            ^ e3.first_half_out.val(i, j) == mul_bool_spec(g0.delta_a@, xb[i] && yb[j]),
        forall|i: int, j: int| 0 <= i < g0.n && 0 <= j < g0.m ==> #[trigger] g3.first_half_out_ev.val(i, j)
            ^ e3.first_half_out_ev.val(i, j) == mul_bool_spec(e0.delta_b@, xb[i] && yb[j]),
{
    assert forall|i: int, j: int|
        #![trigger g3.first_half_out.val(i, j)]
        #![trigger g3.first_half_out_ev.val(i, j)]
        0 <= i < g0.n && 0 <= j < g0.m implies {
        &&& g3.first_half_out.val(i, j) ^ e3.first_half_out.val(i, j) == mul_bool_spec(g0.delta_a@,
            xb[i] && yb[j])
        &&& g3.first_half_out_ev.val(i, j) ^ e3.first_half_out_ev.val(i, j) == mul_bool_spec(e0.delta_b@,
            xb[i] && yb[j])
    } by {
        let key = g0.cipher.key_spec();
        let cf = g0.chunking_factor as nat;
        let gx = block_vals(g0.masked_x_gen@);
        let gy = block_vals(g0.masked_y_gen@);
        let z1g = chunked_gen_z(key, 1, gx, g0.delta_a@, cf, i as nat, j as nat);
        let z2g = chunked_gen_z(key, 1, gy, g0.delta_a@, cf, j as nat, i as nat);
        let v1g = chunked_gen_z(key, 2, gx, g0.delta_a@, cf, i as nat, j as nat);
        let v2g = chunked_gen_z(key, 2, gy, g0.delta_a@, cf, j as nat, i as nat);
        let z1e = chunked_eval_z(key, 1, block_vals(e0.masked_x_gen@), e0.masked_x_bits@, nested_vals(cl1),
            nested_fst(ct1), block_vals(e0.beta_gen@), cf, i as nat, j as nat);
        let z2e = chunked_eval_z(key, 1, block_vals(e0.masked_y_gen@), e0.masked_y_bits@, nested_vals(cl2),
            nested_fst(ct2), block_vals(e0.x_gen@), cf, j as nat, i as nat);
        let v1e = chunked_eval_z(key, 2, block_vals(e0.masked_x_gen@), e0.masked_x_bits@, nested_vals(cl1),
            nested_snd(ct1), block_vals(e0.beta_eval@), cf, i as nat, j as nat);
        let v2e = chunked_eval_z(key, 2, block_vals(e0.masked_y_gen@), e0.masked_y_bits@, nested_vals(cl2),
            nested_snd(ct2), e0.second_y_d_ev(), cf, j as nat, i as nat);
        lemma_xor_zero(z1g);
        lemma_xor_zero(z2g);
        lemma_xor_zero(v1g);
        lemma_xor_zero(v2g);
        lemma_xor_zero(z1e);
        lemma_xor_zero(z2e);
        lemma_xor_zero(v1e);
        lemma_xor_zero(v2e);
        assert(g0.first_half_out.val(i, j) == 0);
        assert(g0.second_half_out.val(j, i) == 0);
        assert(g0.first_half_out_ev.val(i, j) == 0);
        assert(g0.second_half_out_ev.val(j, i) == 0);
        assert(e0.first_half_out.val(i, j) == 0);
        assert(e0.second_half_out.val(j, i) == 0);
        assert(e0.first_half_out_ev.val(i, j) == 0);
        assert(e0.second_half_out_ev.val(j, i) == 0);
        assert(g1.first_half_out.val(i, j) == z1g);
        assert(g1.first_half_out_ev.val(i, j) == v1g);
        assert(g2.second_half_out.val(j, i) == z2g);
        assert(g2.second_half_out_ev.val(j, i) == v2g);
        assert(e1.first_half_out.val(i, j) == z1e);
        assert(e1.first_half_out_ev.val(i, j) == v1e);
        assert(e2.second_half_out.val(j, i) == z2e);
        assert(e2.second_half_out_ev.val(j, i) == v2e);
        assert(g3.first_half_out.val(i, j) == gen_output_share(g0, 1, i, j));
        assert(e3.first_half_out.val(i, j) == eval_output_share(g0, e0, 1, i, j));
        assert(g3.first_half_out_ev.val(i, j) == gen_output_share_ev(g0, i, j));
        assert(e3.first_half_out_ev.val(i, j) == eval_output_share_ev(g0, e0, i, j));
        lemma_gate_output(g0, e0, ab, bb, xb, yb, 1, i, j);
        lemma_gate_output_ev(g0, e0, ab, bb, xb, yb, i, j);
    }
}

/// A garbler set up from its preprocessing output: dimensions, the fixed-key
/// hasher, `Δ_gb`, its Block-form components, and zero accumulators of the
/// gate's shapes.
pub open spec fn gen_from_fpre(fg: TensorFpreGen, g: AuthTensorGen) -> bool {
    &&& g.n == fg.n
    &&& g.m == fg.m
    &&& g.chunking_factor == fg.chunking_factor
    &&& g.cipher.key_spec() == FIXED_KEY
    &&& g.delta_a == fg.delta_gb
    &&& g.alpha_eval == fg.alpha_dev
    &&& g.alpha_gen == fg.alpha_dgb
    &&& g.beta_eval == fg.beta_dev
    &&& g.beta_gen == fg.beta_dgb
    &&& g.correlated_eval == fg.correlated_dev
    &&& g.correlated_gen == fg.correlated_dgb
    &&& g.gamma_eval == fg.gamma_dev
    &&& g.gamma_gen == fg.gamma_dgb
    &&& g.outs_ok()
    &&& g.outs_zero()
}

/// An evaluator set up from its preprocessing output (see [`gen_from_fpre`]).
pub open spec fn eval_from_fpre(fe: TensorFpreEval, e: AuthTensorEval) -> bool {
    &&& e.n == fe.n
    &&& e.m == fe.m
    &&& e.chunking_factor == fe.chunking_factor
    &&& e.cipher.key_spec() == FIXED_KEY
    &&& e.delta_b == fe.delta_ev
    &&& e.alpha_eval == fe.alpha_dev
    &&& e.alpha_gen == fe.alpha_dgb
    &&& e.beta_eval == fe.beta_dev
    &&& e.beta_gen == fe.beta_dgb
    &&& e.correlated_eval == fe.correlated_dev
    &&& e.correlated_gen == fe.correlated_dgb
    &&& e.gamma_eval == fe.gamma_dev
    &&& e.gamma_gen == fe.gamma_dgb
    &&& e.outs_ok()
    &&& e.outs_zero()
}

/// What input encoding does: the garbler `g0 → g1` and the evaluator
/// `e0 → e1` keep everything but their input fields, which encode the bits of
/// `x` against the α sharings and the bits of `y` against the β sharings.
pub open spec fn inputs_encoded(
    g0: AuthTensorGen,
    e0: AuthTensorEval,
    g1: AuthTensorGen,
    e1: AuthTensorEval,
    x: usize,
    y: usize,
) -> bool {
    &&& gen_rest_same(g1, g0)
    &&& eval_rest_same(e1, e0)
    &&& encoding_ok(input_bits(x, g0.alpha_gen@.len()), g0.delta_a@, g0.alpha_eval@, g0.alpha_gen@, e0.alpha_eval@,
        e0.alpha_gen@, g1.x_gen@, e1.x_gen@, g1.masked_x_gen@, e1.masked_x_gen@, g1.masked_x_bits@, e1.masked_x_bits@)
    &&& encoding_ok(input_bits(y, g0.beta_gen@.len()), g0.delta_a@, g0.beta_eval@, g0.beta_gen@, e0.beta_eval@,
        e0.beta_gen@, g1.y_gen@, e1.y_gen@, g1.masked_y_gen@, e1.masked_y_gen@, g1.masked_y_bits@, e1.masked_y_bits@)
}

/// Parties set up from a consistent preprocessing pair and encoded with
/// inputs `x`, `y` are ready for the online phase with the pair's α and β
/// bits as masks and the bits of `x` and `y` as inputs.
proof fn lemma_encoded_pair(
    fg: TensorFpreGen,
    fe: TensorFpreEval,
    g0: AuthTensorGen,
    e0: AuthTensorEval,
    g1: AuthTensorGen,
    e1: AuthTensorEval,
    x: usize,
    y: usize,
)
    requires
        fpre_valid(fg, fe),
        gen_from_fpre(fg, g0),
        eval_from_fpre(fe, e0),
        inputs_encoded(g0, e0, g1, e1, x, y),
    ensures
        pair_ready(g1, e1, alpha_bits(fg, fe), beta_bits(fg, fe)),
        g1.outs_ok(),
        g1.outs_zero(),
        e1.outs_ok(),
        e1.outs_zero(),
        g1.n == fg.n,
        g1.m == fg.m,
        g1.delta_a == fg.delta_gb,
        g1.chunking_factor == fg.chunking_factor,
        encoding_ok(input_bits(x, g1.n as nat), g1.delta_a@, g1.alpha_eval@, g1.alpha_gen@, e1.alpha_eval@,
            e1.alpha_gen@, g1.x_gen@, e1.x_gen@, g1.masked_x_gen@, e1.masked_x_gen@, g1.masked_x_bits@,
            e1.masked_x_bits@),
        encoding_ok(input_bits(y, g1.m as nat), g1.delta_a@, g1.beta_eval@, g1.beta_gen@, e1.beta_eval@,
            e1.beta_gen@, g1.y_gen@, e1.y_gen@, g1.masked_y_gen@, e1.masked_y_gen@, g1.masked_y_bits@,
            e1.masked_y_bits@),
        forall|j: int| 0 <= j < g1.m ==> #[trigger] e1.masked_y_bits@[j] == (input_bit(y, j) != beta_bits(fg, fe)[j]),
        forall|i: int| 0 <= i < g1.n ==> #[trigger] e1.masked_x_bits@[i] == (input_bit(x, i) != alpha_bits(fg, fe)[i]),
{
    assert(g0.cipher == e0.cipher);
    lemma_pair_from_fpre(fg, fe, g0, e0);
    let ab = alpha_bits(fg, fe);
    let bb = beta_bits(fg, fe);
    assert(pair_ready(g1, e1, ab, bb));
    assert(g1.outs_zero());
    assert(e1.outs_zero());
    let xb = input_bits(x, g1.n as nat);
    let yb = input_bits(y, g1.m as nat);
    assert(g0.alpha_gen@.len() == g1.n);
    assert(g0.beta_gen@.len() == g1.m);
    lemma_masked_labels(xb, ab, g1.delta_a@, g1.alpha_eval@, g1.alpha_gen@, e1.alpha_eval@, e1.alpha_gen@, g1.x_gen@,
        e1.x_gen@, g1.masked_x_gen@, e1.masked_x_gen@, g1.masked_x_bits@, e1.masked_x_bits@);
    lemma_masked_labels(yb, bb, g1.delta_a@, g1.beta_eval@, g1.beta_gen@, e1.beta_eval@, e1.beta_gen@, g1.y_gen@,
        e1.y_gen@, g1.masked_y_gen@, e1.masked_y_gen@, g1.masked_y_bits@, e1.masked_y_bits@);
}

/// The first protocol from the preprocessing output on: parties set up from a
/// consistent preprocessing pair, encoded with inputs `x` and `y`, then the
/// garbler's and the evaluator's first halves, second halves and final folds.
/// After the first halves the `first_half_out` shares reconstruct
/// `(x_i ⊕ α_i)·β_j·Δ_gb`, written with the evaluator's masked bits; after the
/// second halves the `second_half_out` shares reconstruct `(y_j ⊕ β_j)·x_i·Δ_gb`;
/// after the final folds the `first_half_out` shares reconstruct `x_i·y_j·Δ_gb`.
pub proof fn lemma_protocol_1_from_preprocessing(
    fg: TensorFpreGen,
    fe: TensorFpreEval,
    g0: AuthTensorGen,
    e0: AuthTensorEval,
    g1: AuthTensorGen,
    e1: AuthTensorEval,
    g2: AuthTensorGen,
    e2: AuthTensorEval,
    g3: AuthTensorGen,
    e3: AuthTensorEval,
    g4: AuthTensorGen,
    e4: AuthTensorEval,
    cl1: Seq<Vec<Block>>,
    ct1: Seq<Vec<Block>>,
    cl2: Seq<Vec<Block>>,
    ct2: Seq<Vec<Block>>,
    x: usize,
    y: usize,
)
    requires
        fpre_valid(fg, fe),
        fg.chunking_factor > 0,
        gen_from_fpre(fg, g0),
        eval_from_fpre(fe, e0),
        inputs_encoded(g0, e0, g1, e1, x, y),
        gen_first_half_step(g1, g2, cl1, ct1),
        eval_first_half_step(e1, e2, cl1, ct1),
        gen_second_half_step(g2, g3, cl2, ct2),
        eval_second_half_step(e2, e3, cl2, ct2),
        gen_final_step(g3, g4),
        eval_final_step(e3, e4),
    ensures
        forall|i: int, j: int| 0 <= i < fg.n && 0 <= j < fg.m ==> #[trigger] g2.first_half_out.val(i, j)
            ^ e2.first_half_out.val(i, j) == mul_bool_spec(fg.delta_gb@, e1.masked_x_bits@[i] && (input_bit(y, j)
            != e1.masked_y_bits@[j])),
        forall|i: int, j: int| 0 <= i < fg.n && 0 <= j < fg.m ==> #[trigger] g3.second_half_out.val(j, i)
            ^ e3.second_half_out.val(j, i) == mul_bool_spec(fg.delta_gb@, e1.masked_y_bits@[j] && input_bit(x, i)),
        e3.first_half_out == e2.first_half_out,
        forall|i: int, j: int| 0 <= i < fg.n && 0 <= j < fg.m ==> #[trigger] g4.first_half_out.val(i, j)
            ^ e4.first_half_out.val(i, j) == mul_bool_spec(fg.delta_gb@, input_bit(x, i) && input_bit(y, j)),
{
    lemma_encoded_pair(fg, fe, g0, e0, g1, e1, x, y);
    let ab = alpha_bits(fg, fe);
    let bb = beta_bits(fg, fe);
    let xb = input_bits(x, g1.n as nat);
    let yb = input_bits(y, g1.m as nat);
    lemma_protocol_1_output(g1, e1, g2, e2, g3, e3, g4, e4, cl1, ct1, cl2, ct2, ab, bb, xb, yb);
    assert forall|i: int, j: int|
        #![trigger g2.first_half_out.val(i, j)]
        #![trigger g3.second_half_out.val(j, i)]
        #![trigger g4.first_half_out.val(i, j)]
        0 <= i < fg.n && 0 <= j < fg.m implies {
        &&& g2.first_half_out.val(i, j) ^ e2.first_half_out.val(i, j) == mul_bool_spec(fg.delta_gb@,
            e1.masked_x_bits@[i] && (input_bit(y, j) != e1.masked_y_bits@[j]))
        &&& g3.second_half_out.val(j, i) ^ e3.second_half_out.val(j, i) == mul_bool_spec(fg.delta_gb@,
            e1.masked_y_bits@[j] && input_bit(x, i))
        &&& g4.first_half_out.val(i, j) ^ e4.first_half_out.val(i, j) == mul_bool_spec(fg.delta_gb@, input_bit(x, i)
            && input_bit(y, j))
    } by {
        assert(e1.masked_y_bits@[j] == (input_bit(y, j) != bb[j]));
        assert(xb[i] == input_bit(x, i));
        assert(yb[j] == input_bit(y, j));
    }
}

/// The second protocol from the preprocessing output on: parties set up from
/// a consistent preprocessing pair, encoded with inputs `x` and `y`, then both
/// halves with wide leaves garbled and evaluated in turn and both final folds.
/// The `first_half_out` shares reconstruct `x_i·y_j·Δ_gb` and the
/// `first_half_out_ev` shares `x_i·y_j·Δ_ev` at every entry `(i, j)`.
pub proof fn lemma_protocol_2_from_preprocessing(
    fg: TensorFpreGen,
    fe: TensorFpreEval,
    g0: AuthTensorGen,
    e0: AuthTensorEval,
    g1: AuthTensorGen,
    e1: AuthTensorEval,
    g2: AuthTensorGen,
    e2: AuthTensorEval,
    g3: AuthTensorGen,
    e3: AuthTensorEval,
    g4: AuthTensorGen,
    e4: AuthTensorEval,
    cl1: Seq<Vec<Block>>,
    ct1: Seq<Vec<(Block, Block)>>,
    cl2: Seq<Vec<Block>>,
    ct2: Seq<Vec<(Block, Block)>>,
    x: usize,
    y: usize,
)
    requires
        fpre_valid(fg, fe),
        fg.chunking_factor > 0,
        gen_from_fpre(fg, g0),
        eval_from_fpre(fe, e0),
        inputs_encoded(g0, e0, g1, e1, x, y),
        gen_first_half_p2_step(g1, g2, cl1, ct1),
        eval_first_half_p2_step(e1, e2, cl1, ct1),
        gen_second_half_p2_step(g2, g3, cl2, ct2),
        eval_second_half_p2_step(e2, e3, cl2, ct2),
        gen_final_p2_step(g3, g4),
        eval_final_p2_step(e3, e4),
    ensures
        forall|i: int, j: int| 0 <= i < fg.n && 0 <= j < fg.m ==> #[trigger] g4.first_half_out.val(i, j)
            ^ e4.first_half_out.val(i, j) == mul_bool_spec(fg.delta_gb@, input_bit(x, i) && input_bit(y, j)),
        forall|i: int, j: int| 0 <= i < fg.n && 0 <= j < fg.m ==> #[trigger] g4.first_half_out_ev.val(i, j)
            ^ e4.first_half_out_ev.val(i, j) == mul_bool_spec(fe.delta_ev@, input_bit(x, i) && input_bit(y, j)),
{
    lemma_encoded_pair(fg, fe, g0, e0, g1, e1, x, y);
    let ab = alpha_bits(fg, fe);
    let bb = beta_bits(fg, fe);
    let xb = input_bits(x, g1.n as nat);
    let yb = input_bits(y, g1.m as nat);
    lemma_protocol_2_output(g1, e1, g2, e2, g3, e3, g4, e4, cl1, ct1, cl2, ct2, ab, bb, xb, yb);
    assert forall|i: int, j: int|
        #![trigger g4.first_half_out.val(i, j)]
        #![trigger g4.first_half_out_ev.val(i, j)]
        0 <= i < fg.n && 0 <= j < fg.m implies {
        &&& g4.first_half_out.val(i, j) ^ e4.first_half_out.val(i, j) == mul_bool_spec(fg.delta_gb@, input_bit(x, i)
            && input_bit(y, j))
        &&& g4.first_half_out_ev.val(i, j) ^ e4.first_half_out_ev.val(i, j) == mul_bool_spec(fe.delta_ev@,
            input_bit(x, i) && input_bit(y, j))
    } by {
        assert(xb[i] == input_bit(x, i));
        assert(yb[j] == input_bit(y, j));
    }
}

/// Each party's own bit of a lowered authenticated bit, read from its two
/// Block-form components, is its share's value.
proof fn lemma_own_bits_lowered(
    g: Seq<crate::sharing::AuthBitShare>,
    e: Seq<crate::sharing::AuthBitShare>,
    g_dev: Seq<Block>,
    g_dgb: Seq<Block>,
    e_dev: Seq<Block>,
    e_dgb: Seq<Block>,
    len: nat,
    dgb: u128,
    dev: u128,
)
    requires
        crate::preprocessing::auth_pairs_ok(g, e, len, dgb, dev),
        lowered_ok(g, e, g_dev, g_dgb, e_dev, e_dgb, dgb, dev),
        lsb_of(dgb),
        !lsb_of(dev),
    ensures
        forall|k: int| 0 <= k < len ==> #[trigger] own_bit(g_dev[k], g_dgb[k]) == g[k].value,
        forall|k: int| 0 <= k < len ==> #[trigger] own_bit(e_dev[k], e_dgb[k]) == e[k].value,
{
    lemma_lowered_lens(g, e, g_dev, g_dgb, e_dev, e_dgb, dgb, dev);
    assert forall|k: int| 0 <= k < len implies #[trigger] own_bit(g_dev[k], g_dgb[k]) == g[k].value && own_bit(
        e_dev[k],
        e_dgb[k],
    ) == e[k].value by {
        assert(cross_valid(g[k], e[k], dgb, dev));
        assert(block_vals(g_dev)[k] == mac_blocks(g)[k]);
        assert(block_vals(g_dgb)[k] == key_blocks(g, dgb)[k]);
        assert(block_vals(e_dev)[k] == key_blocks(e, dev)[k]);
        assert(block_vals(e_dgb)[k] == mac_blocks(e)[k]);
        lemma_own_bits(g[k], e[k], dgb, dev);
    }
    assert forall|k: int| 0 <= k < len implies #[trigger] own_bit(e_dev[k], e_dgb[k]) == e[k].value by {
        assert(own_bit(g_dev[k], g_dgb[k]) == g[k].value);
    }
}

/// Parties set up from a preprocessing pair with valid α, β, `α·β` and γ:
/// they hold sharings of the α, β and `α·β` bits under both keys (with the
/// correlated bit of entry `(i, j)` being `α_i·β_j`) and of the γ bits under
/// both keys, and each party's own bit of every authenticated bit, read from
/// its two components, is the value of its share.
pub proof fn lemma_parties_from_preprocessing(
    fg: TensorFpreGen,
    fe: TensorFpreEval,
    g: AuthTensorGen,
    e: AuthTensorEval,
)
    requires
        fpre_valid(fg, fe),
        gamma_valid(fg, fe),
        gen_from_fpre(fg, g),
        eval_from_fpre(fe, e),
    ensures
        pair_ready(g, e, alpha_bits(fg, fe), beta_bits(fg, fe)),
        shares_bits(g.gamma_gen@, e.gamma_gen@, gamma_bits(fg, fe), g.delta_a@),
        shares_bits(g.gamma_eval@, e.gamma_eval@, gamma_bits(fg, fe), e.delta_b@),
        forall|k: int| 0 <= k < fg.n ==> #[trigger] own_bit(g.alpha_eval@[k], g.alpha_gen@[k])
            == fg.alpha_auth_bit_shares@[k].value && own_bit(e.alpha_eval@[k], e.alpha_gen@[k])
            == fe.alpha_auth_bit_shares@[k].value,
        forall|k: int| 0 <= k < fg.m ==> #[trigger] own_bit(g.beta_eval@[k], g.beta_gen@[k])
            == fg.beta_auth_bit_shares@[k].value && own_bit(e.beta_eval@[k], e.beta_gen@[k])
            == fe.beta_auth_bit_shares@[k].value,
        forall|k: int| 0 <= k < fg.n * fg.m ==> #[trigger] own_bit(g.correlated_eval@[k], g.correlated_gen@[k])
            == fg.correlated_auth_bit_shares@[k].value && own_bit(e.correlated_eval@[k], e.correlated_gen@[k])
            == fe.correlated_auth_bit_shares@[k].value,
        forall|k: int| 0 <= k < fg.n * fg.m ==> #[trigger] own_bit(g.gamma_eval@[k], g.gamma_gen@[k])
            == fg.gamma_auth_bit_shares@[k].value && own_bit(e.gamma_eval@[k], e.gamma_gen@[k])
            == fe.gamma_auth_bit_shares@[k].value,
{
    assert(g.cipher == e.cipher);
    lemma_pair_from_fpre(fg, fe, g, e);
    lemma_gamma_from_fpre(fg, fe, g, e);
    let dgb = fg.delta_gb@;
    let dev = fe.delta_ev@;
    lemma_own_bits_lowered(fg.alpha_auth_bit_shares@, fe.alpha_auth_bit_shares@, fg.alpha_dev@, fg.alpha_dgb@,
        fe.alpha_dev@, fe.alpha_dgb@, fg.n as nat, dgb, dev);
    lemma_own_bits_lowered(fg.beta_auth_bit_shares@, fe.beta_auth_bit_shares@, fg.beta_dev@, fg.beta_dgb@,
        fe.beta_dev@, fe.beta_dgb@, fg.m as nat, dgb, dev);
    lemma_own_bits_lowered(fg.correlated_auth_bit_shares@, fe.correlated_auth_bit_shares@, fg.correlated_dev@,
        fg.correlated_dgb@, fe.correlated_dev@, fe.correlated_dgb@, (fg.n * fg.m) as nat, dgb, dev);
    lemma_own_bits_lowered(fg.gamma_auth_bit_shares@, fe.gamma_auth_bit_shares@, fg.gamma_dev@, fg.gamma_dgb@,
        fe.gamma_dev@, fe.gamma_dgb@, (fg.n * fg.m) as nat, dgb, dev);
}

} // verus!
