//! The leaky tensor-triple protocol: from correlated OTs, two runs of the
//! tensor macro and a masked reveal, both parties obtain authenticated shares
//! of random `x` (n bits), `y` (m bits) and `Z = x ⊗ y`.

use vstd::prelude::*;
use crate::block::{Block, lsb_of, mul_bool_spec, group_xor, lemma_mul_bool_xor, lemma_lsb_mul_bool, lemma_xor_zero};
use crate::delta::Delta;
use crate::keys::{Key, auth_spec};
use crate::macs::Mac;
use crate::matrix::BlockMatrix;
use crate::sharing::{AuthBitShare, cross_valid, share_xor};
use crate::bcot::{IdealBCot, batch_ok};
use crate::aes::FIXED_KEY;
use crate::random::{chacha_from_seed, chacha_next_bool};
use crate::tensor_macro::{
    chunked_tensor_garbler, chunked_tensor_evaluator, lemma_chunked_tensor_macro, key_vals, mac_vals, column_vals,
};
use crate::tensor_ops::{chunked_gen_z, chunked_eval_z, chunk_levels_spec, chunk_cts_spec};
use crate::preprocessing::{auth_pairs_ok, auth_pairs_valid, keys_clear, full_bit_at, preprocessing_params_ok};
use crate::xor_sum::block_vals;
use crate::feq;
use rand_chacha::ChaCha12Rng;

verus! {

broadcast use group_xor;

/// One leaky tensor triple: both parties' shares of `x` (n), `y` (m) and
/// `Z` (n·m, column-major: entry `(i, j)` at `j·n + i`), and the two global keys.
#[derive(Clone)]
pub struct LeakyTriple {
    pub n: usize,
    pub m: usize,
    pub gb_x_shares: Vec<AuthBitShare>,
    pub gb_y_shares: Vec<AuthBitShare>,
    pub gb_z_shares: Vec<AuthBitShare>,
    pub ev_x_shares: Vec<AuthBitShare>,
    pub ev_y_shares: Vec<AuthBitShare>,
    pub ev_z_shares: Vec<AuthBitShare>,
    pub delta_gb: Delta,
    pub delta_ev: Delta,
}

/// A well-formed triple: cross-party authenticated `x`, `y`, `Z` under the
/// triple's keys, with `Z[j·n + i] = x_i · y_j`.
pub open spec fn leaky_triple_ok(t: LeakyTriple) -> bool {
    let n = t.n as nat;
    let m = t.m as nat;
    let dgb = t.delta_gb@;
    let dev = t.delta_ev@;
    &&& auth_pairs_ok(t.gb_x_shares@, t.ev_x_shares@, n, dgb, dev)
    &&& auth_pairs_ok(t.gb_y_shares@, t.ev_y_shares@, m, dgb, dev)
    &&& auth_pairs_ok(t.gb_z_shares@, t.ev_z_shares@, n * m, dgb, dev)
    &&& forall|i: int, j: int| 0 <= i < n && 0 <= j < m ==>
        #[trigger] full_bit_at(t.gb_z_shares@, t.ev_z_shares@, j * n + i)
            == (full_bit_at(t.gb_x_shares@, t.ev_x_shares@, i) && full_bit_at(t.gb_y_shares@, t.ev_y_shares@, j))
}

/// [`leaky_triple_ok`] without the demand on the keys' pointer bits: the
/// lengths, cross-party authenticated `x`, `y`, `Z`, and `Z[j·n + i] = x_i · y_j`.
pub open spec fn leaky_triple_valid(t: LeakyTriple) -> bool {
    let n = t.n as nat;
    let m = t.m as nat;
    let dgb = t.delta_gb@;
    let dev = t.delta_ev@;
    &&& auth_pairs_valid(t.gb_x_shares@, t.ev_x_shares@, n, dgb, dev)
    &&& auth_pairs_valid(t.gb_y_shares@, t.ev_y_shares@, m, dgb, dev)
    &&& auth_pairs_valid(t.gb_z_shares@, t.ev_z_shares@, n * m, dgb, dev)
    &&& forall|i: int, j: int| 0 <= i < n && 0 <= j < m ==>
        #[trigger] full_bit_at(t.gb_z_shares@, t.ev_z_shares@, j * n + i)
            == (full_bit_at(t.gb_x_shares@, t.ev_x_shares@, i) && full_bit_at(t.gb_y_shares@, t.ev_y_shares@, j))
}

/// Every key of both parties' `x`, `y` and `Z` shares has its pointer bit clear.
pub open spec fn triple_keys_clear(t: LeakyTriple) -> bool {
    &&& keys_clear(t.gb_x_shares@)
    &&& keys_clear(t.ev_x_shares@)
    &&& keys_clear(t.gb_y_shares@)
    &&& keys_clear(t.ev_y_shares@)
    &&& keys_clear(t.gb_z_shares@)
    &&& keys_clear(t.ev_z_shares@)
}

/// The leaky-triple generator for `n × m` triples: its own bCOT and generator.
pub struct LeakyTensorPre {
    pub n: usize,
    pub m: usize,
    pub chunking_factor: usize,
    pub bcot: IdealBCot,
    pub rng: ChaCha12Rng,
}

/// A party's correction block of one shared bit: `b·Δ ⊕ key ⊕ mac`.
pub open spec fn corr_spec(s: AuthBitShare, delta: u128) -> u128 {
    (mul_bool_spec(delta, s.value) ^ s.key@) ^ s.mac@
}

/// `len` fresh random bits.
fn random_bits(rng: &mut ChaCha12Rng, len: usize) -> (r: Vec<bool>)
    ensures
        r@.len() == len,
{
    let mut r: Vec<bool> = Vec::with_capacity(len);
    let mut i: usize = 0;
    while i < len
        invariant
            i <= len,
            r@.len() == i,
        decreases len - i,
    {
        r.push(chacha_next_bool(rng));
        i = i + 1;
    }
    r
}

/// Shares `(keys[i], macs[i], bits[i])`.
fn pair_shares(keys: &[Key], macs: &[Mac], bits: &[bool]) -> (r: Vec<AuthBitShare>)
    requires
        keys@.len() == bits@.len(),
        macs@.len() == bits@.len(),
    ensures
        r@.len() == bits@.len(),
        forall|i: int| 0 <= i < bits@.len() ==> (#[trigger] r@[i]) == (AuthBitShare {
            key: keys@[i],
            mac: macs@[i],
            value: bits@[i],
        }),
{
    let mut r: Vec<AuthBitShare> = Vec::with_capacity(bits.len());
    let mut i: usize = 0;
    while i < bits.len()
        invariant
            i <= bits@.len(),
            keys@.len() == bits@.len(),
            macs@.len() == bits@.len(),
            r@.len() == i,
            forall|k: int| 0 <= k < i ==> (#[trigger] r@[k]) == (AuthBitShare {
                key: keys@[k],
                mac: macs@[k],
                value: bits@[k],
            }),
        decreases bits@.len() - i,
    {
        r.push(AuthBitShare { key: keys[i], mac: macs[i], value: bits[i] });
        i = i + 1;
    }
    r
}

/// The correction blocks `b·Δ ⊕ key ⊕ mac` of a party's shares.
fn correction_blocks(shares: &[AuthBitShare], delta: &Delta) -> (r: Vec<Block>)
    ensures
        r@.len() == shares@.len(),
        forall|k: int| 0 <= k < shares@.len() ==> (#[trigger] r@[k])@ == corr_spec(shares@[k], delta@),
{
    let mut r: Vec<Block> = Vec::with_capacity(shares.len());
    let mut k: usize = 0;
    while k < shares.len()
        invariant
            k <= shares@.len(),
            r@.len() == k,
            forall|t: int| 0 <= t < k ==> (#[trigger] r@[t])@ == corr_spec(shares@[t], delta@),
        decreases shares@.len() - k,
    {
        let s = shares[k];
        let term = delta.mul_bool(s.value);
        r.push(term ^ *s.key.as_block() ^ *s.mac.as_block());
        k = k + 1;
    }
    r
}

/// The two parties' correction blocks of a cross-party bit XOR to
/// `b·(Δ_gb ⊕ Δ_ev)`.
proof fn lemma_corr_pair(g: AuthBitShare, e: AuthBitShare, da: u128, db: u128)
    requires
        cross_valid(g, e, da, db),
    ensures
        corr_spec(g, da) ^ corr_spec(e, db) == mul_bool_spec(da ^ db, g.value != e.value),
{
    let p = mul_bool_spec(da, g.value);
    let q = mul_bool_spec(db, g.value);
    let u = mul_bool_spec(db, e.value);
    let v = mul_bool_spec(da, e.value);
    let gk = g.key@;
    let ek = e.key@;
    assert(((p ^ gk) ^ (ek ^ q)) ^ ((u ^ ek) ^ (gk ^ v)) == (p ^ v) ^ (q ^ u)) by (bit_vector);
    lemma_mul_bool_xor(da, g.value, e.value);
    lemma_mul_bool_xor(db, g.value, e.value);
    lemma_mul_bool_sum(da, db, g.value != e.value);
}

/// `b·Δ1 ⊕ b·Δ2 = b·(Δ1 ⊕ Δ2)`.
proof fn lemma_mul_bool_sum(d1: u128, d2: u128, b: bool)
    ensures
        mul_bool_spec(d1, b) ^ mul_bool_spec(d2, b) == mul_bool_spec(d1 ^ d2, b),
{
    lemma_xor_zero(0);
}

/// One entry of the masked reveal: the revealed bit is `x·y ⊕ r`, and the two
/// parties' check values `S_1 ⊕ d·Δ_gb` and `S_2 ⊕ d·Δ_ev` agree.
proof fn lemma_leaky_entry(
    zg1: u128,
    e1: u128,
    zg2: u128,
    e2: u128,
    car: u128,
    cbr: u128,
    da: u128,
    db: u128,
    cy: u128,
    xa: bool,
    xb: bool,
    y: bool,
    r: bool,
    s1: u128,
    s2: u128,
    d: bool,
)
    requires
        cy == mul_bool_spec(da ^ db, y),
        zg1 ^ e1 == mul_bool_spec(cy, xb),
        zg2 ^ e2 == mul_bool_spec(cy, xa),
        car ^ cbr == mul_bool_spec(da ^ db, r),
        lsb_of(da ^ db),
        s1 == (zg1 ^ e2) ^ car,
        s2 == (zg2 ^ e1) ^ cbr,
        d == (lsb_of(s1) != lsb_of(s2)),
    ensures
        d == (((xa != xb) && y) != r),
        s1 ^ mul_bool_spec(da, d) == s2 ^ mul_bool_spec(db, d),
{
    let dd = da ^ db;
    let a1 = zg1 ^ e1;
    let a2 = zg2 ^ e2;
    let c = car ^ cbr;
    assert(s1 ^ s2 == (a1 ^ a2) ^ c) by (bit_vector)
        requires
            s1 == (zg1 ^ e2) ^ car,
            s2 == (zg2 ^ e1) ^ cbr,
            a1 == zg1 ^ e1,
            a2 == zg2 ^ e2,
            c == car ^ cbr,
    ;
    lemma_mul_bool_xor(cy, xb, xa);
    let w = (xb != xa) && y;
    assert(mul_bool_spec(cy, xb != xa) == mul_bool_spec(dd, w));
    lemma_mul_bool_xor(dd, w, r);
    lemma_lsb_mul_bool(dd, w != r);
    assert(d == (w != r));
    lemma_mul_bool_sum(da, db, d);
    let x1 = mul_bool_spec(da, d);
    let x2 = mul_bool_spec(db, d);
    assert(s1 ^ x1 == s2 ^ x2) by (bit_vector)
        requires
            s1 ^ s2 == x1 ^ x2,
    ;
}

/// The masked reveal over all `n·m` entries (flat, column-major): with
/// `S_1 = Z_gb1 ⊕ E_2 ⊕ C_A^R` and `S_2 = Z_gb2 ⊕ E_1 ⊕ C_B^R`, returns
/// `d = lsb(S_1) ⊕ lsb(S_2)`, `L_1 = S_1 ⊕ d·Δ_gb` and `L_2 = S_2 ⊕ d·Δ_ev`.
fn masked_reveal(
    z1: &[Block],
    e2: &[Block],
    car: &[Block],
    z2: &[Block],
    e1: &[Block],
    cbr: &[Block],
    delta_gb: &Delta,
    delta_ev: &Delta,
) -> (r: (Vec<bool>, Vec<Block>, Vec<Block>))
    requires
        e2@.len() == z1@.len(),
        car@.len() == z1@.len(),
        z2@.len() == z1@.len(),
        e1@.len() == z1@.len(),
        cbr@.len() == z1@.len(),
    ensures
        r.0@.len() == z1@.len(),
        r.1@.len() == z1@.len(),
        r.2@.len() == z1@.len(),
        forall|k: int| 0 <= k < z1@.len() ==> #[trigger] r.0@[k] == (lsb_of((z1@[k]@ ^ e2@[k]@) ^ car@[k]@) != lsb_of(
            (z2@[k]@ ^ e1@[k]@) ^ cbr@[k]@)),
        forall|k: int| 0 <= k < z1@.len() ==> (#[trigger] r.1@[k])@ == ((z1@[k]@ ^ e2@[k]@) ^ car@[k]@)
            ^ mul_bool_spec(delta_gb@, r.0@[k]),
        forall|k: int| 0 <= k < z1@.len() ==> (#[trigger] r.2@[k])@ == ((z2@[k]@ ^ e1@[k]@) ^ cbr@[k]@)
            ^ mul_bool_spec(delta_ev@, r.0@[k]),
{
    let len = z1.len();
    let mut d_bits: Vec<bool> = Vec::with_capacity(len);
    let mut l_1: Vec<Block> = Vec::with_capacity(len);
    let mut l_2: Vec<Block> = Vec::with_capacity(len);
    let mut k: usize = 0;
    while k < len
        invariant
            k <= len,
            len == z1@.len(),
            e2@.len() == len,
            car@.len() == len,
            z2@.len() == len,
            e1@.len() == len,
            cbr@.len() == len,
            d_bits@.len() == k,
            l_1@.len() == k,
            l_2@.len() == k,
            forall|t: int| 0 <= t < k ==> #[trigger] d_bits@[t] == (lsb_of((z1@[t]@ ^ e2@[t]@) ^ car@[t]@) != lsb_of(
                (z2@[t]@ ^ e1@[t]@) ^ cbr@[t]@)),
            forall|t: int| 0 <= t < k ==> (#[trigger] l_1@[t])@ == ((z1@[t]@ ^ e2@[t]@) ^ car@[t]@)
                ^ mul_bool_spec(delta_gb@, d_bits@[t]),
            forall|t: int| 0 <= t < k ==> (#[trigger] l_2@[t])@ == ((z2@[t]@ ^ e1@[t]@) ^ cbr@[t]@)
                ^ mul_bool_spec(delta_ev@, d_bits@[t]),
        decreases len - k,
    {
        let s_1 = z1[k] ^ e2[k] ^ car[k];
        let s_2 = z2[k] ^ e1[k] ^ cbr[k];
        let d = s_1.lsb() != s_2.lsb();
        d_bits.push(d);
        l_1.push(s_1 ^ delta_gb.mul_bool(d));
        l_2.push(s_2 ^ delta_ev.mul_bool(d));
        k = k + 1;
    }
    (d_bits, l_1, l_2)
}

/// The garbler's `Z` shares: `R_A ⊕ (d, d·Δ_ev)` per entry, with a zero key.
fn assemble_gb_z(gb_r: &[AuthBitShare], d_bits: &[bool], delta_ev: &Delta) -> (r: Vec<AuthBitShare>)
    requires
        d_bits@.len() == gb_r@.len(),
    ensures
        r@.len() == gb_r@.len(),
        forall|k: int| 0 <= k < gb_r@.len() ==> (#[trigger] r@[k]) == share_xor(gb_r@[k], AuthBitShare {
            key: Key(Block { v: 0 }),
            mac: Mac(Block { v: mul_bool_spec(delta_ev@, d_bits@[k]) }),
            value: d_bits@[k],
        }),
{
    let mut r: Vec<AuthBitShare> = Vec::with_capacity(gb_r.len());
    let mut k: usize = 0;
    while k < gb_r.len()
        invariant
            k <= gb_r@.len(),
            d_bits@.len() == gb_r@.len(),
            r@.len() == k,
            forall|t: int| 0 <= t < k ==> (#[trigger] r@[t]) == share_xor(gb_r@[t], AuthBitShare {
                key: Key(Block { v: 0 }),
                mac: Mac(Block { v: mul_bool_spec(delta_ev@, d_bits@[t]) }),
                value: d_bits@[t],
            }),
        decreases gb_r@.len() - k,
    {
        let gb_d = AuthBitShare { key: Key(Block { v: 0 }), mac: Mac::new(delta_ev.mul_bool(d_bits[k])), value: d_bits[k] };
        r.push(gb_r[k].add_share(&gb_d));
        k = k + 1;
    }
    r
}

/// A cross-party bit with a public bit `d` folded into the garbler's share
/// (zero key, MAC `d·Δ_ev`) stays authenticated and flips by `d`.
proof fn lemma_fold_public(g: AuthBitShare, e: AuthBitShare, d: bool, dgb: u128, dev: u128)
    requires
        cross_valid(g, e, dgb, dev),
        !lsb_of(g.key@),
    ensures
        cross_valid(share_xor(g, AuthBitShare {
            key: Key(Block { v: 0 }),
            mac: Mac(Block { v: mul_bool_spec(dev, d) }),
            value: d,
        }), e, dgb, dev),
        !lsb_of(share_xor(g, AuthBitShare {
            key: Key(Block { v: 0 }),
            mac: Mac(Block { v: mul_bool_spec(dev, d) }),
            value: d,
        }).key@),
{
    let ek = e.key@;
    lemma_xor_zero(g.key@);
    let a = mul_bool_spec(dev, g.value);
    let b = mul_bool_spec(dev, d);
    assert((ek ^ a) ^ b == ek ^ (a ^ b)) by (bit_vector);
    lemma_mul_bool_xor(dev, g.value, d);
}

impl LeakyTensorPre {
    /// A generator for `n × m` triples with its own generator seeded from
    /// `seed`, using `bcot` for the correlated OTs.
    pub fn new(seed: u64, n: usize, m: usize, chunking_factor: usize, bcot: IdealBCot) -> (r: LeakyTensorPre)
        requires
            chunking_factor > 0,
        ensures
            r.n == n,
            r.m == m,
            r.chunking_factor == chunking_factor,
            r.bcot.delta_a == bcot.delta_a,
            r.bcot.delta_b == bcot.delta_b,
    {
        LeakyTensorPre { n, m, chunking_factor, bcot, rng: chacha_from_seed(seed) }
    }

    /// Generates one leaky triple under `Δ_gb = bcot.delta_b` (the garbler `A`
    /// sends the OTs correlated under it) and `Δ_ev = bcot.delta_a`.
    pub fn generate(&mut self) -> (r: LeakyTriple)
        requires
            preprocessing_params_ok(old(self).n, old(self).m, old(self).chunking_factor),
            lsb_of(old(self).bcot.delta_b@),
            !lsb_of(old(self).bcot.delta_a@),
        ensures
            final(self).n == old(self).n,
            final(self).m == old(self).m,
            final(self).chunking_factor == old(self).chunking_factor,
            final(self).bcot.delta_a == old(self).bcot.delta_a,
            final(self).bcot.delta_b == old(self).bcot.delta_b,
            r.n == old(self).n,
            r.m == old(self).m,
            r.delta_gb == old(self).bcot.delta_b,
            r.delta_ev == old(self).bcot.delta_a,
            leaky_triple_ok(r),
    {
        let n = self.n;
        let m = self.m;
        let cf = self.chunking_factor;
        let nm = n * m;
        let delta_gb = self.bcot.delta_b;
        let delta_ev = self.bcot.delta_a;
        let ghost dgb = delta_gb@;
        let ghost dev = delta_ev@;

        let x_a_bits = random_bits(&mut self.rng, n);
        let x_b_bits = random_bits(&mut self.rng, n);
        let y_a_bits = random_bits(&mut self.rng, m);
        let y_b_bits = random_bits(&mut self.rng, m);
        let r_a_bits = random_bits(&mut self.rng, nm);
        let r_b_bits = random_bits(&mut self.rng, nm);

        // The garbler sends under Δ_gb (its keys, the evaluator's MACs); the
        // evaluator sends under Δ_ev.
        let cot_x_gb = self.bcot.transfer_a_to_b(x_b_bits.as_slice());
        let cot_x_ev = self.bcot.transfer_b_to_a(x_a_bits.as_slice());
        let cot_y_gb = self.bcot.transfer_a_to_b(y_b_bits.as_slice());
        let cot_y_ev = self.bcot.transfer_b_to_a(y_a_bits.as_slice());
        let cot_r_gb = self.bcot.transfer_a_to_b(r_b_bits.as_slice());
        let cot_r_ev = self.bcot.transfer_b_to_a(r_a_bits.as_slice());

        let gb_x_shares = pair_shares(cot_x_gb.sender_keys.as_slice(), cot_x_ev.receiver_macs.as_slice(),
            x_a_bits.as_slice());
        let ev_x_shares = pair_shares(cot_x_ev.sender_keys.as_slice(), cot_x_gb.receiver_macs.as_slice(),
            x_b_bits.as_slice());
        let gb_y_shares = pair_shares(cot_y_gb.sender_keys.as_slice(), cot_y_ev.receiver_macs.as_slice(),
            y_a_bits.as_slice());
        let ev_y_shares = pair_shares(cot_y_ev.sender_keys.as_slice(), cot_y_gb.receiver_macs.as_slice(),
            y_b_bits.as_slice());
        let gb_r_shares = pair_shares(cot_r_gb.sender_keys.as_slice(), cot_r_ev.receiver_macs.as_slice(),
            r_a_bits.as_slice());
        let ev_r_shares = pair_shares(cot_r_ev.sender_keys.as_slice(), cot_r_gb.receiver_macs.as_slice(),
            r_b_bits.as_slice());

        proof {
            lemma_pairs_from_cots(gb_x_shares@, ev_x_shares@, cot_x_gb, cot_x_ev, x_a_bits@, x_b_bits@, dgb, dev);
            lemma_pairs_from_cots(gb_y_shares@, ev_y_shares@, cot_y_gb, cot_y_ev, y_a_bits@, y_b_bits@, dgb, dev);
            lemma_pairs_from_cots(gb_r_shares@, ev_r_shares@, cot_r_gb, cot_r_ev, r_a_bits@, r_b_bits@, dgb, dev);
        }

        // C_A, C_B (per y bit) and C_A^R, C_B^R (per r bit).
        let c_a = correction_blocks(gb_y_shares.as_slice(), &delta_gb);
        let c_b = correction_blocks(ev_y_shares.as_slice(), &delta_ev);
        let c_a_r = correction_blocks(gb_r_shares.as_slice(), &delta_gb);
        let c_b_r = correction_blocks(ev_r_shares.as_slice(), &delta_ev);
        let t_a = BlockMatrix::from_column(c_a.as_slice());
        let t_b = BlockMatrix::from_column(c_b.as_slice());

        // First macro: the garbler garbles under Δ_gb, the evaluator evaluates
        // with its bits x_B. Second macro: the roles swap, under Δ_ev.
        let (z_gb1, g_1) = chunked_tensor_garbler(n, m, cf, delta_gb, cot_x_gb.sender_keys.as_slice(), &t_a);
        let e_1 = chunked_tensor_evaluator(n, m, cf, &g_1, cot_x_gb.receiver_macs.as_slice(), x_b_bits.as_slice(),
            &t_b);
        let (z_gb2, g_2) = chunked_tensor_garbler(n, m, cf, delta_ev, cot_x_ev.sender_keys.as_slice(), &t_b);
        let e_2 = chunked_tensor_evaluator(n, m, cf, &g_2, cot_x_ev.receiver_macs.as_slice(), x_a_bits.as_slice(),
            &t_a);

        let (d_bits, l_1v, l_2v) = masked_reveal(z_gb1.elements_slice(), e_2.elements_slice(), c_a_r.as_slice(),
            z_gb2.elements_slice(), e_1.elements_slice(), c_b_r.as_slice(), &delta_gb, &delta_ev);

        proof {
            assert forall|i: int, j: int| 0 <= i < n && 0 <= j < m implies {
                &&& #[trigger] d_bits@[j * n + i] == (((x_a_bits@[i] != x_b_bits@[i]) && (y_a_bits@[j]
                    != y_b_bits@[j])) != (r_a_bits@[j * n + i] != r_b_bits@[j * n + i]))
                &&& l_1v@[j * n + i]@ == l_2v@[j * n + i]@
            } by {
                self.lemma_entry_agrees(i, j, &cot_x_gb, &cot_x_ev, &x_a_bits, &x_b_bits, &y_a_bits, &y_b_bits,
                    &r_a_bits, &r_b_bits, &gb_y_shares, &ev_y_shares, &gb_r_shares, &ev_r_shares, &c_a, &c_b, &c_a_r,
                    &c_b_r, &t_a, &t_b, &z_gb1, &z_gb2, &e_1, &e_2, &g_1, &g_2, &d_bits, &l_1v, &l_2v, delta_gb,
                    delta_ev);
            }
        }

        let ghost l1s = l_1v@;
        let ghost l2s = l_2v@;
        let l_1 = BlockMatrix::from_elements(n, m, l_1v);
        let l_2 = BlockMatrix::from_elements(n, m, l_2v);
        proof {
            assert forall|i: int, j: int| 0 <= i < l_1.nrows() && 0 <= j < l_1.ncols() implies #[trigger] l_1.val(i, j)
                == l_2.val(i, j) by {
                assert(d_bits@[j * n + i] == (((x_a_bits@[i] != x_b_bits@[i]) && (y_a_bits@[j]
                    != y_b_bits@[j])) != (r_a_bits@[j * n + i] != r_b_bits@[j * n + i])));
                assert(l1s[j * n + i]@ == l2s[j * n + i]@);
                assert(l_1.nrows() == n);
                assert(l_1.val(i, j) == l1s[j * n + i]@);
                assert(l_2.val(i, j) == l2s[j * n + i]@);
            }
        }
        feq::check(&l_1, &l_2);

        let gb_z_shares = assemble_gb_z(gb_r_shares.as_slice(), d_bits.as_slice(), &delta_ev);
        let ev_z_shares = ev_r_shares;
        let r = LeakyTriple {
            n,
            m,
            gb_x_shares,
            gb_y_shares,
            gb_z_shares,
            ev_x_shares,
            ev_y_shares,
            ev_z_shares,
            delta_gb,
            delta_ev,
        };
        proof {
            assert forall|k: int| 0 <= k < n * m implies {
                &&& #[trigger] cross_valid(r.gb_z_shares@[k], r.ev_z_shares@[k], dgb, dev)
                &&& !lsb_of(r.gb_z_shares@[k].key@)
                &&& r.gb_z_shares@[k].value == (gb_r_shares@[k].value != d_bits@[k])
            } by {
                lemma_fold_public(gb_r_shares@[k], ev_r_shares@[k], d_bits@[k], dgb, dev);
            }
            assert forall|i: int, j: int| 0 <= i < n && 0 <= j < m implies #[trigger] full_bit_at(r.gb_z_shares@,
                r.ev_z_shares@, j * n + i) == (full_bit_at(r.gb_x_shares@, r.ev_x_shares@, i) && full_bit_at(
                r.gb_y_shares@, r.ev_y_shares@, j)) by {
                let k = j * n + i;
                assert(0 <= k < n * m) by (nonlinear_arith)
                    requires
                        0 <= i < n,
                        0 <= j < m,
                        k == j * n + i,
                ;
                assert(d_bits@[j * n + i] == d_bits@[k]);
                assert(r.gb_z_shares@[k].value == (gb_r_shares@[k].value != d_bits@[k]));
            }
        }
        r
    }

    /// Entry `(i, j)` of the masked reveal opens to `x_i·y_j ⊕ r_{ij}`, and the
    /// two check values agree there.
    proof fn lemma_entry_agrees(
        &self,
        i: int,
        j: int,
        cot_x_gb: &crate::bcot::BcotOutput,
        cot_x_ev: &crate::bcot::BcotOutput,
        x_a_bits: &Vec<bool>,
        x_b_bits: &Vec<bool>,
        y_a_bits: &Vec<bool>,
        y_b_bits: &Vec<bool>,
        r_a_bits: &Vec<bool>,
        r_b_bits: &Vec<bool>,
        gb_y_shares: &Vec<AuthBitShare>,
        ev_y_shares: &Vec<AuthBitShare>,
        gb_r_shares: &Vec<AuthBitShare>,
        ev_r_shares: &Vec<AuthBitShare>,
        c_a: &Vec<Block>,
        c_b: &Vec<Block>,
        c_a_r: &Vec<Block>,
        c_b_r: &Vec<Block>,
        t_a: &BlockMatrix,
        t_b: &BlockMatrix,
        z_gb1: &BlockMatrix,
        z_gb2: &BlockMatrix,
        e_1: &BlockMatrix,
        e_2: &BlockMatrix,
        g_1: &crate::tensor_macro::ChunkedTensorMacroCiphertexts,
        g_2: &crate::tensor_macro::ChunkedTensorMacroCiphertexts,
        d_bits: &Vec<bool>,
        l_1v: &Vec<Block>,
        l_2v: &Vec<Block>,
        delta_gb: Delta,
        delta_ev: Delta,
    )
        requires
            0 <= i < self.n,
            0 <= j < self.m,
            self.chunking_factor > 0,
            lsb_of(delta_gb@),
            !lsb_of(delta_ev@),
            batch_ok(*cot_x_gb, x_b_bits@, delta_gb@),
            batch_ok(*cot_x_ev, x_a_bits@, delta_ev@),
            x_a_bits@.len() == self.n,
            x_b_bits@.len() == self.n,
            y_a_bits@.len() == self.m,
            y_b_bits@.len() == self.m,
            gb_y_shares@.len() == self.m,
            ev_y_shares@.len() == self.m,
            gb_r_shares@.len() == self.n * self.m,
            ev_r_shares@.len() == self.n * self.m,
            forall|t: int| 0 <= t < self.m ==> #[trigger] cross_valid(gb_y_shares@[t], ev_y_shares@[t], delta_gb@,
                delta_ev@),
            forall|t: int| 0 <= t < self.m ==> #[trigger] gb_y_shares@[t].value == y_a_bits@[t],
            forall|t: int| 0 <= t < self.m ==> #[trigger] ev_y_shares@[t].value == y_b_bits@[t],
            forall|t: int| 0 <= t < self.n * self.m ==> #[trigger] cross_valid(gb_r_shares@[t], ev_r_shares@[t],
                delta_gb@, delta_ev@),
            forall|t: int| 0 <= t < self.n * self.m ==> #[trigger] gb_r_shares@[t].value == r_a_bits@[t],
            forall|t: int| 0 <= t < self.n * self.m ==> #[trigger] ev_r_shares@[t].value == r_b_bits@[t],
            c_a@.len() == self.m,
            c_b@.len() == self.m,
            forall|t: int| 0 <= t < self.m ==> (#[trigger] c_a@[t])@ == corr_spec(gb_y_shares@[t], delta_gb@),
            forall|t: int| 0 <= t < self.m ==> (#[trigger] c_b@[t])@ == corr_spec(ev_y_shares@[t], delta_ev@),
            c_a_r@.len() == self.n * self.m,
            c_b_r@.len() == self.n * self.m,
            forall|t: int| 0 <= t < self.n * self.m ==> (#[trigger] c_a_r@[t])@ == corr_spec(gb_r_shares@[t],
                delta_gb@),
            forall|t: int| 0 <= t < self.n * self.m ==> (#[trigger] c_b_r@[t])@ == corr_spec(ev_r_shares@[t],
                delta_ev@),
            t_a.wf(),
            t_b.wf(),
            t_a.elems() == c_a@,
            t_b.elems() == c_b@,
            z_gb1.wf(),
            z_gb1.nrows() == self.n,
            z_gb1.ncols() == self.m,
            z_gb2.wf(),
            z_gb2.nrows() == self.n,
            z_gb2.ncols() == self.m,
            e_1.wf(),
            e_1.nrows() == self.n,
            e_1.ncols() == self.m,
            e_2.wf(),
            e_2.nrows() == self.n,
            e_2.ncols() == self.m,
            forall|ii: int, jj: int| 0 <= ii < self.n && 0 <= jj < self.m ==> #[trigger] z_gb1.val(ii, jj)
                == chunked_gen_z(FIXED_KEY, 0, key_vals(cot_x_gb.sender_keys@), delta_gb@,
                self.chunking_factor as nat, ii as nat, jj as nat),
            nested_vals_eq(g_1.level_cts@, chunk_levels_spec(FIXED_KEY, key_vals(cot_x_gb.sender_keys@), delta_gb@,
                self.chunking_factor as nat)),
            nested_vals_eq(g_1.leaf_cts@, chunk_cts_spec(FIXED_KEY, 0, key_vals(cot_x_gb.sender_keys@), delta_gb@,
                self.chunking_factor as nat, column_vals(*t_a))),
            forall|ii: int, jj: int| 0 <= ii < self.n && 0 <= jj < self.m ==> #[trigger] e_1.val(ii, jj)
                == chunked_eval_z(FIXED_KEY, 0, mac_vals(cot_x_gb.receiver_macs@), x_b_bits@,
                crate::tensor_ops::nested_vals(g_1.level_cts@), crate::tensor_ops::nested_vals(g_1.leaf_cts@),
                column_vals(*t_b), self.chunking_factor as nat, ii as nat, jj as nat),
            forall|ii: int, jj: int| 0 <= ii < self.n && 0 <= jj < self.m ==> #[trigger] z_gb2.val(ii, jj)
                == chunked_gen_z(FIXED_KEY, 0, key_vals(cot_x_ev.sender_keys@), delta_ev@,
                self.chunking_factor as nat, ii as nat, jj as nat),
            nested_vals_eq(g_2.level_cts@, chunk_levels_spec(FIXED_KEY, key_vals(cot_x_ev.sender_keys@), delta_ev@,
                self.chunking_factor as nat)),
            nested_vals_eq(g_2.leaf_cts@, chunk_cts_spec(FIXED_KEY, 0, key_vals(cot_x_ev.sender_keys@), delta_ev@,
                self.chunking_factor as nat, column_vals(*t_b))),
            forall|ii: int, jj: int| 0 <= ii < self.n && 0 <= jj < self.m ==> #[trigger] e_2.val(ii, jj)
                == chunked_eval_z(FIXED_KEY, 0, mac_vals(cot_x_ev.receiver_macs@), x_a_bits@,
                crate::tensor_ops::nested_vals(g_2.level_cts@), crate::tensor_ops::nested_vals(g_2.leaf_cts@),
                column_vals(*t_a), self.chunking_factor as nat, ii as nat, jj as nat),
            d_bits@.len() == self.n * self.m,
            l_1v@.len() == self.n * self.m,
            l_2v@.len() == self.n * self.m,
            forall|k: int| 0 <= k < self.n * self.m ==> #[trigger] d_bits@[k] == (lsb_of(
                (z_gb1.elems()[k]@ ^ e_2.elems()[k]@) ^ c_a_r@[k]@) != lsb_of((z_gb2.elems()[k]@ ^ e_1.elems()[k]@)
                ^ c_b_r@[k]@)),
            forall|k: int| 0 <= k < self.n * self.m ==> (#[trigger] l_1v@[k])@ == ((z_gb1.elems()[k]@
                ^ e_2.elems()[k]@) ^ c_a_r@[k]@) ^ mul_bool_spec(delta_gb@, d_bits@[k]),
            forall|k: int| 0 <= k < self.n * self.m ==> (#[trigger] l_2v@[k])@ == ((z_gb2.elems()[k]@
                ^ e_1.elems()[k]@) ^ c_b_r@[k]@) ^ mul_bool_spec(delta_ev@, d_bits@[k]),
        ensures
            d_bits@[j * self.n + i] == (((x_a_bits@[i] != x_b_bits@[i]) && (y_a_bits@[j] != y_b_bits@[j])) != (
                r_a_bits@[j * self.n + i] != r_b_bits@[j * self.n + i])),
            l_1v@[j * self.n + i]@ == l_2v@[j * self.n + i]@,
    {
        let n = self.n as int;
        let m = self.m as int;
        let cf = self.chunking_factor as nat;
        let da = delta_gb@;
        let db = delta_ev@;
        let k = j * n + i;
        assert(0 <= k < n * m) by (nonlinear_arith)
            requires
                0 <= i < n,
                0 <= j < m,
                k == j * n + i,
        ;
        let tg = column_vals(*t_a);
        let te = column_vals(*t_b);
        assert(tg[j] == c_a@[j]@);
        assert(te[j] == c_b@[j]@);
        // First macro: keys of the garbler, MACs of the evaluator on x_B.
        assert forall|t: int| 0 <= t < n implies (#[trigger] cot_x_gb.receiver_macs@[t])@
            == cot_x_gb.sender_keys@[t]@ ^ mul_bool_spec(da, x_b_bits@[t]) by {}
        lemma_chunked_tensor_macro(cot_x_gb.sender_keys@, cot_x_gb.receiver_macs@, x_b_bits@, da, cf, tg, te,
            i as nat, j as nat);
        assert forall|t: int| 0 <= t < n implies (#[trigger] cot_x_ev.receiver_macs@[t])@
            == cot_x_ev.sender_keys@[t]@ ^ mul_bool_spec(db, x_a_bits@[t]) by {}
        lemma_chunked_tensor_macro(cot_x_ev.sender_keys@, cot_x_ev.receiver_macs@, x_a_bits@, db, cf, te, tg,
            i as nat, j as nat);
        let zg1 = z_gb1.val(i, j);
        let e1 = e_1.val(i, j);
        let zg2 = z_gb2.val(i, j);
        let e2 = e_2.val(i, j);
        assert(z_gb1.elems()[k]@ == zg1);
        assert(z_gb2.elems()[k]@ == zg2);
        assert(e_1.elems()[k]@ == e1);
        assert(e_2.elems()[k]@ == e2);
        lemma_corr_pair(gb_y_shares@[j], ev_y_shares@[j], da, db);
        lemma_corr_pair(gb_r_shares@[k], ev_r_shares@[k], da, db);
        let cy = tg[j] ^ te[j];
        assert(te[j] ^ tg[j] == cy) by {
            crate::block::lemma_xor_laws(tg[j], te[j], 0);
        }
        crate::block::lemma_lsb_xor(da, db);
        lemma_leaky_entry(zg1, e1, zg2, e2, c_a_r@[k]@, c_b_r@[k]@, da, db, cy, x_a_bits@[i], x_b_bits@[i],
            y_a_bits@[j] != y_b_bits@[j], r_a_bits@[k] != r_b_bits@[k], (zg1 ^ e2) ^ c_a_r@[k]@,
            (zg2 ^ e1) ^ c_b_r@[k]@, d_bits@[k]);
    }
}

/// `v`'s values are `s`.
pub open spec fn nested_vals_eq(v: Seq<Vec<Block>>, s: Seq<Seq<u128>>) -> bool {
    crate::tensor_ops::nested_vals(v) == s
}

/// Shares assembled from two batches of opposite direction are cross-party
/// authenticated bits with clear key pointer bits.
proof fn lemma_pairs_from_cots(
    gb: Seq<AuthBitShare>,
    ev: Seq<AuthBitShare>,
    cot_gb: crate::bcot::BcotOutput,
    cot_ev: crate::bcot::BcotOutput,
    a_bits: Seq<bool>,
    b_bits: Seq<bool>,
    dgb: u128,
    dev: u128,
)
    requires
        batch_ok(cot_gb, b_bits, dgb),
        batch_ok(cot_ev, a_bits, dev),
        a_bits.len() == b_bits.len(),
        gb.len() == a_bits.len(),
        ev.len() == a_bits.len(),
        forall|i: int| 0 <= i < a_bits.len() ==> (#[trigger] gb[i]) == (AuthBitShare {
            key: cot_gb.sender_keys@[i],
            mac: cot_ev.receiver_macs@[i],
            value: a_bits[i],
        }),
        forall|i: int| 0 <= i < a_bits.len() ==> (#[trigger] ev[i]) == (AuthBitShare {
            key: cot_ev.sender_keys@[i],
            mac: cot_gb.receiver_macs@[i],
            value: b_bits[i],
        }),
    ensures
        auth_pairs_ok(gb, ev, a_bits.len(), dgb, dev),
        forall|i: int| 0 <= i < a_bits.len() ==> #[trigger] gb[i].value == a_bits[i],
        forall|i: int| 0 <= i < a_bits.len() ==> #[trigger] ev[i].value == b_bits[i],
{
    assert forall|k: int| 0 <= k < a_bits.len() implies #[trigger] cross_valid(gb[k], ev[k], dgb, dev) by {
        assert(cot_ev.receiver_macs@[k]@ == auth_spec(cot_ev.sender_keys@[k]@, a_bits[k], dev));
        assert(cot_gb.receiver_macs@[k]@ == auth_spec(cot_gb.sender_keys@[k]@, b_bits[k], dgb));
    }
    assert forall|k: int| 0 <= k < a_bits.len() implies !lsb_of((#[trigger] gb[k]).key@) by {
        assert(!lsb_of(cot_gb.sender_keys@[k]@));
    }
    assert forall|k: int| 0 <= k < a_bits.len() implies !lsb_of((#[trigger] ev[k]).key@) by {
        assert(!lsb_of(cot_ev.sender_keys@[k]@));
    }
}

} // verus!
