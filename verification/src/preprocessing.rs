//! The preprocessing exit boundary: both parties' authenticated bits, their
//! Block-form sharings, and the backends that produce them.

use vstd::prelude::*;
use crate::block::{Block, lsb_of, mul_bool_spec, group_xor, lemma_xor_laws, lemma_xor_zero, lemma_xor_self};
use crate::delta::Delta;
use crate::keys::auth_spec;
use crate::sharing::{AuthBitShare, AuthBit, cross_valid, build_share};
use crate::xor_sum::block_vals;
use crate::auth_tensor_fpre::{TensorFpre, gen_shares, eval_shares, auth_bit_ok};
use crate::random::{chacha_from_seed, chacha_next_bool};
use vstd::arithmetic::power2::pow2;
use crate::bcot::IdealBCot;
use crate::leaky_tensor_pre::{LeakyTensorPre, LeakyTriple, leaky_triple_ok};
use crate::auth_tensor_pre::{
    bucket_size_for, bucket_size_spec, combine_leaky_triples, bucket_ok, bucket_valid, bucket_keys_clear,
    combined_output_ok, folded_shares_ok, seeded_perms, is_permutation, lemma_valid_bucket_ok,
};

verus! {

broadcast use group_xor;

/// Preprocessing output, garbler's view. Every category of authenticated bit
/// (α, β, the correlated `α·β`, the output mask γ) comes as the bit shares and
/// as this party's components of the Block-form sharings under `Δ_ev` (`_dev`:
/// the MAC) and under `Δ_gb` (`_dgb`: the key plus `bit·Δ_gb`).
pub struct TensorFpreGen {
    pub n: usize,
    pub m: usize,
    pub chunking_factor: usize,
    pub delta_gb: Delta,
    pub alpha_auth_bit_shares: Vec<AuthBitShare>,
    pub alpha_dev: Vec<Block>,
    pub alpha_dgb: Vec<Block>,
    pub beta_auth_bit_shares: Vec<AuthBitShare>,
    pub beta_dev: Vec<Block>,
    pub beta_dgb: Vec<Block>,
    pub correlated_auth_bit_shares: Vec<AuthBitShare>,
    pub correlated_dev: Vec<Block>,
    pub correlated_dgb: Vec<Block>,
    pub gamma_auth_bit_shares: Vec<AuthBitShare>,
    pub gamma_dev: Vec<Block>,
    pub gamma_dgb: Vec<Block>,
}

/// Preprocessing output, evaluator's view: the mirror of [`TensorFpreGen`]. Its
/// `_dev` components are the key plus `bit·Δ_ev`, its `_dgb` components the MAC.
pub struct TensorFpreEval {
    pub n: usize,
    pub m: usize,
    pub chunking_factor: usize,
    pub delta_ev: Delta,
    pub alpha_auth_bit_shares: Vec<AuthBitShare>,
    pub alpha_dev: Vec<Block>,
    pub alpha_dgb: Vec<Block>,
    pub beta_auth_bit_shares: Vec<AuthBitShare>,
    pub beta_dev: Vec<Block>,
    pub beta_dgb: Vec<Block>,
    pub correlated_auth_bit_shares: Vec<AuthBitShare>,
    pub correlated_dev: Vec<Block>,
    pub correlated_dgb: Vec<Block>,
    pub gamma_auth_bit_shares: Vec<AuthBitShare>,
    pub gamma_dev: Vec<Block>,
    pub gamma_dgb: Vec<Block>,
}

/// The MAC values of a sequence of shares.
pub open spec fn mac_blocks(s: Seq<AuthBitShare>) -> Seq<u128> {
    Seq::new(s.len(), |i: int| s[i].mac@)
}

/// The key values of a sequence of shares, each plus `bit·Δ`.
pub open spec fn key_blocks(s: Seq<AuthBitShare>, delta: u128) -> Seq<u128> {
    Seq::new(s.len(), |i: int| s[i].key@ ^ mul_bool_spec(delta, s[i].value))
}

/// The full bit of the `k`-th authenticated bit of a pair of share vectors.
pub open spec fn full_bit_at(g: Seq<AuthBitShare>, e: Seq<AuthBitShare>, k: int) -> bool {
    g[k].value != e[k].value
}

/// `g` and `e` hold `len` authenticated bits: cross-party IT-MACs under
/// `(Δ_gb, Δ_ev)`, with every key's pointer bit clear.
pub open spec fn auth_pairs_ok(g: Seq<AuthBitShare>, e: Seq<AuthBitShare>, len: nat, dgb: u128, dev: u128) -> bool {
    &&& g.len() == len
    &&& e.len() == len
    &&& forall|k: int| 0 <= k < len ==> #[trigger] cross_valid(g[k], e[k], dgb, dev)
    &&& forall|k: int| 0 <= k < len ==> !lsb_of((#[trigger] g[k]).key@)
    &&& forall|k: int| 0 <= k < len ==> !lsb_of((#[trigger] e[k]).key@)
}

/// `g` and `e` hold `len` cross-party authenticated bits under `(Δ_gb, Δ_ev)`,
/// whatever the keys' pointer bits.
pub open spec fn auth_pairs_valid(g: Seq<AuthBitShare>, e: Seq<AuthBitShare>, len: nat, dgb: u128, dev: u128) -> bool {
    &&& g.len() == len
    &&& e.len() == len
    &&& forall|k: int| 0 <= k < len ==> #[trigger] cross_valid(g[k], e[k], dgb, dev)
}

/// Every key in `s` has its pointer bit clear.
pub open spec fn keys_clear(s: Seq<AuthBitShare>) -> bool {
    forall|k: int| 0 <= k < s.len() ==> !lsb_of((#[trigger] s[k]).key@)
}

/// Both parties' Block-form components are the lowering of their shares.
pub open spec fn lowered_ok(
    g: Seq<AuthBitShare>,
    e: Seq<AuthBitShare>,
    g_dev: Seq<Block>,
    g_dgb: Seq<Block>,
    e_dev: Seq<Block>,
    e_dgb: Seq<Block>,
    dgb: u128,
    dev: u128,
) -> bool {
    &&& block_vals(g_dev) == mac_blocks(g)
    &&& block_vals(e_dev) == key_blocks(e, dev)
    &&& block_vals(e_dgb) == mac_blocks(e)
    &&& block_vals(g_dgb) == key_blocks(g, dgb)
}

/// A consistent pair of preprocessing outputs: the same dimensions, `Δ_gb`
/// with pointer bit 1 and `Δ_ev` with pointer bit 0, authenticated α (n), β (m)
/// and correlated bits (n·m, column-major) with `corr[j·n + i] = α_i · β_j`, and
/// Block-form components lowered from the shares.
pub open spec fn fpre_valid(g: TensorFpreGen, e: TensorFpreEval) -> bool {
    let n = g.n as nat;
    let m = g.m as nat;
    let dgb = g.delta_gb@;
    let dev = e.delta_ev@;
    &&& g.n == e.n
    &&& g.m == e.m
    &&& g.chunking_factor == e.chunking_factor
    &&& lsb_of(dgb)
    &&& !lsb_of(dev)
    &&& auth_pairs_ok(g.alpha_auth_bit_shares@, e.alpha_auth_bit_shares@, n, dgb, dev)
    &&& auth_pairs_ok(g.beta_auth_bit_shares@, e.beta_auth_bit_shares@, m, dgb, dev)
    &&& auth_pairs_ok(g.correlated_auth_bit_shares@, e.correlated_auth_bit_shares@, n * m, dgb, dev)
    &&& forall|i: int, j: int| 0 <= i < n && 0 <= j < m ==>
        #[trigger] full_bit_at(g.correlated_auth_bit_shares@, e.correlated_auth_bit_shares@, j * n + i)
            == (full_bit_at(g.alpha_auth_bit_shares@, e.alpha_auth_bit_shares@, i)
                && full_bit_at(g.beta_auth_bit_shares@, e.beta_auth_bit_shares@, j))
    &&& lowered_ok(g.alpha_auth_bit_shares@, e.alpha_auth_bit_shares@, g.alpha_dev@, g.alpha_dgb@,
        e.alpha_dev@, e.alpha_dgb@, dgb, dev)
    &&& lowered_ok(g.beta_auth_bit_shares@, e.beta_auth_bit_shares@, g.beta_dev@, g.beta_dgb@,
        e.beta_dev@, e.beta_dgb@, dgb, dev)
    &&& lowered_ok(g.correlated_auth_bit_shares@, e.correlated_auth_bit_shares@, g.correlated_dev@,
        g.correlated_dgb@, e.correlated_dev@, e.correlated_dgb@, dgb, dev)
}

/// The authenticated bits of a pair, without their Block-form components:
/// the same dimensions and chunking, α (n), β (m) and the correlated bits
/// (n·m, column-major) cross-party authenticated with `corr[j·n + i] = α_i · β_j`.
pub open spec fn auth_triple_ok(g: TensorFpreGen, e: TensorFpreEval) -> bool {
    let n = g.n as nat;
    let m = g.m as nat;
    let dgb = g.delta_gb@;
    let dev = e.delta_ev@;
    &&& g.n == e.n
    &&& g.m == e.m
    &&& g.chunking_factor == e.chunking_factor
    &&& auth_pairs_ok(g.alpha_auth_bit_shares@, e.alpha_auth_bit_shares@, n, dgb, dev)
    &&& auth_pairs_ok(g.beta_auth_bit_shares@, e.beta_auth_bit_shares@, m, dgb, dev)
    &&& auth_pairs_ok(g.correlated_auth_bit_shares@, e.correlated_auth_bit_shares@, n * m, dgb, dev)
    &&& forall|i: int, j: int| 0 <= i < n && 0 <= j < m ==>
        #[trigger] full_bit_at(g.correlated_auth_bit_shares@, e.correlated_auth_bit_shares@, j * n + i)
            == (full_bit_at(g.alpha_auth_bit_shares@, e.alpha_auth_bit_shares@, i)
                && full_bit_at(g.beta_auth_bit_shares@, e.beta_auth_bit_shares@, j))
}

/// [`auth_triple_ok`] without the demand on the keys' pointer bits.
pub open spec fn auth_triple_valid(g: TensorFpreGen, e: TensorFpreEval) -> bool {
    let n = g.n as nat;
    let m = g.m as nat;
    let dgb = g.delta_gb@;
    let dev = e.delta_ev@;
    &&& g.n == e.n
    &&& g.m == e.m
    &&& g.chunking_factor == e.chunking_factor
    &&& auth_pairs_valid(g.alpha_auth_bit_shares@, e.alpha_auth_bit_shares@, n, dgb, dev)
    &&& auth_pairs_valid(g.beta_auth_bit_shares@, e.beta_auth_bit_shares@, m, dgb, dev)
    &&& auth_pairs_valid(g.correlated_auth_bit_shares@, e.correlated_auth_bit_shares@, n * m, dgb, dev)
    &&& forall|i: int, j: int| 0 <= i < n && 0 <= j < m ==>
        #[trigger] full_bit_at(g.correlated_auth_bit_shares@, e.correlated_auth_bit_shares@, j * n + i)
            == (full_bit_at(g.alpha_auth_bit_shares@, e.alpha_auth_bit_shares@, i)
                && full_bit_at(g.beta_auth_bit_shares@, e.beta_auth_bit_shares@, j))
}

/// The output masks γ of a pair: n·m authenticated bits, lowered.
pub open spec fn gamma_valid(g: TensorFpreGen, e: TensorFpreEval) -> bool {
    let dgb = g.delta_gb@;
    let dev = e.delta_ev@;
    &&& auth_pairs_ok(g.gamma_auth_bit_shares@, e.gamma_auth_bit_shares@, (g.n * g.m) as nat, dgb, dev)
    &&& lowered_ok(g.gamma_auth_bit_shares@, e.gamma_auth_bit_shares@, g.gamma_dev@, g.gamma_dgb@,
        e.gamma_dev@, e.gamma_dgb@, dgb, dev)
}

/// Lowers paired shares to the two components of a Block-form sharing under
/// `delta`: the MAC side's MACs, and the key side's keys plus `bit·delta`.
pub fn derive_sharing_blocks(mac_side: &[AuthBitShare], key_side: &[AuthBitShare], delta: &Delta) -> (r: (
    Vec<Block>,
    Vec<Block>,
))
    requires
        mac_side@.len() == key_side@.len(),
    ensures
        block_vals(r.0@) == mac_blocks(mac_side@),
        block_vals(r.1@) == key_blocks(key_side@, delta@),
{
    let mut mac_blocks_v: Vec<Block> = Vec::new();
    let mut key_blocks_v: Vec<Block> = Vec::new();
    let mut i: usize = 0;
    while i < mac_side.len()
        invariant
            i <= mac_side@.len(),
            mac_side@.len() == key_side@.len(),
            mac_blocks_v@.len() == i,
            key_blocks_v@.len() == i,
            forall|k: int| 0 <= k < i ==> (#[trigger] mac_blocks_v@[k])@ == mac_side@[k].mac@,
            forall|k: int| 0 <= k < i ==> (#[trigger] key_blocks_v@[k])@ == key_side@[k].key@ ^ mul_bool_spec(
                delta@,
                key_side@[k].value,
            ),
        decreases mac_side@.len() - i,
    {
        mac_blocks_v.push(*mac_side[i].mac.as_block());
        let k = *key_side[i].key.as_block();
        key_blocks_v.push(k.xor(&delta.mul_bool(key_side[i].bit())));
        i = i + 1;
    }
    proof {
        assert(block_vals(mac_blocks_v@) =~= mac_blocks(mac_side@));
        assert(block_vals(key_blocks_v@) =~= key_blocks(key_side@, delta@));
    }
    (mac_blocks_v, key_blocks_v)
}

/// The two components of a lowered sharing XOR to `bit·Δ`: for cross-party
/// authenticated bits, the MAC side's MAC and the key side's key plus its
/// `bit·Δ` reconstruct the full bit times `Δ` (under `Δ_ev` and under `Δ_gb`).
pub proof fn lemma_lowered_sharing(g: AuthBitShare, e: AuthBitShare, dgb: u128, dev: u128)
    requires
        cross_valid(g, e, dgb, dev),
    ensures
        g.mac@ ^ (e.key@ ^ mul_bool_spec(dev, e.value)) == mul_bool_spec(dev, g.value != e.value),
        e.mac@ ^ (g.key@ ^ mul_bool_spec(dgb, g.value)) == mul_bool_spec(dgb, g.value != e.value),
{
    lemma_auth_pair(e.key@, g.value, e.value, dev);
    lemma_auth_pair(g.key@, e.value, g.value, dgb);
}

/// `auth(k, b1, Δ) ⊕ (k ⊕ b2·Δ) == (b1 ⊕ b2)·Δ`.
pub proof fn lemma_auth_pair(k: u128, b1: bool, b2: bool, d: u128)
    ensures
        auth_spec(k, b1, d) ^ (k ^ mul_bool_spec(d, b2)) == mul_bool_spec(d, b1 != b2),
{
    let x = mul_bool_spec(d, b1);
    let y = mul_bool_spec(d, b2);
    assert((k ^ x) ^ (k ^ y) == x ^ y) by (bit_vector);
    lemma_xor_self(x);
    lemma_xor_zero(x);
    lemma_xor_zero(y);
    if b1 == b2 {
        assert(x == y);
    } else if b1 {
        assert(y == 0);
    } else {
        assert(x == 0);
    }
}

/// The dimensions every preprocessing backend accepts: the tensor fits in
/// memory, and the chunked GGM trees of the protocol fit the machine word.
pub open spec fn preprocessing_params_ok(n: usize, m: usize, chunking_factor: usize) -> bool {
    &&& n * m <= usize::MAX
    &&& 1 <= chunking_factor < usize::BITS
    &&& n + chunking_factor <= usize::MAX
    &&& pow2(chunking_factor as nat) * m <= usize::MAX
}

/// A source of preprocessing output for one `n × m` tensor gate.
pub trait TensorPreprocessing {
    fn run(&self, n: usize, m: usize, chunking_factor: usize) -> (r: (TensorFpreGen, TensorFpreEval))
        requires
            preprocessing_params_ok(n, m, chunking_factor),
        ensures
            r.0.n == n,
            r.0.m == m,
            r.0.chunking_factor == chunking_factor,
            fpre_valid(r.0, r.1),
            gamma_valid(r.0, r.1),
    ;
}

/// The ideal trusted-dealer backend (seed 0), with γ dealt from seed 42.
pub struct IdealPreprocessingBackend;

impl TensorPreprocessing for IdealPreprocessingBackend {
    fn run(&self, n: usize, m: usize, chunking_factor: usize) -> (r: (TensorFpreGen, TensorFpreEval)) {
        let mut fpre = TensorFpre::new(0, n, m, chunking_factor);
        fpre.generate_ideal();
        proof {
            assert(fpre.alpha_auth_bits@.subrange(0, 0) =~= fpre.alpha_auth_bits@.subrange(0, 0));
        }
        let mut rng_gamma = chacha_from_seed(42);
        let mut gamma_bits: Vec<AuthBit> = Vec::new();
        let nm = n * m;
        let mut k: usize = 0;
        while k < nm
            invariant
                k <= nm,
                nm == n * m,
                fpre.ideal_ok(),
                fpre.n == n,
                fpre.m == m,
                fpre.chunking_factor == chunking_factor,
                gamma_bits@.len() == k,
                forall|t: int| 0 <= t < k ==> auth_bit_ok(#[trigger] gamma_bits@[t], fpre.delta_gb@, fpre.delta_ev@),
            decreases nm - k,
        {
            let l_gamma = chacha_next_bool(&mut rng_gamma);
            let bit = fpre.gen_auth_bit(l_gamma);
            gamma_bits.push(bit);
            k = k + 1;
        }
        let (mut gen_out, mut eval_out) = fpre.into_gen_eval();
        let delta_gb = gen_out.delta_gb;
        let delta_ev = eval_out.delta_ev;
        let gamma_gen_shares = shares_of(&gamma_bits, true);
        let gamma_eval_shares = shares_of(&gamma_bits, false);
        let (gamma_eval_g, gamma_eval_e) = derive_sharing_blocks(&gamma_gen_shares, &gamma_eval_shares, &delta_ev);
        let (gamma_gen_e, gamma_gen_g) = derive_sharing_blocks(&gamma_eval_shares, &gamma_gen_shares, &delta_gb);
        gen_out.gamma_auth_bit_shares = gamma_gen_shares;
        gen_out.gamma_dev = gamma_eval_g;
        gen_out.gamma_dgb = gamma_gen_g;
        eval_out.gamma_auth_bit_shares = gamma_eval_shares;
        eval_out.gamma_dev = gamma_eval_e;
        eval_out.gamma_dgb = gamma_gen_e;
        (gen_out, eval_out)
    }
}

/// The authenticated bits of `r` are a bucket of `bucket_size_spec(n, 1)`
/// valid `n × m` leaky triples under one pair of keys, with clear key pointer
/// bits, folded under the row permutations that shuffle seed 42 gives.
pub open spec fn from_leaky_bucket(r: (TensorFpreGen, TensorFpreEval), n: usize, m: usize) -> bool {
    exists|triples: Seq<LeakyTriple>|
        {
            &&& triples.len() == bucket_size_spec(n, 1)
            &&& bucket_ok(triples, n, m)
            &&& bucket_valid(triples)
            &&& bucket_keys_clear(triples)
            &&& #[trigger] folded_shares_ok(r, triples, seeded_perms(42, bucket_size_spec(n, 1), n), n, m)
        }
}

/// The real two-party preprocessing: `bucket_size_for(n, 1)` leaky triples
/// from one shared bCOT (seeds 0 and 1; triple `t` from seed `t + 2`), then
/// [`preprocess_bucket`]. Which triples the seeded generators give is not
/// stated; whatever they are, the output's authenticated bits are a bucket of
/// that many valid leaky triples folded under the seeded row permutations.
pub fn run_preprocessing(n: usize, m: usize, chunking_factor: usize) -> (r: (TensorFpreGen, TensorFpreEval))
    requires
        preprocessing_params_ok(n, m, chunking_factor),
    ensures
        r.0.n == n,
        r.0.m == m,
        r.0.chunking_factor == chunking_factor,
        fpre_valid(r.0, r.1),
        gamma_valid(r.0, r.1),
        from_leaky_bucket(r, n, m),
{
    let bucket_size = bucket_size_for(n, 1);
    proof {
        assert(bucket_size >= 1);
    }
    let mut bcot = IdealBCot::new(0, 1);
    let ghost d_a = bcot.delta_a;
    let ghost d_b = bcot.delta_b;
    let mut triples: Vec<LeakyTriple> = Vec::with_capacity(bucket_size);
    let mut t: usize = 0;
    while t < bucket_size
        invariant
            t <= bucket_size,
            bucket_size >= 1,
            preprocessing_params_ok(n, m, chunking_factor),
            bcot.delta_a == d_a,
            bcot.delta_b == d_b,
            lsb_of(d_b@),
            !lsb_of(d_a@),
            triples@.len() == t,
            forall|k: int| 0 <= k < t ==> {
                &&& leaky_triple_ok(#[trigger] triples@[k])
                &&& triples@[k].n == n
                &&& triples@[k].m == m
                &&& triples@[k].delta_gb == d_b
                &&& triples@[k].delta_ev == d_a
            },
        decreases bucket_size - t,
    {
        let seed: u64 = (t as u64).wrapping_add(2);
        let mut ltp = LeakyTensorPre::new(seed, n, m, chunking_factor, bcot);
        let triple = ltp.generate();
        triples.push(triple);
        bcot = ltp.bcot;
        t = t + 1;
    }
    proof {
        assert(bucket_valid(triples@));
        assert(bucket_keys_clear(triples@));
        lemma_valid_bucket_ok(triples@, n, m);
    }
    let ghost bucket = triples@;
    let r = preprocess_bucket(triples, n, m, chunking_factor);
    proof {
        assert(folded_shares_ok(r, bucket, seeded_perms(42, bucket_size_spec(n, 1), n), n, m));
    }
    r
}

/// The rest of the real preprocessing, on a bucket of leaky triples: the
/// bucket combined with shuffle seed 42, lowered to Block form, and γ dealt
/// from a generator seeded with 43.
pub fn preprocess_bucket(triples: Vec<LeakyTriple>, n: usize, m: usize, chunking_factor: usize) -> (r: (
    TensorFpreGen,
    TensorFpreEval,
))
    requires
        preprocessing_params_ok(n, m, chunking_factor),
        bucket_ok(triples@, n, m),
        bucket_valid(triples@),
        bucket_keys_clear(triples@),
        lsb_of(triples@[0].delta_gb@),
        !lsb_of(triples@[0].delta_ev@),
    ensures
        r.0.n == n,
        r.0.m == m,
        r.0.chunking_factor == chunking_factor,
        fpre_valid(r.0, r.1),
        gamma_valid(r.0, r.1),
        folded_shares_ok(r, triples@, seeded_perms(42, triples@.len(), n), n, m),
        forall|t: int| 0 <= t < triples@.len() ==> is_permutation(#[trigger] seeded_perms(42, triples@.len(), n)[t], n),
{
    let bucket_size = triples.len();
    let ghost bucket = triples@;
    let (mut gen_out, mut eval_out) = combine_leaky_triples(triples, bucket_size, n, m, chunking_factor, 42);
    let ghost perms = seeded_perms(42, bucket.len(), n);
    let delta_gb = gen_out.delta_gb;
    let delta_ev = eval_out.delta_ev;

    // Under Δ_ev the garbler is the MAC side; under Δ_gb the evaluator is.
    let (g_alpha_dev, e_alpha_dev) = derive_sharing_blocks(gen_out.alpha_auth_bit_shares.as_slice(),
        eval_out.alpha_auth_bit_shares.as_slice(), &delta_ev);
    let (e_alpha_dgb, g_alpha_dgb) = derive_sharing_blocks(eval_out.alpha_auth_bit_shares.as_slice(),
        gen_out.alpha_auth_bit_shares.as_slice(), &delta_gb);
    let (g_beta_dev, e_beta_dev) = derive_sharing_blocks(gen_out.beta_auth_bit_shares.as_slice(),
        eval_out.beta_auth_bit_shares.as_slice(), &delta_ev);
    let (e_beta_dgb, g_beta_dgb) = derive_sharing_blocks(eval_out.beta_auth_bit_shares.as_slice(),
        gen_out.beta_auth_bit_shares.as_slice(), &delta_gb);
    let (g_corr_dev, e_corr_dev) = derive_sharing_blocks(gen_out.correlated_auth_bit_shares.as_slice(),
        eval_out.correlated_auth_bit_shares.as_slice(), &delta_ev);
    let (e_corr_dgb, g_corr_dgb) = derive_sharing_blocks(eval_out.correlated_auth_bit_shares.as_slice(),
        gen_out.correlated_auth_bit_shares.as_slice(), &delta_gb);
    gen_out.alpha_dev = g_alpha_dev;
    eval_out.alpha_dev = e_alpha_dev;
    eval_out.alpha_dgb = e_alpha_dgb;
    gen_out.alpha_dgb = g_alpha_dgb;
    gen_out.beta_dev = g_beta_dev;
    eval_out.beta_dev = e_beta_dev;
    eval_out.beta_dgb = e_beta_dgb;
    gen_out.beta_dgb = g_beta_dgb;
    gen_out.correlated_dev = g_corr_dev;
    eval_out.correlated_dev = e_corr_dev;
    eval_out.correlated_dgb = e_corr_dgb;
    gen_out.correlated_dgb = g_corr_dgb;

    // γ: fresh n·m authenticated bits, each from two independent IT-MACs.
    let mut rng_gamma = chacha_from_seed(43);
    let nm = n * m;
    let mut gen_gamma: Vec<AuthBitShare> = Vec::with_capacity(nm);
    let mut eval_gamma: Vec<AuthBitShare> = Vec::with_capacity(nm);
    let mut k: usize = 0;
    while k < nm
        invariant
            k <= nm,
            gen_gamma@.len() == k,
            eval_gamma@.len() == k,
            forall|t: int| 0 <= t < k ==> #[trigger] cross_valid(gen_gamma@[t], eval_gamma@[t], delta_gb@,
                delta_ev@),
            forall|t: int| 0 <= t < k ==> !lsb_of((#[trigger] gen_gamma@[t]).key@),
            forall|t: int| 0 <= t < k ==> !lsb_of((#[trigger] eval_gamma@[t]).key@),
        decreases nm - k,
    {
        let l_gamma = chacha_next_bool(&mut rng_gamma);
        let a = chacha_next_bool(&mut rng_gamma);
        let b = l_gamma != a;
        let a_share = build_share(&mut rng_gamma, a, &delta_ev);
        let b_share = build_share(&mut rng_gamma, b, &delta_gb);
        gen_gamma.push(AuthBitShare { key: b_share.key, mac: a_share.mac, value: a });
        eval_gamma.push(AuthBitShare { key: a_share.key, mac: b_share.mac, value: b });
        k = k + 1;
    }
    let (gamma_eval_g, gamma_eval_e) = derive_sharing_blocks(gen_gamma.as_slice(), eval_gamma.as_slice(), &delta_ev);
    let (gamma_gen_e, gamma_gen_g) = derive_sharing_blocks(eval_gamma.as_slice(), gen_gamma.as_slice(), &delta_gb);
    gen_out.gamma_auth_bit_shares = gen_gamma;
    gen_out.gamma_dev = gamma_eval_g;
    gen_out.gamma_dgb = gamma_gen_g;
    eval_out.gamma_auth_bit_shares = eval_gamma;
    eval_out.gamma_dev = gamma_eval_e;
    eval_out.gamma_dgb = gamma_gen_e;
    let r = (gen_out, eval_out);
    proof {
        assert(folded_shares_ok(r, bucket, perms, n, m));
    }
    r
}

/// The real two-party backend: [`run_preprocessing`].
pub struct UncompressedPreprocessingBackend;

impl TensorPreprocessing for UncompressedPreprocessingBackend {
    fn run(&self, n: usize, m: usize, chunking_factor: usize) -> (r: (TensorFpreGen, TensorFpreEval))
        ensures
            from_leaky_bucket(r, n, m),
    {
        run_preprocessing(n, m, chunking_factor)
    }
}

/// One party's shares of a vector of authenticated bits (the garbler's when
/// `garbler` holds).
fn shares_of(bits: &Vec<AuthBit>, garbler: bool) -> (r: Vec<AuthBitShare>)
    ensures
        r@ == if garbler { gen_shares(bits@) } else { eval_shares(bits@) },
{
    let mut r: Vec<AuthBitShare> = Vec::new();
    let mut i: usize = 0;
    while i < bits.len()
        invariant
            i <= bits@.len(),
            r@ == (if garbler { gen_shares(bits@) } else { eval_shares(bits@) }).subrange(0, i as int),
        decreases bits@.len() - i,
    {
        r.push(if garbler { bits[i].gen_share } else { bits[i].eval_share });
        i = i + 1;
        proof {
            assert(r@ =~= (if garbler { gen_shares(bits@) } else { eval_shares(bits@) }).subrange(0, i as int));
        }
    }
    proof {
        assert((if garbler { gen_shares(bits@) } else { eval_shares(bits@) }).subrange(0, bits@.len() as int)
            =~= (if garbler { gen_shares(bits@) } else { eval_shares(bits@) }));
    }
    r
}

} // verus!
