//! Bucketing of leaky triples into one authenticated tensor triple: each
//! triple's rows are permuted, then the triples are folded pairwise with the
//! two-to-one combiner.

use vstd::prelude::*;
use crate::block::{Block, lsb_of, group_xor, lemma_lsb_mul_bool};
use crate::keys::Key;
use crate::macs::Mac;
use crate::sharing::{AuthBitShare, cross_valid, share_xor, verify_cross_party, lemma_add_cross_valid};
use crate::leaky_tensor_pre::{LeakyTriple, leaky_triple_valid, triple_keys_clear};
use crate::preprocessing::{
    TensorFpreGen, TensorFpreEval, auth_pairs_valid, full_bit_at, auth_triple_ok, auth_triple_valid,
};
use crate::random::{chacha_shuffle_seeded, seeded_shuffle_spec};
use crate::SSP;
use vstd::arithmetic::power2::{pow2, lemma_pow2_unfold, lemma2_to64, lemma_pow2_strictly_increases, lemma_pow2_pos};

verus! {

broadcast use group_xor;

/// The all-zero share.
pub open spec fn zero_share() -> AuthBitShare {
    AuthBitShare { key: Key(Block { v: 0 }), mac: Mac(Block { v: 0 }), value: false }
}

/// The public bit `d_j = y'_j ⊕ y''_j` revealed by a combining step.
pub open spec fn combine_d(prime: LeakyTriple, dprime: LeakyTriple, j: int) -> bool {
    full_bit_at(prime.gb_y_shares@, prime.ev_y_shares@, j) != full_bit_at(dprime.gb_y_shares@, dprime.ev_y_shares@, j)
}

/// `k / n` and `k % n` of a flat column-major index below `n·m`.
proof fn lemma_flat_decompose(k: int, n: int, m: int)
    requires
        0 <= k < n * m,
        n > 0,
    ensures
        0 <= k % n < n,
        0 <= k / n < m,
        k == (k / n) * n + k % n,
{
    vstd::arithmetic::div_mod::lemma_fundamental_div_mod(k, n);
    vstd::arithmetic::div_mod::lemma_mod_pos_bound(k, n);
    vstd::arithmetic::div_mod::lemma_div_pos_is_pos(k, n);
    let q = k / n;
    let r = k % n;
    assert(q < m) by (nonlinear_arith)
        requires
            k == n * q + r,
            0 <= r,
            k < n * m,
            n > 0,
    ;
    assert(n * q == q * n) by (nonlinear_arith);
}

/// A flat column-major index splits back into its row and column.
proof fn lemma_flat_compose(i: int, j: int, n: int)
    requires
        0 <= i < n,
        0 <= j,
    ensures
        (j * n + i) / n == j,
        (j * n + i) % n == i,
{
    vstd::arithmetic::div_mod::lemma_fundamental_div_mod_converse(j * n + i, n, j, i);
}

/// A leaky triple's share vectors have its dimensions: `n` shares of `x`,
/// `m` of `y` and `n·m` of `Z` for each party.
pub open spec fn triple_shape_ok(t: LeakyTriple) -> bool {
    &&& t.gb_x_shares@.len() == t.n
    &&& t.ev_x_shares@.len() == t.n
    &&& t.gb_y_shares@.len() == t.m
    &&& t.ev_y_shares@.len() == t.m
    &&& t.gb_z_shares@.len() == t.n * t.m
    &&& t.ev_z_shares@.len() == t.n * t.m
}

/// The reveal of `d = y' ⊕ y''` passes its MAC check at every column: the
/// XORed shares are cross-party authenticated under the first triple's keys.
pub open spec fn reveal_ok(prime: LeakyTriple, dprime: LeakyTriple) -> bool {
    forall|j: int| 0 <= j < prime.m ==> #[trigger] cross_valid(share_xor(prime.gb_y_shares@[j], dprime.gb_y_shares@[j]),
        share_xor(prime.ev_y_shares@[j], dprime.ev_y_shares@[j]), prime.delta_gb@, prime.delta_ev@)
}

/// Two valid triples under the same keys pass the reveal check.
pub proof fn lemma_valid_reveal_ok(prime: LeakyTriple, dprime: LeakyTriple)
    requires
        leaky_triple_valid(prime),
        leaky_triple_valid(dprime),
        prime.m == dprime.m,
        prime.delta_gb == dprime.delta_gb,
        prime.delta_ev == dprime.delta_ev,
    ensures
        reveal_ok(prime, dprime),
{
    let dgb = prime.delta_gb@;
    let dev = prime.delta_ev@;
    assert forall|j: int| 0 <= j < prime.m implies #[trigger] cross_valid(share_xor(prime.gb_y_shares@[j],
        dprime.gb_y_shares@[j]), share_xor(prime.ev_y_shares@[j], dprime.ev_y_shares@[j]), dgb, dev) by {
        assert(cross_valid(prime.gb_y_shares@[j], prime.ev_y_shares@[j], dgb, dev));
        assert(cross_valid(dprime.gb_y_shares@[j], dprime.ev_y_shares@[j], dgb, dev));
        lemma_add_cross_valid(prime.gb_y_shares@[j], prime.ev_y_shares@[j], dprime.gb_y_shares@[j],
            dprime.ev_y_shares@[j], dgb, dev);
    }
}

/// Two leaky triples with the same dimensions and keys folded into one:
/// `x = x' ⊕ x''`, `y = y'`, and, with `d = y' ⊕ y''` revealed,
/// `Z = Z' ⊕ Z'' ⊕ x'' ⊗ d`; the reveal of `d` is MAC-checked. The result
/// is a valid triple when both inputs are, and its keys' pointer bits are
/// clear when both inputs' are.
pub fn two_to_one_combine(prime: LeakyTriple, dprime: &LeakyTriple) -> (r: LeakyTriple)
    requires
        triple_shape_ok(prime),
        triple_shape_ok(*dprime),
        reveal_ok(prime, *dprime),
        prime.n == dprime.n,
        prime.m == dprime.m,
        prime.delta_gb == dprime.delta_gb,
        prime.delta_ev == dprime.delta_ev,
        prime.n * prime.m <= usize::MAX,
    ensures
        r.n == prime.n,
        r.m == prime.m,
        r.delta_gb == prime.delta_gb,
        r.delta_ev == prime.delta_ev,
        triple_shape_ok(r),
        leaky_triple_valid(prime) && leaky_triple_valid(*dprime) ==> leaky_triple_valid(r),
        triple_keys_clear(prime) && triple_keys_clear(*dprime) ==> triple_keys_clear(r),
        forall|i: int| 0 <= i < prime.n ==> #[trigger] r.gb_x_shares@[i] == share_xor(prime.gb_x_shares@[i],
            dprime.gb_x_shares@[i]),
        forall|i: int| 0 <= i < prime.n ==> #[trigger] r.ev_x_shares@[i] == share_xor(prime.ev_x_shares@[i],
            dprime.ev_x_shares@[i]),
        r.gb_y_shares@ == prime.gb_y_shares@,
        r.ev_y_shares@ == prime.ev_y_shares@,
        forall|i: int, j: int| 0 <= i < prime.n && 0 <= j < prime.m ==> #[trigger] r.gb_z_shares@[j * prime.n + i]
            == share_xor(share_xor(prime.gb_z_shares@[j * prime.n + i], dprime.gb_z_shares@[j * prime.n + i]),
            if combine_d(prime, *dprime, j) { dprime.gb_x_shares@[i] } else { zero_share() }),
        forall|i: int, j: int| 0 <= i < prime.n && 0 <= j < prime.m ==> #[trigger] r.ev_z_shares@[j * prime.n + i]
            == share_xor(share_xor(prime.ev_z_shares@[j * prime.n + i], dprime.ev_z_shares@[j * prime.n + i]),
            if combine_d(prime, *dprime, j) { dprime.ev_x_shares@[i] } else { zero_share() }),
{
    let n = prime.n;
    let m = prime.m;
    let delta_gb = prime.delta_gb;
    let delta_ev = prime.delta_ev;
    let ghost dgb = delta_gb@;
    let ghost dev = delta_ev@;

    // d = y' ⊕ y'', opened with its MACs.
    let mut d_bits: Vec<bool> = Vec::with_capacity(m);
    let mut j: usize = 0;
    while j < m
        invariant
            j <= m,
            m == prime.m,
            triple_shape_ok(prime),
            triple_shape_ok(*dprime),
            reveal_ok(prime, *dprime),
            prime.m == dprime.m,
            prime.delta_gb == delta_gb,
            prime.delta_ev == delta_ev,
            dprime.delta_gb == delta_gb,
            dprime.delta_ev == delta_ev,
            dgb == delta_gb@,
            dev == delta_ev@,
            d_bits@.len() == j,
            forall|t: int| 0 <= t < j ==> #[trigger] d_bits@[t] == combine_d(prime, *dprime, t),
        decreases m - j,
    {
        let gb_d = prime.gb_y_shares[j].add_share(&dprime.gb_y_shares[j]);
        let ev_d = prime.ev_y_shares[j].add_share(&dprime.ev_y_shares[j]);
        proof {
            let jj = j as int;
            assert(cross_valid(share_xor(prime.gb_y_shares@[jj], dprime.gb_y_shares@[jj]), share_xor(
                prime.ev_y_shares@[jj],
                dprime.ev_y_shares@[jj],
            ), dgb, dev));
        }
        verify_cross_party(&gb_d, &ev_d, &delta_gb, &delta_ev);
        d_bits.push(gb_d.value != ev_d.value);
        j = j + 1;
    }

    // x = x' ⊕ x''.
    let mut gb_x: Vec<AuthBitShare> = Vec::with_capacity(n);
    let mut ev_x: Vec<AuthBitShare> = Vec::with_capacity(n);
    let mut i: usize = 0;
    while i < n
        invariant
            i <= n,
            n == prime.n,
            triple_shape_ok(prime),
            triple_shape_ok(*dprime),
            prime.n == dprime.n,
            gb_x@.len() == i,
            ev_x@.len() == i,
            forall|t: int| 0 <= t < i ==> #[trigger] gb_x@[t] == share_xor(prime.gb_x_shares@[t],
                dprime.gb_x_shares@[t]),
            forall|t: int| 0 <= t < i ==> #[trigger] ev_x@[t] == share_xor(prime.ev_x_shares@[t],
                dprime.ev_x_shares@[t]),
        decreases n - i,
    {
        gb_x.push(prime.gb_x_shares[i].add_share(&dprime.gb_x_shares[i]));
        ev_x.push(prime.ev_x_shares[i].add_share(&dprime.ev_x_shares[i]));
        i = i + 1;
    }

    // Z = Z' ⊕ Z'' ⊕ x'' ⊗ d, column-major.
    let zero = AuthBitShare::zero();
    let nm = n * m;
    let mut gen_z: Vec<AuthBitShare> = Vec::with_capacity(nm);
    let mut eval_z: Vec<AuthBitShare> = Vec::with_capacity(nm);
    let mut k: usize = 0;
    while k < nm
        invariant
            k <= nm,
            nm == n * m,
            n == prime.n,
            m == prime.m,
            triple_shape_ok(prime),
            triple_shape_ok(*dprime),
            prime.n == dprime.n,
            prime.m == dprime.m,
            zero == zero_share(),
            d_bits@.len() == m,
            forall|t: int| 0 <= t < m ==> #[trigger] d_bits@[t] == combine_d(prime, *dprime, t),
            gen_z@.len() == k,
            eval_z@.len() == k,
            forall|t: int| 0 <= t < k ==> #[trigger] gen_z@[t] == share_xor(share_xor(prime.gb_z_shares@[t],
                dprime.gb_z_shares@[t]), if combine_d(prime, *dprime, t / (n as int)) {
                dprime.gb_x_shares@[t % (n as int)]
            } else {
                zero_share()
            }),
            forall|t: int| 0 <= t < k ==> #[trigger] eval_z@[t] == share_xor(share_xor(prime.ev_z_shares@[t],
                dprime.ev_z_shares@[t]), if combine_d(prime, *dprime, t / (n as int)) {
                dprime.ev_x_shares@[t % (n as int)]
            } else {
                zero_share()
            }),
        decreases nm - k,
    {
        proof {
            lemma_flat_decompose(k as int, n as int, m as int);
        }
        let i = k % n;
        let j = k / n;
        let dx_gen = if d_bits[j] { dprime.gb_x_shares[i] } else { zero };
        let dx_eval = if d_bits[j] { dprime.ev_x_shares[i] } else { zero };
        gen_z.push(prime.gb_z_shares[k].add_share(&dprime.gb_z_shares[k]).add_share(&dx_gen));
        eval_z.push(prime.ev_z_shares[k].add_share(&dprime.ev_z_shares[k]).add_share(&dx_eval));
        k = k + 1;
    }

    let r = LeakyTriple {
        n,
        m,
        gb_x_shares: gb_x,
        gb_y_shares: prime.gb_y_shares,
        gb_z_shares: gen_z,
        ev_x_shares: ev_x,
        ev_y_shares: prime.ev_y_shares,
        ev_z_shares: eval_z,
        delta_gb,
        delta_ev,
    };
    proof {
        assert(combined_from(prime, *dprime, r));
        if leaky_triple_valid(prime) && leaky_triple_valid(*dprime) {
            lemma_combine_valid(prime, *dprime, r);
        }
        lemma_combine_entries(prime, *dprime, r);
        if triple_keys_clear(prime) && triple_keys_clear(*dprime) {
            lemma_combine_keys_clear(prime, *dprime, r);
        }
    }
    r
}

/// A bucket of leaky triples that combining accepts: at least one, all
/// `n × m` under the keys of the first, and the reveal of `d` against the
/// first triple's `y` passes its MAC check for every later triple.
pub open spec fn bucket_ok(triples: Seq<LeakyTriple>, n: usize, m: usize) -> bool {
    &&& triples.len() >= 1
    &&& forall|t: int| 0 <= t < triples.len() ==> {
        &&& triple_shape_ok(#[trigger] triples[t])
        &&& triples[t].n == n
        &&& triples[t].m == m
        &&& triples[t].delta_gb == triples[0].delta_gb
        &&& triples[t].delta_ev == triples[0].delta_ev
    }
    &&& forall|t: int| 1 <= t < triples.len() ==> reveal_ok(triples[0], #[trigger] triples[t])
}

/// Every triple of the bucket is valid.
pub open spec fn bucket_valid(triples: Seq<LeakyTriple>) -> bool {
    forall|t: int| 0 <= t < triples.len() ==> leaky_triple_valid(#[trigger] triples[t])
}

/// Every triple of the bucket has its keys' pointer bits clear.
pub open spec fn bucket_keys_clear(triples: Seq<LeakyTriple>) -> bool {
    forall|t: int| 0 <= t < triples.len() ==> triple_keys_clear(#[trigger] triples[t])
}

/// A bucket of valid triples under the keys of the first passes every reveal.
pub proof fn lemma_valid_bucket_ok(triples: Seq<LeakyTriple>, n: usize, m: usize)
    requires
        triples.len() >= 1,
        bucket_valid(triples),
        forall|t: int| 0 <= t < triples.len() ==> {
            &&& (#[trigger] triples[t]).n == n
            &&& triples[t].m == m
            &&& triples[t].delta_gb == triples[0].delta_gb
            &&& triples[t].delta_ev == triples[0].delta_ev
        },
    ensures
        bucket_ok(triples, n, m),
{
    assert forall|t: int| 1 <= t < triples.len() implies reveal_ok(triples[0], #[trigger] triples[t]) by {
        assert(leaky_triple_valid(triples[0]));
        assert(leaky_triple_valid(triples[t]));
        lemma_valid_reveal_ok(triples[0], triples[t]);
    }
    assert forall|t: int| 0 <= t < triples.len() implies triple_shape_ok(#[trigger] triples[t]) by {
        assert(leaky_triple_valid(triples[t]));
    }
}

/// One party's `x` shares of a triple (the garbler's when `garbler` holds).
pub open spec fn x_of(t: LeakyTriple, garbler: bool) -> Seq<AuthBitShare> {
    if garbler { t.gb_x_shares@ } else { t.ev_x_shares@ }
}

/// One party's `Z` shares of a triple (the garbler's when `garbler` holds).
pub open spec fn z_of(t: LeakyTriple, garbler: bool) -> Seq<AuthBitShare> {
    if garbler { t.gb_z_shares@ } else { t.ev_z_shares@ }
}

/// The bit `d_j = y⁽⁰⁾_j ⊕ y⁽ᵏ⁾_j` revealed when triple `k` of a bucket is
/// folded in (the running triple keeps the first triple's `y`).
pub open spec fn bucket_d(triples: Seq<LeakyTriple>, k: int, j: int) -> bool {
    full_bit_at(triples[0].gb_y_shares@, triples[0].ev_y_shares@, j) != full_bit_at(triples[k].gb_y_shares@,
        triples[k].ev_y_shares@, j)
}

/// Row `i` of one party's `x` shares once triples `0..=k` of a bucket, triple
/// `t` with its rows permuted by `perms[t]`, are folded: `⊕_{t ≤ k} x⁽ᵗ⁾[π_t(i)]`.
pub open spec fn folded_x(triples: Seq<LeakyTriple>, perms: Seq<Seq<usize>>, garbler: bool, k: nat, i: int) -> AuthBitShare
    decreases k,
{
    let s = x_of(triples[k as int], garbler)[perms[k as int][i] as int];
    if k == 0 {
        s
    } else {
        share_xor(folded_x(triples, perms, garbler, (k - 1) as nat, i), s)
    }
}

/// Entry `(i, j)` of one party's `Z` shares once triples `0..=k` of a bucket
/// are folded: folding in triple `k` XORs in its entry `(π_k(i), j)` and, when
/// `d_j` is set, its row `x⁽ᵏ⁾[π_k(i)]`.
pub open spec fn folded_z(
    triples: Seq<LeakyTriple>,
    perms: Seq<Seq<usize>>,
    garbler: bool,
    k: nat,
    i: int,
    j: int,
) -> AuthBitShare
    decreases k,
{
    let t = triples[k as int];
    let p = perms[k as int][i] as int;
    let z = z_of(t, garbler)[j * (t.n as int) + p];
    if k == 0 {
        z
    } else {
        share_xor(share_xor(folded_z(triples, perms, garbler, (k - 1) as nat, i, j), z),
            if bucket_d(triples, k as int, j) { x_of(t, garbler)[p] } else { zero_share() })
    }
}

/// `perms` holds a map of the rows `0..n` into `0..n` for each of `b` triples.
pub open spec fn row_maps_ok(perms: Seq<Seq<usize>>, b: nat, n: usize) -> bool {
    &&& perms.len() == b
    &&& forall|k: int| 0 <= k < b ==> (#[trigger] perms[k]).len() == n
    &&& forall|k: int, i: int| 0 <= k < b && 0 <= i < n ==> #[trigger] perms[k][i] < n
}

/// `p` is a permutation of `0..n`.
pub open spec fn is_permutation(p: Seq<usize>, n: usize) -> bool {
    &&& p.len() == n
    &&& forall|i: int| 0 <= i < n ==> #[trigger] p[i] < n
    &&& p.no_duplicates()
}

/// The row maps held in a vector, as sequences.
pub open spec fn row_map_views(perms: Seq<Vec<usize>>) -> Seq<Seq<usize>> {
    Seq::new(perms.len(), |k: int| perms[k]@)
}

/// The output of combining a bucket whose triple `t` had its rows permuted by
/// `perms[t]`: α is the folded `x`, β the first triple's `y`, `α·β` the folded
/// `Z`, under the bucket's keys, with no Block-form components or γ yet. It is
/// an authenticated triple when every triple of the bucket is valid, with its
/// keys' pointer bits clear when theirs are.
pub open spec fn combined_output_ok(
    r: (TensorFpreGen, TensorFpreEval),
    triples: Seq<LeakyTriple>,
    perms: Seq<Seq<usize>>,
    n: usize,
    m: usize,
    chunking_factor: usize,
) -> bool {
    &&& bucket_valid(triples) ==> auth_triple_valid(r.0, r.1)
    &&& bucket_valid(triples) && bucket_keys_clear(triples) ==> auth_triple_ok(r.0, r.1)
    &&& r.0.chunking_factor == chunking_factor
    &&& folded_shares_ok(r, triples, perms, n, m)
    &&& r.0.alpha_dev@.len() == 0
    &&& r.0.alpha_dgb@.len() == 0
    &&& r.0.beta_dev@.len() == 0
    &&& r.0.beta_dgb@.len() == 0
    &&& r.0.correlated_dev@.len() == 0
    &&& r.0.correlated_dgb@.len() == 0
    &&& r.0.gamma_auth_bit_shares@.len() == 0
    &&& r.0.gamma_dev@.len() == 0
    &&& r.0.gamma_dgb@.len() == 0
    &&& r.1.alpha_dev@.len() == 0
    &&& r.1.alpha_dgb@.len() == 0
    &&& r.1.beta_dev@.len() == 0
    &&& r.1.beta_dgb@.len() == 0
    &&& r.1.correlated_dev@.len() == 0
    &&& r.1.correlated_dgb@.len() == 0
    &&& r.1.gamma_auth_bit_shares@.len() == 0
    &&& r.1.gamma_dev@.len() == 0
    &&& r.1.gamma_dgb@.len() == 0
}

/// The authenticated bits of `r` are those of a bucket folded under `perms`:
/// α the folded `x`, β the first triple's `y`, `α·β` the folded `Z`, all
/// `n × m` under the bucket's keys.
pub open spec fn folded_shares_ok(
    r: (TensorFpreGen, TensorFpreEval),
    triples: Seq<LeakyTriple>,
    perms: Seq<Seq<usize>>,
    n: usize,
    m: usize,
) -> bool {
    let last = (triples.len() - 1) as nat;
    &&& r.0.n == n
    &&& r.0.m == m
    &&& r.0.delta_gb == triples[0].delta_gb
    &&& r.1.delta_ev == triples[0].delta_ev
    &&& r.0.alpha_auth_bit_shares@.len() == n
    &&& r.1.alpha_auth_bit_shares@.len() == n
    &&& r.0.correlated_auth_bit_shares@.len() == n * m
    &&& r.1.correlated_auth_bit_shares@.len() == n * m
    &&& forall|i: int| 0 <= i < n ==> #[trigger] r.0.alpha_auth_bit_shares@[i] == folded_x(triples, perms, true, last, i)
    &&& forall|i: int| 0 <= i < n ==> #[trigger] r.1.alpha_auth_bit_shares@[i] == folded_x(triples, perms, false, last, i)
    &&& r.0.beta_auth_bit_shares@ == triples[0].gb_y_shares@
    &&& r.1.beta_auth_bit_shares@ == triples[0].ev_y_shares@
    &&& forall|i: int, j: int| 0 <= i < n && 0 <= j < m ==> #[trigger] r.0.correlated_auth_bit_shares@[j * n + i]
        == folded_z(triples, perms, true, last, i, j)
    &&& forall|i: int, j: int| 0 <= i < n && 0 <= j < m ==> #[trigger] r.1.correlated_auth_bit_shares@[j * n + i]
        == folded_z(triples, perms, false, last, i, j)
}

/// The rows `0, 1, …, n − 1` in order.
pub open spec fn row_order(n: usize) -> Seq<usize> {
    Seq::new(n as nat, |i: int| i as usize)
}

/// The row permutations of a bucket of `b` triples combined with shuffle seed
/// `seed`: triple `t`'s rows are `0..n` shuffled from the generator seeded
/// with `seed + t` (wrapping).
pub open spec fn seeded_perms(seed: u64, b: nat, n: usize) -> Seq<Seq<usize>> {
    Seq::new(b, |t: int| seeded_shuffle_spec(seed.wrapping_add(t as u64), row_order(n)))
}

/// `0..n` shuffled from the generator seeded with `seed`: the named seeded
/// shuffle of `0..n`, and a permutation of `0..n`.
fn shuffled_permutation(n: usize, seed: u64) -> (r: Vec<usize>)
    ensures
        r@ == seeded_shuffle_spec(seed, row_order(n)),
        is_permutation(r@, n),
{
    let mut perm: Vec<usize> = Vec::with_capacity(n);
    let mut i: usize = 0;
    while i < n
        invariant
            i <= n,
            perm@.len() == i,
            forall|t: int| 0 <= t < i ==> #[trigger] perm@[t] == t,
        decreases n - i,
    {
        perm.push(i);
        i = i + 1;
    }
    let ghost before = perm@;
    proof {
        assert(before =~= row_order(n));
    }
    chacha_shuffle_seeded(&mut perm, seed);
    proof {
        broadcast use vstd::seq_lib::group_to_multiset_ensures;
        assert forall|t: int| 0 <= t < n implies #[trigger] perm@[t] < n by {
            let e = perm@[t];
            assert(perm@.contains(e));
            assert(perm@.to_multiset().count(e) > 0);
            assert(before.to_multiset().count(e) > 0);
            assert(before.contains(e));
            let w = choose|w: int| 0 <= w < before.len() && before[w] == e;
            assert(before[w] == w);
        }
        assert(before.no_duplicates());
        before.lemma_multiset_has_no_duplicates();
        perm@.lemma_multiset_has_no_duplicates_conv();
    }
    perm
}

/// Two outputs of combining one bucket under the same permutations have the
/// same authenticated bits, dimensions, keys and chunking factor, and both have
/// no Block-form components or γ.
pub proof fn lemma_combined_output_determined(
    r1: (TensorFpreGen, TensorFpreEval),
    r2: (TensorFpreGen, TensorFpreEval),
    triples: Seq<LeakyTriple>,
    perms: Seq<Seq<usize>>,
    n: usize,
    m: usize,
    chunking_factor: usize,
)
    requires
        combined_output_ok(r1, triples, perms, n, m, chunking_factor),
        combined_output_ok(r2, triples, perms, n, m, chunking_factor),
    ensures
        r1.0.n == r2.0.n,
        r1.0.m == r2.0.m,
        r1.0.chunking_factor == r2.0.chunking_factor,
        r1.0.delta_gb == r2.0.delta_gb,
        r1.1.delta_ev == r2.1.delta_ev,
        r1.0.alpha_auth_bit_shares@ == r2.0.alpha_auth_bit_shares@,
        r1.1.alpha_auth_bit_shares@ == r2.1.alpha_auth_bit_shares@,
        r1.0.beta_auth_bit_shares@ == r2.0.beta_auth_bit_shares@,
        r1.1.beta_auth_bit_shares@ == r2.1.beta_auth_bit_shares@,
        r1.0.correlated_auth_bit_shares@ == r2.0.correlated_auth_bit_shares@,
        r1.1.correlated_auth_bit_shares@ == r2.1.correlated_auth_bit_shares@,
{
    assert(r1.0.alpha_auth_bit_shares@ =~= r2.0.alpha_auth_bit_shares@);
    assert(r1.1.alpha_auth_bit_shares@ =~= r2.1.alpha_auth_bit_shares@);
    let nn = n as int;
    let last = (triples.len() - 1) as nat;
    assert forall|k: int|
        #![trigger r1.0.correlated_auth_bit_shares@[k]]
        #![trigger r1.1.correlated_auth_bit_shares@[k]]
        0 <= k < n * m implies r1.0.correlated_auth_bit_shares@[k] == r2.0.correlated_auth_bit_shares@[k]
        && r1.1.correlated_auth_bit_shares@[k] == r2.1.correlated_auth_bit_shares@[k] by {
        assert(nn > 0) by (nonlinear_arith)
            requires
                0 <= k < nn * m,
                nn >= 0,
        ;
        lemma_flat_decompose(k, nn, m as int);
        let i = k % nn;
        let j = k / nn;
        assert(r1.0.correlated_auth_bit_shares@[j * nn + i] == folded_z(triples, perms, true, last, i, j));
        assert(r2.0.correlated_auth_bit_shares@[j * nn + i] == folded_z(triples, perms, true, last, i, j));
        assert(r1.1.correlated_auth_bit_shares@[j * nn + i] == folded_z(triples, perms, false, last, i, j));
        assert(r2.1.correlated_auth_bit_shares@[j * nn + i] == folded_z(triples, perms, false, last, i, j));
    }
    assert(r1.0.correlated_auth_bit_shares@ =~= r2.0.correlated_auth_bit_shares@);
    assert(r1.1.correlated_auth_bit_shares@ =~= r2.1.correlated_auth_bit_shares@);
}

/// Combines a bucket of leaky triples: triple `t`'s `x` and `Z` rows are
/// permuted by the shuffle seeded with `shuffle_seed + t` (wrapping), then the
/// triples are folded in order with [`two_to_one_combine`]. The result is the
/// fold of the bucket under those seeded permutations, each a permutation of
/// `0..n`; so one seed gives one result.
pub fn combine_leaky_triples(
    triples: Vec<LeakyTriple>,
    bucket_size: usize,
    n: usize,
    m: usize,
    chunking_factor: usize,
    shuffle_seed: u64,
) -> (r: (TensorFpreGen, TensorFpreEval))
    requires
        triples@.len() == bucket_size,
        bucket_ok(triples@, n, m),
        n * m <= usize::MAX,
    ensures
        combined_output_ok(r, triples@, seeded_perms(shuffle_seed, bucket_size as nat, n), n, m, chunking_factor),
        forall|t: int| 0 <= t < bucket_size ==> is_permutation(
            #[trigger] seeded_perms(shuffle_seed, bucket_size as nat, n)[t],
            n,
        ),
{
    combine_leaky_triples_inner(triples, bucket_size, n, m, chunking_factor, shuffle_seed)
}

/// [`combine_leaky_triples`], also returning the bytes the reveals of `d` put
/// on the wire: `⌈m / 8⌉` per combining step, `B - 1` steps.
pub fn combine_leaky_triples_with_bytes(
    triples: Vec<LeakyTriple>,
    bucket_size: usize,
    n: usize,
    m: usize,
    chunking_factor: usize,
    shuffle_seed: u64,
) -> (r: ((TensorFpreGen, TensorFpreEval), usize))
    requires
        triples@.len() == bucket_size,
        bucket_ok(triples@, n, m),
        n * m <= usize::MAX,
        m + 7 <= usize::MAX,
        (bucket_size - 1) * ((m + 7) / 8) <= usize::MAX,
    ensures
        combined_output_ok(r.0, triples@, seeded_perms(shuffle_seed, bucket_size as nat, n), n, m, chunking_factor),
        forall|t: int| 0 <= t < bucket_size ==> is_permutation(
            #[trigger] seeded_perms(shuffle_seed, bucket_size as nat, n)[t],
            n,
        ),
        r.1 == (bucket_size - 1) * ((m + 7) / 8),
{
    let bytes_per_combine = (m + 7) / 8;
    let combines = bucket_size.saturating_sub(1);
    let comm_bytes = combines * bytes_per_combine;
    let out = combine_leaky_triples_inner(triples, bucket_size, n, m, chunking_factor, shuffle_seed);
    (out, comm_bytes)
}

fn combine_leaky_triples_inner(
    triples: Vec<LeakyTriple>,
    bucket_size: usize,
    n: usize,
    m: usize,
    chunking_factor: usize,
    shuffle_seed: u64,
) -> (r: (TensorFpreGen, TensorFpreEval))
    requires
        triples@.len() == bucket_size,
        bucket_ok(triples@, n, m),
        n * m <= usize::MAX,
    ensures
        combined_output_ok(r, triples@, seeded_perms(shuffle_seed, bucket_size as nat, n), n, m, chunking_factor),
        forall|t: int| 0 <= t < bucket_size ==> is_permutation(
            #[trigger] seeded_perms(shuffle_seed, bucket_size as nat, n)[t],
            n,
        ),
{
    let mut perms: Vec<Vec<usize>> = Vec::with_capacity(bucket_size);
    let mut j: usize = 0;
    while j < bucket_size
        invariant
            j <= bucket_size,
            perms@.len() == j,
            forall|k: int| 0 <= k < j ==> is_permutation(#[trigger] perms@[k]@, n),
            forall|k: int| 0 <= k < j ==> #[trigger] perms@[k]@ == seeded_shuffle_spec(
                shuffle_seed.wrapping_add(k as u64),
                row_order(n),
            ),
        decreases bucket_size - j,
    {
        let p = shuffled_permutation(n, shuffle_seed.wrapping_add(j as u64));
        perms.push(p);
        j = j + 1;
    }
    let ghost pv = row_map_views(perms@);
    proof {
        assert forall|k: int| 0 <= k < bucket_size implies is_permutation(#[trigger] pv[k], n) by {
            assert(pv[k] == perms@[k]@);
        }
        assert forall|k: int, i: int| 0 <= k < bucket_size && 0 <= i < n implies #[trigger] pv[k][i] < n by {
            assert(is_permutation(pv[k], n));
        }
    }
    let ghost orig = triples@;
    let r = combine_with_permutations(triples, &perms, n, m, chunking_factor);
    proof {
        assert(pv =~= seeded_perms(shuffle_seed, bucket_size as nat, n));
    }
    r
}

/// Combines a bucket of leaky triples under given row maps: triple `t`'s `x`
/// and `Z` rows are permuted by `perms[t]`, then the triples are folded in
/// order with [`two_to_one_combine`].
pub fn combine_with_permutations(
    triples: Vec<LeakyTriple>,
    perms: &Vec<Vec<usize>>,
    n: usize,
    m: usize,
    chunking_factor: usize,
) -> (r: (TensorFpreGen, TensorFpreEval))
    requires
        bucket_ok(triples@, n, m),
        row_maps_ok(row_map_views(perms@), triples@.len(), n),
        n * m <= usize::MAX,
    ensures
        combined_output_ok(r, triples@, row_map_views(perms@), n, m, chunking_factor),
{
    let ghost orig = triples@;
    let ghost pv = row_map_views(perms@);
    let bucket_size = triples.len();
    let mut triples = triples;
    let mut acc = triples.remove(0);
    proof {
        assert(pv[0] == perms@[0]@);
        assert(triple_shape_ok(orig[0]));
    }
    apply_permutation_to_triple(&mut acc, perms[0].as_slice());
    proof {
        assert forall|i: int| 0 <= i < n implies #[trigger] acc.gb_x_shares@[i] == folded_x(orig, pv, true, 0, i)
            && acc.ev_x_shares@[i] == folded_x(orig, pv, false, 0, i) by {}
        assert forall|i: int, jj: int| 0 <= i < n && 0 <= jj < m implies #[trigger] acc.gb_z_shares@[jj * n + i]
            == folded_z(orig, pv, true, 0, i, jj) && acc.ev_z_shares@[jj * n + i] == folded_z(
            orig,
            pv,
            false,
            0,
            i,
            jj,
        ) by {}
        assert(orig.subrange(1, bucket_size as int) =~= triples@);
    }
    let mut j: usize = 1;
    while j < bucket_size
        invariant
            1 <= j <= bucket_size,
            bucket_size == orig.len(),
            bucket_ok(orig, n, m),
            row_maps_ok(pv, orig.len(), n),
            pv == row_map_views(perms@),
            n * m <= usize::MAX,
            triples@ == orig.subrange(j as int, bucket_size as int),
            triple_shape_ok(acc),
            (forall|t: int| 0 <= t < j ==> leaky_triple_valid(#[trigger] orig[t])) ==> leaky_triple_valid(acc),
            acc.n == n,
            acc.m == m,
            acc.delta_gb == orig[0].delta_gb,
            acc.delta_ev == orig[0].delta_ev,
            acc.gb_y_shares@ == orig[0].gb_y_shares@,
            acc.ev_y_shares@ == orig[0].ev_y_shares@,
            (forall|t: int| 0 <= t < j ==> triple_keys_clear(#[trigger] orig[t])) ==> triple_keys_clear(acc),
            forall|i: int| 0 <= i < n ==> #[trigger] acc.gb_x_shares@[i] == folded_x(orig, pv, true, (j - 1) as nat, i),
            forall|i: int| 0 <= i < n ==> #[trigger] acc.ev_x_shares@[i] == folded_x(orig, pv, false, (j - 1) as nat, i),
            forall|i: int, jj: int| 0 <= i < n && 0 <= jj < m ==> #[trigger] acc.gb_z_shares@[jj * n + i] == folded_z(
                orig,
                pv,
                true,
                (j - 1) as nat,
                i,
                jj,
            ),
            forall|i: int, jj: int| 0 <= i < n && 0 <= jj < m ==> #[trigger] acc.ev_z_shares@[jj * n + i] == folded_z(
                orig,
                pv,
                false,
                (j - 1) as nat,
                i,
                jj,
            ),
        decreases bucket_size - j,
    {
        assert(orig[j as int] == triples@[0]);
        let mut t = triples.remove(0);
        proof {
            assert(pv[j as int] == perms@[j as int]@);
            assert(triple_shape_ok(orig[j as int]));
        }
        apply_permutation_to_triple(&mut t, perms[j].as_slice());
        let ghost prev = acc;
        proof {
            assert(reveal_ok(orig[0], orig[j as int]));
            assert(reveal_ok(acc, t));
        }
        acc = two_to_one_combine(acc, &t);
        proof {
            let k = j as nat;
            let o = orig[j as int];
            let p = pv[j as int];
            assert forall|i: int| 0 <= i < n implies #[trigger] acc.gb_x_shares@[i] == folded_x(orig, pv, true, k, i)
                && acc.ev_x_shares@[i] == folded_x(orig, pv, false, k, i) by {
                assert(t.gb_x_shares@[i] == o.gb_x_shares@[p[i] as int]);
                assert(t.ev_x_shares@[i] == o.ev_x_shares@[p[i] as int]);
                assert(prev.gb_x_shares@[i] == folded_x(orig, pv, true, (k - 1) as nat, i));
                assert(prev.ev_x_shares@[i] == folded_x(orig, pv, false, (k - 1) as nat, i));
            }
            assert forall|i: int, jj: int| 0 <= i < n && 0 <= jj < m implies #[trigger] acc.gb_z_shares@[jj * n + i]
                == folded_z(orig, pv, true, k, i, jj) && acc.ev_z_shares@[jj * n + i] == folded_z(
                orig,
                pv,
                false,
                k,
                i,
                jj,
            ) by {
                assert(t.gb_x_shares@[i] == o.gb_x_shares@[p[i] as int]);
                assert(t.ev_x_shares@[i] == o.ev_x_shares@[p[i] as int]);
                assert(t.gb_z_shares@[jj * n + i] == o.gb_z_shares@[jj * n + p[i]]);
                assert(t.ev_z_shares@[jj * n + i] == o.ev_z_shares@[jj * n + p[i]]);
                assert(prev.gb_z_shares@[jj * n + i] == folded_z(orig, pv, true, (k - 1) as nat, i, jj));
                assert(prev.ev_z_shares@[jj * n + i] == folded_z(orig, pv, false, (k - 1) as nat, i, jj));
                assert(combine_d(prev, t, jj) == bucket_d(orig, j as int, jj));
            }
            if (forall|t2: int| 0 <= t2 < j + 1 ==> triple_keys_clear(#[trigger] orig[t2])) {
                assert(triple_keys_clear(orig[j as int]));
                assert(forall|t2: int| 0 <= t2 < j ==> triple_keys_clear(#[trigger] orig[t2]));
            }
            if (forall|t2: int| 0 <= t2 < j + 1 ==> leaky_triple_valid(#[trigger] orig[t2])) {
                assert(leaky_triple_valid(orig[j as int]));
                assert(forall|t2: int| 0 <= t2 < j ==> leaky_triple_valid(#[trigger] orig[t2]));
            }
        }
        j = j + 1;
        proof {
            assert(triples@ =~= orig.subrange(j as int, bucket_size as int));
        }
    }
    let delta_gb = acc.delta_gb;
    let delta_ev = acc.delta_ev;
    let r = (
        TensorFpreGen {
            n,
            m,
            chunking_factor,
            delta_gb,
            alpha_auth_bit_shares: acc.gb_x_shares,
            alpha_dev: Vec::new(),
            alpha_dgb: Vec::new(),
            beta_auth_bit_shares: acc.gb_y_shares,
            beta_dev: Vec::new(),
            beta_dgb: Vec::new(),
            correlated_auth_bit_shares: acc.gb_z_shares,
            correlated_dev: Vec::new(),
            correlated_dgb: Vec::new(),
            gamma_auth_bit_shares: Vec::new(),
            gamma_dev: Vec::new(),
            gamma_dgb: Vec::new(),
        },
        TensorFpreEval {
            n,
            m,
            chunking_factor,
            delta_ev,
            alpha_auth_bit_shares: acc.ev_x_shares,
            alpha_dev: Vec::new(),
            alpha_dgb: Vec::new(),
            beta_auth_bit_shares: acc.ev_y_shares,
            beta_dev: Vec::new(),
            beta_dgb: Vec::new(),
            correlated_auth_bit_shares: acc.ev_z_shares,
            correlated_dev: Vec::new(),
            correlated_dgb: Vec::new(),
            gamma_auth_bit_shares: Vec::new(),
            gamma_dev: Vec::new(),
            gamma_dgb: Vec::new(),
        },
    );
    r
}

/// `r` is the fold of `prime` and `dprime` (flat form of the combining step).
pub open spec fn combined_from(prime: LeakyTriple, dprime: LeakyTriple, r: LeakyTriple) -> bool {
    &&& triple_shape_ok(prime)
    &&& triple_shape_ok(dprime)
    &&& prime.n == dprime.n
    &&& prime.m == dprime.m
    &&& prime.delta_gb == dprime.delta_gb
    &&& prime.delta_ev == dprime.delta_ev
    &&& r.n == prime.n
    &&& r.m == prime.m
    &&& r.delta_gb == prime.delta_gb
    &&& r.delta_ev == prime.delta_ev
    &&& r.gb_x_shares@.len() == prime.n
    &&& r.ev_x_shares@.len() == prime.n
    &&& (forall|i: int| 0 <= i < prime.n ==> #[trigger] r.gb_x_shares@[i] == share_xor(prime.gb_x_shares@[i],
        dprime.gb_x_shares@[i]))
    &&& (forall|i: int| 0 <= i < prime.n ==> #[trigger] r.ev_x_shares@[i] == share_xor(prime.ev_x_shares@[i],
        dprime.ev_x_shares@[i]))
    &&& r.gb_y_shares@ == prime.gb_y_shares@
    &&& r.ev_y_shares@ == prime.ev_y_shares@
    &&& r.gb_z_shares@.len() == prime.n * prime.m
    &&& r.ev_z_shares@.len() == prime.n * prime.m
    &&& (forall|t: int| 0 <= t < prime.n * prime.m ==> #[trigger] r.gb_z_shares@[t] == share_xor(share_xor(
        prime.gb_z_shares@[t], dprime.gb_z_shares@[t]), if combine_d(prime, dprime, t / (prime.n as int)) {
        dprime.gb_x_shares@[t % (prime.n as int)]
    } else {
        zero_share()
    }))
    &&& (forall|t: int| 0 <= t < prime.n * prime.m ==> #[trigger] r.ev_z_shares@[t] == share_xor(share_xor(
        prime.ev_z_shares@[t], dprime.ev_z_shares@[t]), if combine_d(prime, dprime, t / (prime.n as int)) {
        dprime.ev_x_shares@[t % (prime.n as int)]
    } else {
        zero_share()
    }))
}

/// Entry `(i, j)` of a combined triple: its shares in `(i, j)` form, and it is
/// an authenticated bit equal to `x_i · y_j`.
proof fn lemma_combine_entry(prime: LeakyTriple, dprime: LeakyTriple, r: LeakyTriple, i: int, j: int)
    requires
        combined_from(prime, dprime, r),
        0 <= i < prime.n,
        0 <= j < prime.m,
    ensures
        r.gb_z_shares@[j * prime.n + i] == share_xor(share_xor(prime.gb_z_shares@[j * prime.n + i],
            dprime.gb_z_shares@[j * prime.n + i]), if combine_d(prime, dprime, j) {
            dprime.gb_x_shares@[i]
        } else {
            zero_share()
        }),
        r.ev_z_shares@[j * prime.n + i] == share_xor(share_xor(prime.ev_z_shares@[j * prime.n + i],
            dprime.ev_z_shares@[j * prime.n + i]), if combine_d(prime, dprime, j) {
            dprime.ev_x_shares@[i]
        } else {
            zero_share()
        }),
        leaky_triple_valid(prime) && leaky_triple_valid(dprime) ==> {
            &&& cross_valid(r.gb_z_shares@[j * prime.n + i], r.ev_z_shares@[j * prime.n + i], prime.delta_gb@,
                prime.delta_ev@)
            &&& full_bit_at(r.gb_z_shares@, r.ev_z_shares@, j * prime.n + i) == (full_bit_at(r.gb_x_shares@,
                r.ev_x_shares@, i) && full_bit_at(r.gb_y_shares@, r.ev_y_shares@, j))
        },
{
    let n = prime.n as int;
    let m = prime.m as int;
    let dgb = prime.delta_gb@;
    let dev = prime.delta_ev@;
    let z = zero_share();
    let k = j * n + i;
    lemma_flat_compose(i, j, n);
    assert(0 <= k < n * m) by (nonlinear_arith)
        requires
            0 <= i < n,
            0 <= j < m,
            k == j * n + i,
    ;
    assert(r.gb_z_shares@[k] == share_xor(share_xor(prime.gb_z_shares@[k], dprime.gb_z_shares@[k]),
        if combine_d(prime, dprime, k / n) { dprime.gb_x_shares@[k % n] } else { z }));
    assert(r.ev_z_shares@[k] == share_xor(share_xor(prime.ev_z_shares@[k], dprime.ev_z_shares@[k]),
        if combine_d(prime, dprime, k / n) { dprime.ev_x_shares@[k % n] } else { z }));
    if leaky_triple_valid(prime) && leaky_triple_valid(dprime) {
        let pg = prime.gb_z_shares@[k];
        let pe = prime.ev_z_shares@[k];
        let dg = dprime.gb_z_shares@[k];
        let de = dprime.ev_z_shares@[k];
        assert(cross_valid(pg, pe, dgb, dev));
        assert(cross_valid(dg, de, dgb, dev));
        lemma_add_cross_valid(pg, pe, dg, de, dgb, dev);
        assert(cross_valid(z, z, dgb, dev));
        assert(cross_valid(dprime.gb_x_shares@[i], dprime.ev_x_shares@[i], dgb, dev));
        let xg = if combine_d(prime, dprime, j) { dprime.gb_x_shares@[i] } else { z };
        let xe = if combine_d(prime, dprime, j) { dprime.ev_x_shares@[i] } else { z };
        lemma_add_cross_valid(share_xor(pg, dg), share_xor(pe, de), xg, xe, dgb, dev);
        assert(full_bit_at(prime.gb_z_shares@, prime.ev_z_shares@, j * n + i) == (full_bit_at(prime.gb_x_shares@,
            prime.ev_x_shares@, i) && full_bit_at(prime.gb_y_shares@, prime.ev_y_shares@, j)));
        assert(full_bit_at(dprime.gb_z_shares@, dprime.ev_z_shares@, j * n + i) == (full_bit_at(dprime.gb_x_shares@,
            dprime.ev_x_shares@, i) && full_bit_at(dprime.gb_y_shares@, dprime.ev_y_shares@, j)));
        assert(r.gb_x_shares@[i] == share_xor(prime.gb_x_shares@[i], dprime.gb_x_shares@[i]));
        assert(r.ev_x_shares@[i] == share_xor(prime.ev_x_shares@[i], dprime.ev_x_shares@[i]));
    }
}

/// The shares of every entry `(i, j)` of a combined triple, in `(i, j)` form.
proof fn lemma_combine_entries(prime: LeakyTriple, dprime: LeakyTriple, r: LeakyTriple)
    requires
        combined_from(prime, dprime, r),
    ensures
        forall|i: int, j: int| 0 <= i < prime.n && 0 <= j < prime.m ==> #[trigger] r.gb_z_shares@[j * prime.n + i]
            == share_xor(share_xor(prime.gb_z_shares@[j * prime.n + i], dprime.gb_z_shares@[j * prime.n + i]),
            if combine_d(prime, dprime, j) { dprime.gb_x_shares@[i] } else { zero_share() }),
        forall|i: int, j: int| 0 <= i < prime.n && 0 <= j < prime.m ==> #[trigger] r.ev_z_shares@[j * prime.n + i]
            == share_xor(share_xor(prime.ev_z_shares@[j * prime.n + i], dprime.ev_z_shares@[j * prime.n + i]),
            if combine_d(prime, dprime, j) { dprime.ev_x_shares@[i] } else { zero_share() }),
{
    let n = prime.n as int;
    assert forall|i: int, j: int|
        #![trigger r.gb_z_shares@[j * n + i]]
        #![trigger r.ev_z_shares@[j * n + i]]
        0 <= i < n && 0 <= j < prime.m implies {
        &&& r.gb_z_shares@[j * n + i] == share_xor(share_xor(prime.gb_z_shares@[j * n + i],
            dprime.gb_z_shares@[j * n + i]), if combine_d(prime, dprime, j) {
            dprime.gb_x_shares@[i]
        } else {
            zero_share()
        })
        &&& r.ev_z_shares@[j * n + i] == share_xor(share_xor(prime.ev_z_shares@[j * n + i],
            dprime.ev_z_shares@[j * n + i]), if combine_d(prime, dprime, j) {
            dprime.ev_x_shares@[i]
        } else {
            zero_share()
        })
    } by {
        lemma_combine_entry(prime, dprime, r, i, j);
    }
}

/// The combined triple is a valid triple: XORs of cross-party authenticated
/// bits stay authenticated, and `x'_i y'_j ⊕ x''_i y''_j ⊕ x''_i d_j = x_i y_j`.
proof fn lemma_combine_valid(prime: LeakyTriple, dprime: LeakyTriple, r: LeakyTriple)
    requires
        combined_from(prime, dprime, r),
        leaky_triple_valid(prime),
        leaky_triple_valid(dprime),
    ensures
        leaky_triple_valid(r),
        forall|i: int, j: int| 0 <= i < prime.n && 0 <= j < prime.m ==> #[trigger] r.gb_z_shares@[j * prime.n + i]
            == share_xor(share_xor(prime.gb_z_shares@[j * prime.n + i], dprime.gb_z_shares@[j * prime.n + i]),
            if combine_d(prime, dprime, j) { dprime.gb_x_shares@[i] } else { zero_share() }),
        forall|i: int, j: int| 0 <= i < prime.n && 0 <= j < prime.m ==> #[trigger] r.ev_z_shares@[j * prime.n + i]
            == share_xor(share_xor(prime.ev_z_shares@[j * prime.n + i], dprime.ev_z_shares@[j * prime.n + i]),
            if combine_d(prime, dprime, j) { dprime.ev_x_shares@[i] } else { zero_share() }),
{
    let n = prime.n as int;
    let m = prime.m as int;
    let dgb = prime.delta_gb@;
    let dev = prime.delta_ev@;
    assert forall|i: int|
        #![trigger r.gb_x_shares@[i]]
        #![trigger r.ev_x_shares@[i]]
        0 <= i < n implies cross_valid(r.gb_x_shares@[i], r.ev_x_shares@[i], dgb, dev) by {
        assert(r.gb_x_shares@[i] == share_xor(prime.gb_x_shares@[i], dprime.gb_x_shares@[i]));
        assert(r.ev_x_shares@[i] == share_xor(prime.ev_x_shares@[i], dprime.ev_x_shares@[i]));
        assert(cross_valid(prime.gb_x_shares@[i], prime.ev_x_shares@[i], dgb, dev));
        assert(cross_valid(dprime.gb_x_shares@[i], dprime.ev_x_shares@[i], dgb, dev));
        lemma_add_cross_valid(prime.gb_x_shares@[i], prime.ev_x_shares@[i], dprime.gb_x_shares@[i],
            dprime.ev_x_shares@[i], dgb, dev);
    }
    assert forall|i: int, j: int|
        #![trigger r.gb_z_shares@[j * n + i]]
        #![trigger r.ev_z_shares@[j * n + i]]
        #![trigger full_bit_at(r.gb_z_shares@, r.ev_z_shares@, j * n + i)]
        0 <= i < n && 0 <= j < m implies {
        &&& r.gb_z_shares@[j * n + i] == share_xor(share_xor(prime.gb_z_shares@[j * n + i],
            dprime.gb_z_shares@[j * n + i]), if combine_d(prime, dprime, j) {
            dprime.gb_x_shares@[i]
        } else {
            zero_share()
        })
        &&& r.ev_z_shares@[j * n + i] == share_xor(share_xor(prime.ev_z_shares@[j * n + i],
            dprime.ev_z_shares@[j * n + i]), if combine_d(prime, dprime, j) {
            dprime.ev_x_shares@[i]
        } else {
            zero_share()
        })
        &&& full_bit_at(r.gb_z_shares@, r.ev_z_shares@, j * n + i) == (full_bit_at(r.gb_x_shares@,
            r.ev_x_shares@, i) && full_bit_at(r.gb_y_shares@, r.ev_y_shares@, j))
    } by {
        lemma_combine_entry(prime, dprime, r, i, j);
    }
    assert forall|k: int|
        #![trigger r.gb_z_shares@[k]]
        #![trigger r.ev_z_shares@[k]]
        0 <= k < n * m implies cross_valid(r.gb_z_shares@[k], r.ev_z_shares@[k], dgb, dev) by {
        lemma_flat_decompose(k, n, m);
        lemma_combine_entry(prime, dprime, r, k % n, k / n);
    }
    assert(auth_pairs_valid(r.gb_z_shares@, r.ev_z_shares@, (r.n * r.m) as nat, dgb, dev));
}

/// XORs of shares whose keys have clear pointer bits have clear pointer bits,
/// so a combined triple has its keys' pointer bits clear when both inputs' are.
proof fn lemma_combine_keys_clear(prime: LeakyTriple, dprime: LeakyTriple, r: LeakyTriple)
    requires
        combined_from(prime, dprime, r),
        triple_keys_clear(prime),
        triple_keys_clear(dprime),
    ensures
        triple_keys_clear(r),
{
    let n = prime.n as int;
    let m = prime.m as int;
    lemma_lsb_mul_bool(0u128, false);
    assert(!lsb_of(zero_share().key@));
    assert forall|i: int| 0 <= i < r.gb_x_shares@.len() implies !lsb_of((#[trigger] r.gb_x_shares@[i]).key@) by {
        assert(!lsb_of(prime.gb_x_shares@[i].key@) && !lsb_of(dprime.gb_x_shares@[i].key@));
    }
    assert forall|i: int| 0 <= i < r.ev_x_shares@.len() implies !lsb_of((#[trigger] r.ev_x_shares@[i]).key@) by {
        assert(!lsb_of(prime.ev_x_shares@[i].key@) && !lsb_of(dprime.ev_x_shares@[i].key@));
    }
    assert forall|k: int| 0 <= k < r.gb_z_shares@.len() implies !lsb_of((#[trigger] r.gb_z_shares@[k]).key@) by {
        lemma_flat_decompose(k, n, m);
        assert(!lsb_of(prime.gb_z_shares@[k].key@) && !lsb_of(dprime.gb_z_shares@[k].key@));
        assert(!lsb_of(dprime.gb_x_shares@[k % n].key@));
    }
    assert forall|k: int| 0 <= k < r.ev_z_shares@.len() implies !lsb_of((#[trigger] r.ev_z_shares@[k]).key@) by {
        lemma_flat_decompose(k, n, m);
        assert(!lsb_of(prime.ev_z_shares@[k].key@) && !lsb_of(dprime.ev_z_shares@[k].key@));
        assert(!lsb_of(dprime.ev_x_shares@[k % n].key@));
    }
}

/// The bucket size `B = 1 + ⌈SSP / ⌊log2(n·ℓ)⌋⌉` for `n·ℓ ≥ 2` (the product
/// saturating at `usize::MAX`), and `SSP` when `n·ℓ ≤ 1`.
pub open spec fn bucket_size_spec(n: usize, ell: usize) -> nat {
    let product: nat = if n * ell <= usize::MAX { (n * ell) as nat } else { usize::MAX as nat };
    if product <= 1 {
        SSP as nat
    } else {
        1 + (SSP + log2_floor(product) - 1) as nat / log2_floor(product)
    }
}

/// `⌊log2 p⌋` for `p ≥ 1` (0 for `p ≤ 1`).
pub open spec fn log2_floor(p: nat) -> nat
    decreases p,
{
    if p <= 1 {
        0
    } else {
        1 + log2_floor(p / 2)
    }
}

/// Computes the bucket size for `ell` output triples of `n` rows (see
/// [`bucket_size_spec`]).
pub fn bucket_size_for(n: usize, ell: usize) -> (r: usize)
    ensures
        r == bucket_size_spec(n, ell),
        n * ell <= 1 ==> r == SSP,
        forall|l: nat| 2 <= n * ell <= usize::MAX && #[trigger] pow2(l) <= n * ell < pow2(l + 1) ==> {
            &&& l >= 1
            &&& r == 1 + (SSP + l - 1) as nat / l
        },
{
    proof {
        lemma_bucket_size_law(n, ell, 0);
        assert forall|l: nat| 2 <= n * ell <= usize::MAX && #[trigger] pow2(l) <= n * ell < pow2(l + 1) implies {
            &&& l >= 1
            &&& bucket_size_spec(n, ell) == 1 + (SSP + l - 1) as nat / l
        } by {
            lemma_bucket_size_law(n, ell, l);
        }
    }
    let product: usize = match n.checked_mul(ell) {
        Some(p) => p,
        None => usize::MAX,
    };
    if product <= 1 {
        return SSP;
    }
    let mut v = product;
    let mut log2_p: usize = 0;
    proof {
        lemma2_to64();
    }
    while v > 1
        invariant
            1 <= v <= product,
            product >= 2,
            log2_p + log2_floor(v as nat) == log2_floor(product as nat),
            pow2(log2_p as nat) * v <= product,
            v < product ==> log2_p >= 1,
            log2_p <= 64,
        decreases v,
    {
        proof {
            assert(log2_floor(v as nat) == 1 + log2_floor((v / 2) as nat));
            lemma_pow2_unfold((log2_p + 1) as nat);
            assert(pow2((log2_p + 1) as nat) * (v / 2) <= pow2(log2_p as nat) * v) by (nonlinear_arith)
                requires
                    pow2((log2_p + 1) as nat) == 2 * pow2(log2_p as nat),
                    v >= 2,
            ;
            assert(log2_p < 64) by {
                lemma_pow2_bound(log2_p as nat, v as nat, product as nat);
            }
        }
        v = v / 2;
        log2_p = log2_p + 1;
    }
    1 + (SSP + log2_p - 1) / log2_p
}

/// `⌊log2 p⌋` is the exponent `l` with `2^l ≤ p < 2^(l+1)`.
pub proof fn lemma_log2_floor_bracket(p: nat, l: nat)
    requires
        pow2(l) <= p < pow2(l + 1),
    ensures
        log2_floor(p) == l,
    decreases l,
{
    lemma_pow2_unfold(l + 1);
    if l == 0 {
        lemma2_to64();
    } else {
        lemma_pow2_unfold(l);
        assert(pow2(l) == 2 * pow2((l - 1) as nat));
        assert(p >= 2) by {
            lemma_pow2_pos((l - 1) as nat);
        }
        assert(pow2((l - 1) as nat) <= p / 2 < pow2(l));
        lemma_log2_floor_bracket(p / 2, (l - 1) as nat);
        assert(((l - 1) as nat + 1) == l);
    }
}

/// The bucket size for `ell` triples of `n` rows: with `p = n·ℓ` (saturating
/// at `usize::MAX`) and `l` the exponent with `2^l ≤ p < 2^(l+1)`, the bucket
/// holds `1 + ⌈SSP / l⌉` triples: `B − 1` is the least count whose product
/// with `l` reaches `SSP`. With `p ≤ 1` it holds `SSP` triples.
pub proof fn lemma_bucket_size_law(n: usize, ell: usize, l: nat)
    ensures
        ({
            let p: nat = if n * ell <= usize::MAX { (n * ell) as nat } else { usize::MAX as nat };
            &&& p <= 1 ==> bucket_size_spec(n, ell) == SSP
            &&& (p >= 2 && pow2(l) <= p < pow2(l + 1)) ==> {
                &&& l >= 1
                &&& bucket_size_spec(n, ell) == 1 + (SSP + l - 1) as nat / l
                &&& (bucket_size_spec(n, ell) - 1) * l >= SSP
                &&& (bucket_size_spec(n, ell) - 2) * l < SSP
            }
        }),
{
    let p: nat = if n * ell <= usize::MAX { (n * ell) as nat } else { usize::MAX as nat };
    if p >= 2 && pow2(l) <= p < pow2(l + 1) {
        lemma_log2_floor_bracket(p, l);
        if l == 0 {
            lemma2_to64();
            lemma_pow2_unfold(1);
        }
        assert(l >= 1);
        let q: nat = (SSP + l - 1) as nat / l;
        assert(q * l <= (SSP + l - 1) as nat) by (nonlinear_arith)
            requires
                q == (SSP + l - 1) as nat / l,
                l >= 1,
        ;
        assert(q * l > (SSP + l - 1) as nat - l) by (nonlinear_arith)
            requires
                q == (SSP + l - 1) as nat / l,
                l >= 1,
        ;
        assert(q * l >= SSP);
        assert((q - 1) * l < SSP) by (nonlinear_arith)
            requires
                q * l <= (SSP + l - 1) as nat,
                l >= 1,
        ;
    }
}

/// `2^e · v ≤ p < 2^64` with `v ≥ 1` bounds `e` below 64.
proof fn lemma_pow2_bound(e: nat, v: nat, p: nat)
    requires
        v >= 1,
        pow2(e) * v <= p,
        p <= usize::MAX,
    ensures
        e < 64,
{
    lemma2_to64();
    if e >= 64 {
        if e > 64 {
            lemma_pow2_strictly_increases(64, e);
        }
        assert(pow2(e) * v >= pow2(e)) by (nonlinear_arith)
            requires
                v >= 1,
        ;
    }
}

/// Checks that both parties use the same chunking factor; the two must agree.
pub fn verify_chunking_factor_cross_party(fpre_gen: &TensorFpreGen, fpre_eval: &TensorFpreEval)
    requires
        fpre_gen.chunking_factor == fpre_eval.chunking_factor,
{
}

/// A triple with the same dimensions, keys and `y` shares whose `x` rows and
/// `Z` rows are permuted by `perm`: `x[i] ← x[perm[i]]` and, in every column
/// `j`, `Z[j·n + i] ← Z[j·n + perm[i]]`.
pub fn apply_permutation_to_triple(triple: &mut LeakyTriple, perm: &[usize])
    requires
        perm@.len() == old(triple).n,
        forall|i: int| 0 <= i < perm@.len() ==> #[trigger] perm@[i] < old(triple).n,
        old(triple).gb_x_shares@.len() == old(triple).n,
        old(triple).ev_x_shares@.len() == old(triple).n,
        old(triple).gb_z_shares@.len() == old(triple).n * old(triple).m,
        old(triple).ev_z_shares@.len() == old(triple).n * old(triple).m,
        old(triple).n * old(triple).m <= usize::MAX,
    ensures
        final(triple).n == old(triple).n,
        final(triple).m == old(triple).m,
        final(triple).delta_gb == old(triple).delta_gb,
        final(triple).delta_ev == old(triple).delta_ev,
        final(triple).gb_y_shares == old(triple).gb_y_shares,
        final(triple).ev_y_shares == old(triple).ev_y_shares,
        final(triple).gb_x_shares@.len() == old(triple).n,
        final(triple).ev_x_shares@.len() == old(triple).n,
        final(triple).gb_z_shares@.len() == old(triple).n * old(triple).m,
        final(triple).ev_z_shares@.len() == old(triple).n * old(triple).m,
        forall|i: int| 0 <= i < old(triple).n ==> #[trigger] final(triple).gb_x_shares@[i]
            == old(triple).gb_x_shares@[perm@[i] as int],
        forall|i: int| 0 <= i < old(triple).n ==> #[trigger] final(triple).ev_x_shares@[i]
            == old(triple).ev_x_shares@[perm@[i] as int],
        forall|i: int, j: int| 0 <= i < old(triple).n && 0 <= j < old(triple).m ==>
            #[trigger] final(triple).gb_z_shares@[j * old(triple).n + i]
            == old(triple).gb_z_shares@[j * old(triple).n + perm@[i]],
        forall|i: int, j: int| 0 <= i < old(triple).n && 0 <= j < old(triple).m ==>
            #[trigger] final(triple).ev_z_shares@[j * old(triple).n + i]
            == old(triple).ev_z_shares@[j * old(triple).n + perm@[i]],
        triple_shape_ok(*old(triple)) ==> triple_shape_ok(*final(triple)),
        leaky_triple_valid(*old(triple)) ==> leaky_triple_valid(*final(triple)),
        triple_keys_clear(*old(triple)) ==> triple_keys_clear(*final(triple)),
{
    let ghost before = *triple;
    let n = triple.n;
    let m = triple.m;
    let mut gen_x: Vec<AuthBitShare> = Vec::with_capacity(n);
    let mut eval_x: Vec<AuthBitShare> = Vec::with_capacity(n);
    let mut i: usize = 0;
    while i < n
        invariant
            i <= n,
            n == before.n,
            *triple == before,
            perm@.len() == n,
            forall|t: int| 0 <= t < n ==> #[trigger] perm@[t] < n,
            before.gb_x_shares@.len() == n,
            before.ev_x_shares@.len() == n,
            gen_x@.len() == i,
            eval_x@.len() == i,
            forall|t: int| 0 <= t < i ==> #[trigger] gen_x@[t] == before.gb_x_shares@[perm@[t] as int],
            forall|t: int| 0 <= t < i ==> #[trigger] eval_x@[t] == before.ev_x_shares@[perm@[t] as int],
        decreases n - i,
    {
        gen_x.push(triple.gb_x_shares[perm[i]]);
        eval_x.push(triple.ev_x_shares[perm[i]]);
        i = i + 1;
    }
    let nm = n * m;
    let mut gen_z: Vec<AuthBitShare> = Vec::with_capacity(nm);
    let mut eval_z: Vec<AuthBitShare> = Vec::with_capacity(nm);
    let mut k: usize = 0;
    while k < nm
        invariant
            k <= nm,
            nm == n * m,
            n == before.n,
            m == before.m,
            *triple == before,
            perm@.len() == n,
            forall|t: int| 0 <= t < n ==> #[trigger] perm@[t] < n,
            before.gb_z_shares@.len() == nm,
            before.ev_z_shares@.len() == nm,
            gen_z@.len() == k,
            eval_z@.len() == k,
            forall|t: int| 0 <= t < k ==> #[trigger] gen_z@[t] == before.gb_z_shares@[(t / (n as int)) * n
                + perm@[t % (n as int)]],
            forall|t: int| 0 <= t < k ==> #[trigger] eval_z@[t] == before.ev_z_shares@[(t / (n as int)) * n
                + perm@[t % (n as int)]],
        decreases nm - k,
    {
        proof {
            lemma_flat_decompose(k as int, n as int, m as int);
        }
        let i = k % n;
        let j = k / n;
        proof {
            assert(j * n + perm@[i as int] < nm) by (nonlinear_arith)
                requires
                    j < m,
                    perm@[i as int] < n,
                    nm == n * m,
            ;
        }
        let src = j * n + perm[i];
        gen_z.push(triple.gb_z_shares[src]);
        eval_z.push(triple.ev_z_shares[src]);
        k = k + 1;
    }
    triple.gb_x_shares = gen_x;
    triple.ev_x_shares = eval_x;
    triple.gb_z_shares = gen_z;
    triple.ev_z_shares = eval_z;
    proof {
        let t = *triple;
        assert(permuted_from(before, t, perm@));
        assert forall|i: int, j: int|
            #![trigger t.gb_z_shares@[j * n + i]]
            #![trigger t.ev_z_shares@[j * n + i]]
            0 <= i < n && 0 <= j < m implies {
            &&& t.gb_z_shares@[j * n + i] == before.gb_z_shares@[j * n + perm@[i]]
            &&& t.ev_z_shares@[j * n + i] == before.ev_z_shares@[j * n + perm@[i]]
        } by {
            lemma_permuted_entry(before, t, perm@, i, j);
        }
        if leaky_triple_valid(before) {
            lemma_permuted_valid(before, t, perm@);
        }
        if triple_keys_clear(before) {
            lemma_permuted_keys_clear(before, t, perm@);
        }
    }
}

/// `t` is `before` with its `x` rows and `Z` rows permuted by `perm`.
pub open spec fn permuted_from(before: LeakyTriple, t: LeakyTriple, perm: Seq<usize>) -> bool {
    &&& t.n == before.n
    &&& t.m == before.m
    &&& t.delta_gb == before.delta_gb
    &&& t.delta_ev == before.delta_ev
    &&& t.gb_y_shares == before.gb_y_shares
    &&& t.ev_y_shares == before.ev_y_shares
    &&& t.gb_x_shares@.len() == before.n
    &&& t.ev_x_shares@.len() == before.n
    &&& t.gb_z_shares@.len() == before.n * before.m
    &&& t.ev_z_shares@.len() == before.n * before.m
    &&& perm.len() == before.n
    &&& (forall|i: int| 0 <= i < perm.len() ==> #[trigger] perm[i] < before.n)
    &&& (forall|i: int| 0 <= i < before.n ==> #[trigger] t.gb_x_shares@[i] == before.gb_x_shares@[perm[i] as int])
    &&& (forall|i: int| 0 <= i < before.n ==> #[trigger] t.ev_x_shares@[i] == before.ev_x_shares@[perm[i] as int])
    &&& (forall|k: int| 0 <= k < before.n * before.m ==> #[trigger] t.gb_z_shares@[k]
        == before.gb_z_shares@[(k / (before.n as int)) * before.n + perm[k % (before.n as int)]])
    &&& (forall|k: int| 0 <= k < before.n * before.m ==> #[trigger] t.ev_z_shares@[k]
        == before.ev_z_shares@[(k / (before.n as int)) * before.n + perm[k % (before.n as int)]])
}

/// Entry `(i, j)` of a permuted triple is entry `(π(i), j)` of the triple before permuting.
proof fn lemma_permuted_entry(before: LeakyTriple, t: LeakyTriple, perm: Seq<usize>, i: int, j: int)
    requires
        permuted_from(before, t, perm),
        0 <= i < before.n,
        0 <= j < before.m,
    ensures
        t.gb_z_shares@[j * before.n + i] == before.gb_z_shares@[j * before.n + perm[i]],
        t.ev_z_shares@[j * before.n + i] == before.ev_z_shares@[j * before.n + perm[i]],
        leaky_triple_valid(before) ==> {
            &&& cross_valid(t.gb_z_shares@[j * before.n + i], t.ev_z_shares@[j * before.n + i], before.delta_gb@,
                before.delta_ev@)
            &&& full_bit_at(t.gb_z_shares@, t.ev_z_shares@, j * before.n + i) == (full_bit_at(t.gb_x_shares@,
                t.ev_x_shares@, i) && full_bit_at(t.gb_y_shares@, t.ev_y_shares@, j))
        },
{
    let n = before.n as int;
    let m = before.m as int;
    let k = j * n + i;
    lemma_flat_compose(i, j, n);
    assert(0 <= k < n * m) by (nonlinear_arith)
        requires
            0 <= i < n,
            0 <= j < m,
            k == j * n + i,
    ;
    assert(t.gb_z_shares@[k] == before.gb_z_shares@[(k / n) * n + perm[k % n]]);
    assert(t.ev_z_shares@[k] == before.ev_z_shares@[(k / n) * n + perm[k % n]]);
    let p = perm[i] as int;
    let ko = j * n + p;
    assert(0 <= ko < n * m) by (nonlinear_arith)
        requires
            0 <= p < n,
            0 <= j < m,
            ko == j * n + p,
    ;
    if leaky_triple_valid(before) {
        let dgb = before.delta_gb@;
        let dev = before.delta_ev@;
        assert(full_bit_at(before.gb_z_shares@, before.ev_z_shares@, j * n + p) == (full_bit_at(
            before.gb_x_shares@, before.ev_x_shares@, p) && full_bit_at(before.gb_y_shares@, before.ev_y_shares@, j)));
        assert(cross_valid(before.gb_z_shares@[ko], before.ev_z_shares@[ko], dgb, dev));
        assert(t.gb_x_shares@[i] == before.gb_x_shares@[p]);
        assert(t.ev_x_shares@[i] == before.ev_x_shares@[p]);
    }
}

/// Permuting the rows of a valid triple keeps it valid: `Z[j·n + i] =
/// Z_old[j·n + π(i)] = x_old[π(i)]·y[j] = x[i]·y[j]`.
proof fn lemma_permuted_valid(before: LeakyTriple, t: LeakyTriple, perm: Seq<usize>)
    requires
        leaky_triple_valid(before),
        permuted_from(before, t, perm),
    ensures
        leaky_triple_valid(t),
{
    let n = before.n as int;
    let m = before.m as int;
    let dgb = before.delta_gb@;
    let dev = before.delta_ev@;
    assert forall|i: int|
        #![trigger t.gb_x_shares@[i]]
        #![trigger t.ev_x_shares@[i]]
        0 <= i < n implies cross_valid(t.gb_x_shares@[i], t.ev_x_shares@[i], dgb, dev) by {
        let p = perm[i] as int;
        assert(t.gb_x_shares@[i] == before.gb_x_shares@[p]);
        assert(t.ev_x_shares@[i] == before.ev_x_shares@[p]);
        assert(cross_valid(before.gb_x_shares@[p], before.ev_x_shares@[p], dgb, dev));
    }
    assert forall|i: int, j: int| 0 <= i < n && 0 <= j < m implies #[trigger] full_bit_at(t.gb_z_shares@,
        t.ev_z_shares@, j * n + i) == (full_bit_at(t.gb_x_shares@, t.ev_x_shares@, i) && full_bit_at(t.gb_y_shares@,
        t.ev_y_shares@, j)) by {
        lemma_permuted_entry(before, t, perm, i, j);
    }
    assert forall|k: int|
        #![trigger t.gb_z_shares@[k]]
        #![trigger t.ev_z_shares@[k]]
        0 <= k < n * m implies cross_valid(t.gb_z_shares@[k], t.ev_z_shares@[k], dgb, dev) by {
        lemma_flat_decompose(k, n, m);
        lemma_permuted_entry(before, t, perm, k % n, k / n);
    }
}

/// Permuting rows moves shares without changing them, so clear pointer bits
/// stay clear.
proof fn lemma_permuted_keys_clear(before: LeakyTriple, t: LeakyTriple, perm: Seq<usize>)
    requires
        triple_keys_clear(before),
        permuted_from(before, t, perm),
        before.gb_x_shares@.len() == before.n,
        before.ev_x_shares@.len() == before.n,
        before.gb_z_shares@.len() == before.n * before.m,
        before.ev_z_shares@.len() == before.n * before.m,
    ensures
        triple_keys_clear(t),
{
    let n = before.n as int;
    let m = before.m as int;
    assert forall|i: int| 0 <= i < t.gb_x_shares@.len() implies !lsb_of((#[trigger] t.gb_x_shares@[i]).key@) by {
        assert(!lsb_of(before.gb_x_shares@[perm[i] as int].key@));
    }
    assert forall|i: int| 0 <= i < t.ev_x_shares@.len() implies !lsb_of((#[trigger] t.ev_x_shares@[i]).key@) by {
        assert(!lsb_of(before.ev_x_shares@[perm[i] as int].key@));
    }
    assert forall|k: int| 0 <= k < t.gb_z_shares@.len() implies !lsb_of((#[trigger] t.gb_z_shares@[k]).key@) by {
        lemma_flat_decompose(k, n, m);
        lemma_permuted_entry(before, t, perm, k % n, k / n);
        let ko = (k / n) * n + perm[k % n];
        assert(0 <= ko < n * m) by (nonlinear_arith)
            requires
                0 <= perm[k % n] < n,
                0 <= k / n < m,
                ko == (k / n) * n + perm[k % n],
        ;
        assert(!lsb_of(before.gb_z_shares@[ko].key@));
    }
    assert forall|k: int| 0 <= k < t.ev_z_shares@.len() implies !lsb_of((#[trigger] t.ev_z_shares@[k]).key@) by {
        lemma_flat_decompose(k, n, m);
        lemma_permuted_entry(before, t, perm, k % n, k / n);
        let ko = (k / n) * n + perm[k % n];
        assert(0 <= ko < n * m) by (nonlinear_arith)
            requires
                0 <= perm[k % n] < n,
                0 <= k / n < m,
                ko == (k / n) * n + perm[k % n],
        ;
        assert(!lsb_of(before.ev_z_shares@[ko].key@));
    }
}

} // verus!
