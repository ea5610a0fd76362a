//! The GGM-tree tensor gadget shared by the garbler and the evaluator.
//!
//! The garbler expands its `n` input labels into a tree of `2^n` leaf seeds and
//! sends one ciphertext per tree level; the evaluator, holding the labels
//! shifted by its choice bits `a`, rebuilds every leaf but the one at index
//! `Σ a_k 2^k` (the "missing" leaf), whose seed it holds shifted by `Δ`. Leaf
//! expansion then gives both parties shares of `a ⊗ y`.

use vstd::prelude::*;
use vstd::arithmetic::power2::*;
use vstd::bits::*;
use crate::block::{Block, group_xor, lemma_xor_laws, lemma_xor_regroup, lemma_xor_ggm_step, lemma_xor_zero, lemma_xor_self, lemma_xor_leaf, mul_bool_spec};
use crate::aes::{FixedKeyAes, tccr_spec};
use crate::delta::Delta;
use crate::matrix::{BlockMatrix, MatrixViewRef, TypedMatrix, MatrixElement, lemma_flat_bound};
use crate::xor_sum::{xor_all, block_vals, lemma_xor_all_push, lemma_xor_all_prepend, lemma_xor_all_prefix_step, lemma_xor_all_update, lemma_xor_all_ext, lemma_xor_all_pointwise, lemma_xor_all_zeros, lemma_xor_all_single};

verus! {

broadcast use group_xor;

/// Domain-separation tag of the tree-level tweaks (bit 65).
pub const LOOP_DOMAIN: u128 = 0x2_0000_0000_0000_0000u128;

/// Domain-separation tag of the wide leaf-expansion tweaks (bit 64).
pub const WIDE_DOMAIN: u128 = 0x1_0000_0000_0000_0000u128;

/// The tweak of tree level `i`.
pub open spec fn loop_tweak(i: int) -> u128 {
    LOOP_DOMAIN | (i as u128)
}

/// The hash outputs `R_{i,j} = H(S_{i-1,j}, ν_i)` of one tree level.
pub open spec fn level_rs(key: u128, i: nat, prev: Seq<u128>) -> Seq<u128> {
    Seq::new(prev.len(), |j: int| tccr_spec(key, loop_tweak(i as int), prev[j]))
}

/// Child `k` of a level whose parents are `prev` and hash outputs `rs`: the odd
/// child is `R`, the even child `R ⊕ parent`.
pub open spec fn ggm_children(prev: Seq<u128>, rs: Seq<u128>) -> Seq<u128> {
    Seq::new(2 * prev.len(), |k: int| if k % 2 == 1 { rs[k / 2] } else { rs[k / 2] ^ prev[k / 2] })
}

/// The garbler's seeds at tree level `i` (`2^(i+1)` of them). Level 0 is
/// `[A_0 ⊕ Δ, A_0]` with `A_0 = x[n-1]`.
pub open spec fn gen_level(key: u128, x: Seq<u128>, delta: u128, i: nat) -> Seq<u128>
    decreases i,
{
    if i == 0 {
        seq![x[x.len() - 1] ^ delta, x[x.len() - 1]]
    } else {
        let prev = gen_level(key, x, delta, (i - 1) as nat);
        ggm_children(prev, level_rs(key, i, prev))
    }
}

/// The garbler's ciphertext of tree level `i ≥ 1`: `G_i = (⊕_j R_{i,j}) ⊕ A_i`
/// with `A_i = x[n-1-i]`.
pub open spec fn gen_level_ct(key: u128, x: Seq<u128>, delta: u128, i: nat) -> u128 {
    xor_all(level_rs(key, i, gen_level(key, x, delta, (i - 1) as nat))) ^ x[x.len() - 1 - i]
}

/// The garbler's leaf seeds.
pub open spec fn gen_seeds(key: u128, x: Seq<u128>, delta: u128) -> Seq<u128> {
    gen_level(key, x, delta, (x.len() - 1) as nat)
}

/// `lv` holds the level ciphertexts of the garbler's tree over `x`.
pub open spec fn levels_ok(key: u128, x: Seq<u128>, delta: u128, lv: Seq<Block>) -> bool {
    &&& lv.len() + 1 == x.len()
    &&& forall|l: int| 0 <= l < lv.len() ==> (#[trigger] lv[l])@ == gen_level_ct(key, x, delta, (l + 1) as nat)
}

/// `cts` holds the garbler's leaf ciphertexts of every column of `y`.
pub open spec fn cts_ok(key: u128, kind: nat, seeds: Seq<u128>, y: Seq<u128>, cts: Seq<Block>) -> bool {
    &&& cts.len() == y.len()
    &&& forall|c: int| 0 <= c < y.len() ==> (#[trigger] cts[c])@ == gen_ct(key, kind, seeds, y, c as nat)
}

pub proof fn lemma_gen_level_len(key: u128, x: Seq<u128>, delta: u128, i: nat)
    ensures
        gen_level(key, x, delta, i).len() == pow2(i + 1),
    decreases i,
{
    if i == 0 {
        lemma_pow2_unfold(1);
        lemma_pow2_unfold(0 + 1);
        assert(pow2(0) == 1) by {
            lemma_pow2(0);
            vstd::arithmetic::power::lemma_pow0(2);
        }
    } else {
        lemma_gen_level_len(key, x, delta, (i - 1) as nat);
        lemma_pow2_unfold(i + 1);
    }
}

/// Builds the garbler's GGM tree from its labels `x` (`x[n-1]` at the root):
/// returns the `2^n` leaf seeds and the `n - 1` level ciphertexts. The tree is
/// built in place in one buffer of `2^n` seeds, parents walked from high to low.
pub fn gen_populate_seeds_mem_optimized(x: &[Block], cipher: &FixedKeyAes, delta: Delta) -> (r: (
    Vec<Block>,
    Vec<Block>,
))
    requires
        1 <= x@.len() < usize::BITS,
    ensures
        r.0@.len() == pow2(x@.len() as nat),
        block_vals(r.0@) == gen_seeds(cipher.key_spec(), block_vals(x@), delta@),
        levels_ok(cipher.key_spec(), block_vals(x@), delta@, r.1@),
{
    let n = x.len();
    let ghost key = cipher.key_spec();
    let ghost xs = block_vals(x@);
    proof {
        lemma_usize_pow2_no_overflow(n as nat);
        lemma_usize_shl_is_mul(1, n);
    }
    let size: usize = 1usize << n;
    let mut seeds: Vec<Block> = Vec::new();
    let mut t: usize = 0;
    while t < size
        invariant
            t <= size,
            seeds@.len() == t,
        decreases size - t,
    {
        seeds.push(Block::zero());
        t = t + 1;
    }
    proof {
        lemma_pow2_unfold(n as nat);
        lemma_pow2_pos((n - 1) as nat);
    }
    let a0 = x[n - 1];
    seeds.set(0, a0.xor(delta.as_block()));
    seeds.set(1, a0);
    proof {
        assert(block_vals(seeds@).subrange(0, 2) =~= gen_level(key, xs, delta@, 0));
        lemma_gen_level_len(key, xs, delta@, 0);
    }
    let mut level_cts: Vec<Block> = Vec::new();
    let mut i: usize = 1;
    while i < n
        invariant
            1 <= i <= n,
            n == x@.len(),
            n < usize::BITS,
            xs == block_vals(x@),
            key == cipher.key_spec(),
            seeds@.len() == pow2(n as nat),
            pow2(i as nat) <= pow2(n as nat) < usize::MAX,
            block_vals(seeds@).subrange(0, pow2(i as nat) as int) == gen_level(key, xs, delta@, (i - 1) as nat),
            level_cts@.len() == i - 1,
            forall|l: int| 0 <= l < i - 1 ==> (#[trigger] level_cts@[l])@ == gen_level_ct(key, xs, delta@, (l + 1) as nat),
        decreases n - i,
    {
        let ghost prev = gen_level(key, xs, delta@, (i - 1) as nat);
        let ghost rs = level_rs(key, i as nat, prev);
        let ghost cur = gen_level(key, xs, delta@, i as nat);
        proof {
            lemma_gen_level_len(key, xs, delta@, (i - 1) as nat);
            lemma_gen_level_len(key, xs, delta@, i as nat);
            lemma_usize_pow2_no_overflow(i as nat);
            lemma_usize_shl_is_mul(1, i);
            lemma_pow2_strictly_increases(i as nat, n as nat);
            lemma_pow2_unfold((i + 1) as nat);
            if i + 1 < n {
                lemma_pow2_strictly_increases((i + 1) as nat, n as nat);
            }
        }
        let tweak = Block::from_u128(LOOP_DOMAIN | (i as u128));
        let half: usize = 1usize << i;
        let mut r_xor_sum = Block::zero();
        let mut j: usize = half;
        while j > 0
            invariant
                j <= half,
                half == pow2(i as nat),
                2 * half <= pow2(n as nat),
                pow2(n as nat) < usize::MAX,
                prev.len() == half,
                rs.len() == half,
                cur.len() == 2 * half,
                cur == ggm_children(prev, rs),
                rs == level_rs(key, i as nat, prev),
                key == cipher.key_spec(),
                tweak@ == loop_tweak(i as int),
                seeds@.len() == pow2(n as nat),
                forall|k: int| 0 <= k < j ==> (#[trigger] seeds@[k])@ == prev[k],
                forall|k: int| 2 * j <= k < 2 * half ==> (#[trigger] seeds@[k])@ == cur[k],
                r_xor_sum@ == xor_all(rs.subrange(j as int, half as int)),
            decreases j,
        {
            j = j - 1;
            let parent = seeds[j];
            let r = cipher.tccr(tweak, parent);
            seeds.set(2 * j + 1, r);
            seeds.set(2 * j, r.xor(&parent));
            proof {
                lemma_xor_all_prepend(rs, (j + 1) as int, half as int);
                lemma_xor_laws(r@, xor_all(rs.subrange((j + 1) as int, half as int)), 0);
                assert(cur[2 * j as int] == rs[j as int] ^ prev[j as int]);
                assert(cur[2 * j + 1] == rs[j as int]);
            }
            r_xor_sum = r_xor_sum.xor(&r);
        }
        let g_i = r_xor_sum.xor(&x[n - 1 - i]);
        level_cts.push(g_i);
        proof {
            assert(rs.subrange(0, half as int) =~= rs);
            assert(block_vals(seeds@).subrange(0, pow2((i + 1) as nat) as int) =~= cur);
        }
        i = i + 1;
    }
    proof {
        lemma_pow2_unfold(n as nat);
        assert(block_vals(seeds@) =~= block_vals(seeds@).subrange(0, pow2(n as nat) as int));
    }
    (seeds, level_cts)
}

/// The evaluator's missing-leaf index after tree level `i`: the bits
/// `a[n-1], …, a[n-1-i]` read most significant first.
pub open spec fn eval_missing(a: Seq<bool>, i: nat) -> nat
    decreases i,
{
    if i == 0 {
        if a[a.len() - 1] { 1 } else { 0 }
    } else {
        2 * eval_missing(a, (i - 1) as nat) + (if a[a.len() - 1 - i] { 1nat } else { 0nat })
    }
}

/// The evaluator's seeds at tree level `i`, from its labels `mx`, its choice
/// bits `a` and the garbler's level ciphertexts. Level 0 is `[mx[n-1], mx[n-1]]`.
/// At level `i` the hash outputs of every parent but the missing one are
/// recomputed; the missing one is recovered from `G_i`.
pub open spec fn eval_level(key: u128, mx: Seq<u128>, a: Seq<bool>, levels: Seq<u128>, i: nat) -> Seq<u128>
    decreases i,
{
    if i == 0 {
        seq![mx[mx.len() - 1], mx[mx.len() - 1]]
    } else {
        let prev = eval_level(key, mx, a, levels, (i - 1) as nat);
        let miss = eval_missing(a, (i - 1) as nat) as int;
        let rs = level_rs(key, i, prev);
        let r_miss = levels[i - 1] ^ xor_all(rs.update(miss, 0)) ^ mx[mx.len() - 1 - i];
        ggm_children(prev, rs.update(miss, r_miss))
    }
}

/// The evaluator's leaf seeds.
pub open spec fn eval_seeds(key: u128, mx: Seq<u128>, a: Seq<bool>, levels: Seq<u128>) -> Seq<u128> {
    eval_level(key, mx, a, levels, (mx.len() - 1) as nat)
}

/// Bit `k` of `i`.
pub open spec fn bit_of(i: nat, k: nat) -> bool {
    (i / pow2(k)) % 2 == 1
}

pub proof fn lemma_eval_level_len(key: u128, mx: Seq<u128>, a: Seq<bool>, levels: Seq<u128>, i: nat)
    ensures
        eval_level(key, mx, a, levels, i).len() == pow2(i + 1),
    decreases i,
{
    if i == 0 {
        lemma_pow2_unfold(1);
        assert(pow2(0) == 1) by {
            lemma_pow2(0);
            vstd::arithmetic::power::lemma_pow0(2);
        }
    } else {
        lemma_eval_level_len(key, mx, a, levels, (i - 1) as nat);
        lemma_pow2_unfold(i + 1);
    }
}

/// The missing index after level `i` lies below `2^(i+1)`, and its bit `k`
/// is `a[n-1-i+k]`.
pub proof fn lemma_eval_missing_bits(a: Seq<bool>, i: nat)
    requires
        i < a.len(),
    ensures
        eval_missing(a, i) < pow2(i + 1),
        forall|k: nat| k <= i ==> #[trigger] bit_of(eval_missing(a, i), k) == a[a.len() - 1 - i + k],
    decreases i,
{
    let n = a.len();
    let m = eval_missing(a, i);
    if i == 0 {
        lemma_pow2_unfold(1);
        assert(pow2(0) == 1) by {
            lemma_pow2(0);
            vstd::arithmetic::power::lemma_pow0(2);
        }
    } else {
        let mp = eval_missing(a, (i - 1) as nat);
        let b: nat = if a[n - 1 - i] { 1 } else { 0 };
        lemma_eval_missing_bits(a, (i - 1) as nat);
        lemma_pow2_unfold(i + 1);
        assert forall|k: nat| k <= i implies #[trigger] bit_of(m, k) == a[n - 1 - i + k] by {
            if k == 0 {
                assert(pow2(0) == 1) by {
                    lemma_pow2(0);
                    vstd::arithmetic::power::lemma_pow0(2);
                }
                assert(m / 1 == m);
                assert((2 * mp + b) % 2 == b) by (nonlinear_arith)
                    requires
                        b <= 1,
                ;
                assert(m == 2 * mp + b);
            } else {
                let km1 = (k - 1) as nat;
                lemma_pow2_unfold(k);
                lemma_pow2_pos(km1);
                assert((2 * mp + b) / 2 == mp) by (nonlinear_arith)
                    requires
                        b <= 1,
                ;
                vstd::arithmetic::div_mod::lemma_div_denominator((2 * mp + b) as int, 2, pow2(km1) as int);
                assert(m == 2 * mp + b);
                assert(m / pow2(k) == mp / pow2(km1));
                assert(bit_of(mp, km1) == a[n - 1 - (i - 1) + km1]);
                assert(n - 1 - (i - 1) + km1 == n - 1 - i + k);
            }
        }
    }
}

/// The GGM-tree invariant: at every level the evaluator's seeds equal the
/// garbler's everywhere but at the missing index, where they differ by `Δ`,
/// provided the evaluator's labels are `x[t] ⊕ a[t]·Δ` and it holds the
/// garbler's level ciphertexts.
pub proof fn lemma_ggm_level(
    key: u128,
    x: Seq<u128>,
    mx: Seq<u128>,
    a: Seq<bool>,
    levels: Seq<u128>,
    delta: u128,
    i: nat,
)
    requires
        i < x.len(),
        mx.len() == x.len(),
        a.len() == x.len(),
        levels.len() + 1 == x.len(),
        forall|t: int| 0 <= t < x.len() ==> #[trigger] mx[t] == x[t] ^ mul_bool_spec(delta, a[t]),
        forall|l: int| 0 <= l < i ==> #[trigger] levels[l] == gen_level_ct(key, x, delta, (l + 1) as nat),
    ensures
        eval_level(key, mx, a, levels, i).len() == gen_level(key, x, delta, i).len(),
        eval_missing(a, i) < gen_level(key, x, delta, i).len(),
        forall|k: int| 0 <= k < gen_level(key, x, delta, i).len() ==>
            #[trigger] eval_level(key, mx, a, levels, i)[k] == if k == eval_missing(a, i) {
                gen_level(key, x, delta, i)[k] ^ delta
            } else {
                gen_level(key, x, delta, i)[k]
            },
    decreases i,
{
    let n = x.len();
    lemma_gen_level_len(key, x, delta, i);
    lemma_eval_level_len(key, mx, a, levels, i);
    lemma_eval_missing_bits(a, i);
    let e = eval_level(key, mx, a, levels, i);
    let g = gen_level(key, x, delta, i);
    if i == 0 {
        let x0 = x[n - 1];
        assert(mx[n - 1] == x0 ^ mul_bool_spec(delta, a[n - 1]));
        lemma_xor_ggm_step(0, 0, 0, 0, x0, delta);
    } else {
        let ip = (i - 1) as nat;
        lemma_ggm_level(key, x, mx, a, levels, delta, ip);
        lemma_gen_level_len(key, x, delta, ip);
        let pe = eval_level(key, mx, a, levels, ip);
        let pg = gen_level(key, x, delta, ip);
        let p = eval_missing(a, ip) as int;
        let rse = level_rs(key, i, pe);
        let rsg = level_rs(key, i, pg);
        assert(rse.update(p, 0) =~= rsg.update(p, 0)) by {
            assert forall|j: int| 0 <= j < rse.len() implies #[trigger] rse.update(p, 0)[j] == rsg.update(p, 0)[j] by {
                if j != p {
                    assert(pe[j] == pg[j]);
                }
            }
        }
        lemma_xor_all_update(rsg, p, 0);
        let xa = xor_all(rsg);
        let aa = x[n - 1 - i];
        let rr = rsg[p];
        let mm = mul_bool_spec(delta, a[n - 1 - i]);
        assert(levels[i - 1] == gen_level_ct(key, x, delta, i));
        assert(levels[i - 1] == xa ^ aa);
        assert(mx[n - 1 - i] == aa ^ mm);
        lemma_xor_ggm_step(xa, aa, rr, mm, pg[p], delta);
        let r_miss = levels[i - 1] ^ xor_all(rse.update(p, 0)) ^ mx[n - 1 - i];
        assert(r_miss == rr ^ mm);
        assert forall|k: int| 0 <= k < g.len() implies #[trigger] e[k] == if k == eval_missing(a, i) {
            g[k] ^ delta
        } else {
            g[k]
        } by {
            let q = k / 2;
            let b = a[n - 1 - i];
            assert(eval_missing(a, i) == 2 * p + (if b { 1nat } else { 0nat }));
            if q != p {
                assert(pe[q] == pg[q]);
                assert(rse[q] == rsg[q]);
                assert(k != eval_missing(a, i));
            } else {
                assert(pe[q] == pg[q] ^ delta);
                assert(rse.update(p, r_miss)[q] == rr ^ mm);
                lemma_xor_zero(rr);
                if k % 2 == 1 {
                    assert(e[k] == rr ^ mm);
                    assert(g[k] == rr);
                    if b {
                        assert(k == eval_missing(a, i));
                    } else {
                        assert(k != eval_missing(a, i));
                    }
                } else {
                    assert(e[k] == (rr ^ mm) ^ (pg[p] ^ delta));
                    assert(g[k] == rr ^ pg[p]);
                    if b {
                        assert(k != eval_missing(a, i));
                        assert(e[k] == g[k]);
                    } else {
                        assert(k == eval_missing(a, i));
                        assert(e[k] == g[k] ^ delta);
                    }
                }
            }
        }
    }
}

/// Rebuilds the evaluator's GGM tree from its labels `x`, its choice bits
/// `a_bits` and the garbler's level ciphertexts: returns the `2^n` leaf seeds
/// and the missing-leaf index.
pub fn eval_populate_seeds_mem_optimized(
    x: &[Block],
    a_bits: &[bool],
    levels: &[Block],
    cipher: &FixedKeyAes,
) -> (r: (Vec<Block>, usize))
    requires
        1 <= x@.len() < usize::BITS,
        a_bits@.len() == x@.len(),
        levels@.len() == x@.len() - 1,
    ensures
        r.0@.len() == pow2(x@.len() as nat),
        block_vals(r.0@) == eval_seeds(cipher.key_spec(), block_vals(x@), a_bits@, block_vals(levels@)),
        r.1 == eval_missing(a_bits@, (x@.len() - 1) as nat),
{
    let n = x.len();
    let ghost key = cipher.key_spec();
    let ghost xs = block_vals(x@);
    let ghost lv = block_vals(levels@);
    let ghost a = a_bits@;
    proof {
        lemma_usize_pow2_no_overflow(n as nat);
        lemma_usize_shl_is_mul(1, n);
    }
    let size: usize = 1usize << n;
    let mut seeds: Vec<Block> = Vec::new();
    let mut t: usize = 0;
    while t < size
        invariant
            t <= size,
            seeds@.len() == t,
        decreases size - t,
    {
        seeds.push(Block::zero());
        t = t + 1;
    }
    proof {
        lemma_pow2_unfold(n as nat);
        lemma_pow2_pos((n - 1) as nat);
    }
    let m0 = x[n - 1];
    seeds.set(0, m0);
    seeds.set(1, m0);
    let mut missing: usize = if a_bits[n - 1] { 1 } else { 0 };
    proof {
        assert(block_vals(seeds@).subrange(0, 2) =~= eval_level(key, xs, a, lv, 0));
        lemma_eval_level_len(key, xs, a, lv, 0);
        lemma_eval_missing_bits(a, 0);
    }
    let mut i: usize = 1;
    while i < n
        invariant
            1 <= i <= n,
            n == x@.len(),
            n < usize::BITS,
            xs == block_vals(x@),
            lv == block_vals(levels@),
            a == a_bits@,
            a.len() == n,
            lv.len() == n - 1,
            key == cipher.key_spec(),
            seeds@.len() == pow2(n as nat),
            pow2(i as nat) <= pow2(n as nat) < usize::MAX,
            block_vals(seeds@).subrange(0, pow2(i as nat) as int) == eval_level(key, xs, a, lv, (i - 1) as nat),
            missing == eval_missing(a, (i - 1) as nat),
            missing < pow2(i as nat),
        decreases n - i,
    {
        let ghost prev = eval_level(key, xs, a, lv, (i - 1) as nat);
        let ghost rs = level_rs(key, i as nat, prev);
        let ghost known = rs.update(missing as int, 0);
        let ghost cur = eval_level(key, xs, a, lv, i as nat);
        proof {
            lemma_eval_level_len(key, xs, a, lv, (i - 1) as nat);
            lemma_eval_level_len(key, xs, a, lv, i as nat);
            lemma_usize_pow2_no_overflow(i as nat);
            lemma_usize_shl_is_mul(1, i);
            lemma_pow2_strictly_increases(i as nat, n as nat);
            lemma_pow2_unfold((i + 1) as nat);
            if i + 1 < n {
                lemma_pow2_strictly_increases((i + 1) as nat, n as nat);
            }
            lemma_eval_missing_bits(a, i as nat);
        }
        let tweak = Block::from_u128(LOOP_DOMAIN | (i as u128));
        let half: usize = 1usize << i;
        let saved_missing_parent = seeds[missing];
        let mut r_xor_known = Block::zero();
        let mut j: usize = half;
        while j > 0
            invariant
                j <= half,
                half == pow2(i as nat),
                2 * half <= pow2(n as nat),
                pow2(n as nat) < usize::MAX,
                missing < half,
                prev.len() == half,
                rs.len() == half,
                known == rs.update(missing as int, 0),
                rs == level_rs(key, i as nat, prev),
                key == cipher.key_spec(),
                tweak@ == loop_tweak(i as int),
                seeds@.len() == pow2(n as nat),
                forall|k: int| 0 <= k < j ==> (#[trigger] seeds@[k])@ == prev[k],
                forall|k: int| 2 * j <= k < 2 * half && k / 2 != missing ==>
                    (#[trigger] seeds@[k])@ == ggm_children(prev, rs)[k],
                r_xor_known@ == xor_all(known.subrange(j as int, half as int)),
            decreases j,
        {
            j = j - 1;
            if j != missing {
                let parent = seeds[j];
                let r = cipher.tccr(tweak, parent);
                seeds.set(2 * j + 1, r);
                seeds.set(2 * j, r.xor(&parent));
                proof {
                    lemma_xor_all_prepend(known, (j + 1) as int, half as int);
                    lemma_xor_laws(r@, xor_all(known.subrange((j + 1) as int, half as int)), 0);
                }
                r_xor_known = r_xor_known.xor(&r);
            } else {
                proof {
                    lemma_xor_all_prepend(known, (j + 1) as int, half as int);
                    assert(known[j as int] == 0);
                    lemma_xor_zero(xor_all(known.subrange((j + 1) as int, half as int)));
                }
            }
        }
        let g_i = levels[i - 1];
        let r_missing = g_i.xor(&r_xor_known).xor(&x[n - 1 - i]);
        proof {
            assert(known.subrange(0, half as int) =~= known);
            assert(saved_missing_parent@ == prev[missing as int]);
        }
        seeds.set(2 * missing + 1, r_missing);
        seeds.set(2 * missing, r_missing.xor(&saved_missing_parent));
        let bit = a_bits[n - 1 - i];
        proof {
            let rs2 = rs.update(missing as int, r_missing@);
            assert(cur == ggm_children(prev, rs2));
            assert(block_vals(seeds@).subrange(0, pow2((i + 1) as nat) as int) =~= cur) by {
                assert forall|k: int| 0 <= k < 2 * half implies
                    #[trigger] block_vals(seeds@).subrange(0, pow2((i + 1) as nat) as int)[k] == cur[k] by {
                    if k / 2 != missing {
                        assert(rs2[k / 2] == rs[k / 2]);
                    }
                }
            }
        }
        missing = 2 * missing + if bit { 1usize } else { 0usize };
        i = i + 1;
    }
    proof {
        lemma_pow2_unfold(n as nat);
        assert(block_vals(seeds@) =~= block_vals(seeds@).subrange(0, pow2(n as nat) as int));
    }
    (seeds, missing)
}

/// The tweak of leaf `i` of column `j` (`len` leaves): `len·j + i` for the
/// narrow expansion (`kind == 0`); for the wide one, with `WIDE_DOMAIN` set,
/// `2(len·j + i)` for the κ-half (`kind == 1`) and `2(len·j + i) + 1` for the
/// ρ-half (`kind == 2`).
pub open spec fn leaf_tweak(kind: nat, len: nat, j: nat, i: nat) -> u128 {
    let base = (len * j + i) as u128;
    if kind == 0 {
        base
    } else if kind == 1 {
        WIDE_DOMAIN | (base << 1u128)
    } else {
        WIDE_DOMAIN | ((base << 1u128) | 1u128)
    }
}

/// The expanded leaves of column `j`: `H(seed_i, tweak(j, i))`.
pub open spec fn leaves(key: u128, kind: nat, seeds: Seq<u128>, j: nat) -> Seq<u128> {
    Seq::new(seeds.len(), |i: int| tccr_spec(key, leaf_tweak(kind, seeds.len(), j, i as nat), seeds[i]))
}

/// `s` with the values at indices whose bit `k` is clear replaced by zero.
pub open spec fn masked(s: Seq<u128>, k: nat) -> Seq<u128> {
    Seq::new(s.len(), |i: int| if bit_of(i as nat, k) { s[i] } else { 0 })
}

/// The garbler's leaf ciphertext of column `j`: `(⊕_i leaf_i) ⊕ y[j]`.
pub open spec fn gen_ct(key: u128, kind: nat, seeds: Seq<u128>, y: Seq<u128>, j: nat) -> u128 {
    xor_all(leaves(key, kind, seeds, j)) ^ y[j as int]
}

/// The garbler's share of entry `(k, j)` of the outer product.
pub open spec fn gen_z(key: u128, kind: nat, seeds: Seq<u128>, k: nat, j: nat) -> u128 {
    xor_all(masked(leaves(key, kind, seeds, j), k))
}

/// The evaluator's known leaves of column `j`: every leaf but the missing one.
pub open spec fn known_leaves(key: u128, kind: nat, seeds: Seq<u128>, miss: nat, j: nat) -> Seq<u128> {
    leaves(key, kind, seeds, j).update(miss as int, 0)
}

/// The evaluator's recovered missing-leaf value of column `j`.
pub open spec fn eval_ct(key: u128, kind: nat, seeds: Seq<u128>, miss: nat, ct: u128, y: Seq<u128>, j: nat) -> u128 {
    xor_all(known_leaves(key, kind, seeds, miss, j)) ^ ct ^ y[j as int]
}

/// The evaluator's share of entry `(k, j)` of the outer product.
pub open spec fn eval_z(
    key: u128,
    kind: nat,
    seeds: Seq<u128>,
    miss: nat,
    cts: Seq<u128>,
    y: Seq<u128>,
    k: nat,
    j: nat,
) -> u128 {
    xor_all(masked(known_leaves(key, kind, seeds, miss, j), k)) ^ (if bit_of(miss, k) {
        eval_ct(key, kind, seeds, miss, cts[j as int], y, j)
    } else {
        0
    })
}

/// `(i >> k) & 1 == 1` tests bit `k` of `i`.
pub proof fn lemma_shr_and_one(i: usize, k: usize)
    requires
        k < usize::BITS,
    ensures
        (((i >> k) & 1usize) == 1usize) == bit_of(i as nat, k as nat),
{
    lemma_usize_shr_is_div(i, k);
    let q: usize = i >> k;
    assert(q & 1usize == q % 2) by (bit_vector);
}

/// The tweak of leaf `i` of column `j`.
fn leaf_tweak_block(kind: u8, len: usize, j: usize, i: usize) -> (r: Block)
    requires
        kind <= 2,
        len * j + i <= usize::MAX,
    ensures
        r@ == leaf_tweak(kind as nat, len as nat, j as nat, i as nat),
{
    let base = (len * j + i) as u128;
    if kind == 0 {
        Block::from_u128(base)
    } else if kind == 1 {
        Block::from_u128(WIDE_DOMAIN | (base << 1u128))
    } else {
        Block::from_u128(WIDE_DOMAIN | ((base << 1u128) | 1u128))
    }
}

/// Whether row `r` lies in the `rows` rows starting at `offset`.
pub open spec fn in_rows(offset: int, rows: int, r: int) -> bool {
    offset <= r < offset + rows
}

/// XORs `s` into the entries `(offset + k, j)` of `out` for every `k < rows`
/// whose bit is set in `i`.
fn xor_into_column(out: &mut BlockMatrix, offset: usize, rows: usize, i: usize, j: usize, s: Block)
    requires
        old(out).wf(),
        offset + rows <= old(out).nrows(),
        j < old(out).ncols(),
        rows < usize::BITS,
    ensures
        final(out).wf(),
        final(out).nrows() == old(out).nrows(),
        final(out).ncols() == old(out).ncols(),
        forall|r: int, c: int| 0 <= r < old(out).nrows() && 0 <= c < old(out).ncols() ==>
            #[trigger] final(out).val(r, c) == if c == j && in_rows(offset as int, rows as int, r)
                && bit_of(i as nat, (r - offset) as nat) {
                old(out).val(r, c) ^ s@
            } else {
                old(out).val(r, c)
            },
{
    let ghost before = *out;
    let mut k: usize = 0;
    while k < rows
        invariant
            k <= rows,
            rows < usize::BITS,
            offset + rows <= before.nrows(),
            j < before.ncols(),
            out.wf(),
            out.nrows() == before.nrows(),
            out.ncols() == before.ncols(),
            forall|r: int, c: int| 0 <= r < before.nrows() && 0 <= c < before.ncols() ==>
                #[trigger] out.val(r, c) == if c == j && in_rows(offset as int, k as int, r)
                    && bit_of(i as nat, (r - offset) as nat) {
                    before.val(r, c) ^ s@
                } else {
                    before.val(r, c)
                },
        decreases rows - k,
    {
        proof {
            lemma_shr_and_one(i, k);
        }
        if ((i >> k) & 1) == 1 {
            out.xor_at(offset + k, j, s);
        }
        k = k + 1;
    }
}

/// Garbler's leaf expansion: for each column `j` of `y`, XORs the leaves whose
/// index has bit `k` set into entry `(offset + k, j)` of `out`, and returns the
/// leaf ciphertexts `(⊕_i leaf_i) ⊕ y[j]`.
fn gen_expand(
    seeds: &[Block],
    y: &MatrixViewRef<Block>,
    out: &mut BlockMatrix,
    offset: usize,
    rows: usize,
    cipher: &FixedKeyAes,
    kind: u8,
) -> (cts: Vec<Block>)
    requires
        kind <= 2,
        y.vec_ok(),
        old(out).wf(),
        offset + rows <= old(out).nrows(),
        y.view_rows <= old(out).ncols(),
        rows < usize::BITS,
        seeds@.len() * y.view_rows <= usize::MAX,
    ensures
        final(out).wf(),
        final(out).nrows() == old(out).nrows(),
        final(out).ncols() == old(out).ncols(),
        cts@.len() == y.view_rows,
        forall|j: int| 0 <= j < y.view_rows ==> (#[trigger] cts@[j])@ == gen_ct(
            cipher.key_spec(), kind as nat, block_vals(seeds@), y.vec_vals(), j as nat),
        forall|r: int, c: int| 0 <= r < old(out).nrows() && 0 <= c < old(out).ncols() ==>
            #[trigger] final(out).val(r, c) == if c < y.view_rows && in_rows(offset as int, rows as int, r) {
                old(out).val(r, c) ^ gen_z(cipher.key_spec(), kind as nat, block_vals(seeds@), (r - offset) as nat, c as nat)
            } else {
                old(out).val(r, c)
            },
{
    let ghost key = cipher.key_spec();
    let ghost sv = block_vals(seeds@);
    let ghost before = *out;
    let m = y.view_rows;
    let len = seeds.len();
    let mut cts: Vec<Block> = Vec::new();
    let mut j: usize = 0;
    while j < m
        invariant
            j <= m,
            m == y.view_rows,
            len == seeds@.len(),
            sv == block_vals(seeds@),
            key == cipher.key_spec(),
            kind <= 2,
            y.vec_ok(),
            len * m <= usize::MAX,
            offset + rows <= before.nrows(),
            m <= before.ncols(),
            rows < usize::BITS,
            out.wf(),
            out.nrows() == before.nrows(),
            out.ncols() == before.ncols(),
            cts@.len() == j,
            forall|jj: int| 0 <= jj < j ==> (#[trigger] cts@[jj])@ == gen_ct(key, kind as nat, sv, y.vec_vals(), jj as nat),
            forall|r: int, c: int| 0 <= r < before.nrows() && 0 <= c < before.ncols() ==>
                #[trigger] out.val(r, c) == if c < j && in_rows(offset as int, rows as int, r) {
                    before.val(r, c) ^ gen_z(key, kind as nat, sv, (r - offset) as nat, c as nat)
                } else {
                    before.val(r, c)
                },
        decreases m - j,
    {
        let ghost lv = leaves(key, kind as nat, sv, j as nat);
        let ghost mid = *out;
        let mut row = Block::zero();
        let mut i: usize = 0;
        proof {
            assert(len * j + len <= len * m) by (nonlinear_arith)
                requires
                    j < m,
            ;
            assert forall|r: int, c: int| 0 <= r < mid.nrows() && 0 <= c < mid.ncols() implies
                #[trigger] out.val(r, c) == if c == j && in_rows(offset as int, rows as int, r) {
                    mid.val(r, c) ^ xor_all(masked(lv, (r - offset) as nat).subrange(0, 0))
                } else {
                    mid.val(r, c)
                } by {
                assert(masked(lv, (r - offset) as nat).subrange(0, 0) =~= Seq::<u128>::empty());
                lemma_xor_zero(mid.val(r, c));
            }
        }
        while i < len
            invariant
                i <= len,
                j < m,
                len == seeds@.len(),
                len * j + len <= usize::MAX,
                sv == block_vals(seeds@),
                lv == leaves(key, kind as nat, sv, j as nat),
                key == cipher.key_spec(),
                kind <= 2,
                offset + rows <= before.nrows(),
                m <= before.ncols(),
                rows < usize::BITS,
                out.wf(),
                mid.nrows() == before.nrows(),
                mid.ncols() == before.ncols(),
                out.nrows() == mid.nrows(),
                out.ncols() == mid.ncols(),
                row@ == xor_all(lv.subrange(0, i as int)),
                forall|r: int, c: int| 0 <= r < mid.nrows() && 0 <= c < mid.ncols() ==>
                    #[trigger] out.val(r, c) == if c == j && in_rows(offset as int, rows as int, r) {
                        mid.val(r, c) ^ xor_all(masked(lv, (r - offset) as nat).subrange(0, i as int))
                    } else {
                        mid.val(r, c)
                    },
            decreases len - i,
        {
            let tweak = leaf_tweak_block(kind, len, j, i);
            let s = cipher.tccr(tweak, seeds[i]);
            let ghost pre = *out;
            xor_into_column(out, offset, rows, i, j, s);
            proof {
                lemma_xor_all_prefix_step(lv, i as int);
                assert forall|r: int, c: int| 0 <= r < mid.nrows() && 0 <= c < mid.ncols() implies
                    #[trigger] out.val(r, c) == if c == j && in_rows(offset as int, rows as int, r) {
                        mid.val(r, c) ^ xor_all(masked(lv, (r - offset) as nat).subrange(0, i + 1))
                    } else {
                        mid.val(r, c)
                    } by {
                    if c == j && in_rows(offset as int, rows as int, r) {
                        let mk = masked(lv, (r - offset) as nat);
                        lemma_xor_all_prefix_step(mk, i as int);
                        let prev = xor_all(mk.subrange(0, i as int));
                        if bit_of(i as nat, (r - offset) as nat) {
                            lemma_xor_laws(mid.val(r, c), prev, s@);
                        } else {
                            lemma_xor_zero(prev);
                        }
                    }
                }
            }
            row = row.xor(&s);
            i = i + 1;
        }
        let ct = row.xor(y.get_vec(j));
        cts.push(ct);
        proof {
            assert(lv.subrange(0, len as int) =~= lv);
            assert forall|r: int, c: int| 0 <= r < before.nrows() && 0 <= c < before.ncols() implies
                #[trigger] out.val(r, c) == if c < j + 1 && in_rows(offset as int, rows as int, r) {
                    before.val(r, c) ^ gen_z(key, kind as nat, sv, (r - offset) as nat, c as nat)
                } else {
                    before.val(r, c)
                } by {
                if c == j && in_rows(offset as int, rows as int, r) {
                    assert(masked(lv, (r - offset) as nat).subrange(0, len as int) =~= masked(lv, (r - offset) as nat));
                }
            }
        }
        j = j + 1;
    }
    cts
}

/// Evaluator's leaf expansion: XORs every known leaf (all but `missing`) into
/// the entries of `out` its index selects, recovers the missing leaf of each
/// column from the garbler's ciphertext and XORs it into the entries the
/// missing index selects. Returns the recovered values.
fn eval_expand(
    seeds: &[Block],
    y: &MatrixViewRef<Block>,
    out: &mut BlockMatrix,
    offset: usize,
    rows: usize,
    cipher: &FixedKeyAes,
    kind: u8,
    missing: usize,
    gen_cts: &[Block],
) -> (cts: Vec<Block>)
    requires
        kind <= 2,
        y.vec_ok(),
        old(out).wf(),
        offset + rows <= old(out).nrows(),
        y.view_rows <= old(out).ncols(),
        rows < usize::BITS,
        seeds@.len() * y.view_rows <= usize::MAX,
        missing < seeds@.len(),
        gen_cts@.len() == y.view_rows,
    ensures
        final(out).wf(),
        final(out).nrows() == old(out).nrows(),
        final(out).ncols() == old(out).ncols(),
        cts@.len() == y.view_rows,
        forall|j: int| 0 <= j < y.view_rows ==> (#[trigger] cts@[j])@ == eval_ct(
            cipher.key_spec(), kind as nat, block_vals(seeds@), missing as nat, gen_cts@[j]@, y.vec_vals(), j as nat),
        forall|r: int, c: int| 0 <= r < old(out).nrows() && 0 <= c < old(out).ncols() ==>
            #[trigger] final(out).val(r, c) == if c < y.view_rows && in_rows(offset as int, rows as int, r) {
                old(out).val(r, c) ^ eval_z(cipher.key_spec(), kind as nat, block_vals(seeds@), missing as nat,
                    block_vals(gen_cts@), y.vec_vals(), (r - offset) as nat, c as nat)
            } else {
                old(out).val(r, c)
            },
{
    let ghost key = cipher.key_spec();
    let ghost sv = block_vals(seeds@);
    let ghost before = *out;
    let m = y.view_rows;
    let len = seeds.len();
    let mut cts: Vec<Block> = Vec::new();
    let mut j: usize = 0;
    while j < m
        invariant
            j <= m,
            m == y.view_rows,
            len == seeds@.len(),
            missing < len,
            gen_cts@.len() == m,
            sv == block_vals(seeds@),
            key == cipher.key_spec(),
            kind <= 2,
            y.vec_ok(),
            len * m <= usize::MAX,
            offset + rows <= before.nrows(),
            m <= before.ncols(),
            rows < usize::BITS,
            out.wf(),
            out.nrows() == before.nrows(),
            out.ncols() == before.ncols(),
            cts@.len() == j,
            forall|jj: int| 0 <= jj < j ==> (#[trigger] cts@[jj])@ == eval_ct(
                key, kind as nat, sv, missing as nat, gen_cts@[jj]@, y.vec_vals(), jj as nat),
            forall|r: int, c: int| 0 <= r < before.nrows() && 0 <= c < before.ncols() ==>
                #[trigger] out.val(r, c) == if c < j && in_rows(offset as int, rows as int, r) {
                    before.val(r, c) ^ eval_z(key, kind as nat, sv, missing as nat, block_vals(gen_cts@),
                        y.vec_vals(), (r - offset) as nat, c as nat)
                } else {
                    before.val(r, c)
                },
        decreases m - j,
    {
        let ghost kn = known_leaves(key, kind as nat, sv, missing as nat, j as nat);
        let ghost mid = *out;
        let mut acc = Block::zero();
        let mut i: usize = 0;
        proof {
            assert(len * j + len <= len * m) by (nonlinear_arith)
                requires
                    j < m,
            ;
            assert forall|r: int, c: int| 0 <= r < mid.nrows() && 0 <= c < mid.ncols() implies
                #[trigger] out.val(r, c) == if c == j && in_rows(offset as int, rows as int, r) {
                    mid.val(r, c) ^ xor_all(masked(kn, (r - offset) as nat).subrange(0, 0))
                } else {
                    mid.val(r, c)
                } by {
                assert(masked(kn, (r - offset) as nat).subrange(0, 0) =~= Seq::<u128>::empty());
                lemma_xor_zero(mid.val(r, c));
            }
        }
        while i < len
            invariant
                i <= len,
                j < m,
                len == seeds@.len(),
                missing < len,
                len * j + len <= usize::MAX,
                sv == block_vals(seeds@),
                kn == known_leaves(key, kind as nat, sv, missing as nat, j as nat),
                key == cipher.key_spec(),
                kind <= 2,
                offset + rows <= before.nrows(),
                m <= before.ncols(),
                rows < usize::BITS,
                out.wf(),
                mid.nrows() == before.nrows(),
                mid.ncols() == before.ncols(),
                out.nrows() == mid.nrows(),
                out.ncols() == mid.ncols(),
                acc@ == xor_all(kn.subrange(0, i as int)),
                forall|r: int, c: int| 0 <= r < mid.nrows() && 0 <= c < mid.ncols() ==>
                    #[trigger] out.val(r, c) == if c == j && in_rows(offset as int, rows as int, r) {
                        mid.val(r, c) ^ xor_all(masked(kn, (r - offset) as nat).subrange(0, i as int))
                    } else {
                        mid.val(r, c)
                    },
            decreases len - i,
        {
            proof {
                lemma_xor_all_prefix_step(kn, i as int);
            }
            if i != missing {
                let tweak = leaf_tweak_block(kind, len, j, i);
                let s = cipher.tccr(tweak, seeds[i]);
                xor_into_column(out, offset, rows, i, j, s);
                proof {
                    assert forall|r: int, c: int| 0 <= r < mid.nrows() && 0 <= c < mid.ncols() implies
                        #[trigger] out.val(r, c) == if c == j && in_rows(offset as int, rows as int, r) {
                            mid.val(r, c) ^ xor_all(masked(kn, (r - offset) as nat).subrange(0, i + 1))
                        } else {
                            mid.val(r, c)
                        } by {
                        if c == j && in_rows(offset as int, rows as int, r) {
                            let mk = masked(kn, (r - offset) as nat);
                            lemma_xor_all_prefix_step(mk, i as int);
                            let prev = xor_all(mk.subrange(0, i as int));
                            if bit_of(i as nat, (r - offset) as nat) {
                                lemma_xor_laws(mid.val(r, c), prev, s@);
                            } else {
                                lemma_xor_zero(prev);
                            }
                        }
                    }
                }
                acc = acc.xor(&s);
            } else {
                proof {
                    lemma_xor_zero(acc@);
                    assert forall|r: int, c: int| 0 <= r < mid.nrows() && 0 <= c < mid.ncols() implies
                        #[trigger] out.val(r, c) == if c == j && in_rows(offset as int, rows as int, r) {
                            mid.val(r, c) ^ xor_all(masked(kn, (r - offset) as nat).subrange(0, i + 1))
                        } else {
                            mid.val(r, c)
                        } by {
                        if c == j && in_rows(offset as int, rows as int, r) {
                            let mk = masked(kn, (r - offset) as nat);
                            lemma_xor_all_prefix_step(mk, i as int);
                            lemma_xor_zero(xor_all(mk.subrange(0, i as int)));
                        }
                    }
                }
            }
            i = i + 1;
        }
        let ect = acc.xor(&gen_cts[j]).xor(y.get_vec(j));
        cts.push(ect);
        let ghost mid2 = *out;
        proof {
            assert(kn.subrange(0, len as int) =~= kn);
        }
        xor_into_column(out, offset, rows, missing, j, ect);
        proof {
            assert forall|r: int, c: int| 0 <= r < before.nrows() && 0 <= c < before.ncols() implies
                #[trigger] out.val(r, c) == if c < j + 1 && in_rows(offset as int, rows as int, r) {
                    before.val(r, c) ^ eval_z(key, kind as nat, sv, missing as nat, block_vals(gen_cts@),
                        y.vec_vals(), (r - offset) as nat, c as nat)
                } else {
                    before.val(r, c)
                } by {
                if c == j && in_rows(offset as int, rows as int, r) {
                    let mk = masked(kn, (r - offset) as nat);
                    assert(mk.subrange(0, len as int) =~= mk);
                    assert(block_vals(gen_cts@)[j as int] == gen_cts@[j as int]@);
                    if bit_of(missing as nat, (r - offset) as nat) {
                        lemma_xor_laws(before.val(r, c), xor_all(mk), ect@);
                    } else {
                        lemma_xor_zero(xor_all(mk));
                    }
                }
            }
        }
        j = j + 1;
    }
    cts
}

/// Leaf expansion is correct: if the evaluator's seeds equal the garbler's
/// everywhere but at `miss`, and it holds the garbler's ciphertext of column
/// `j`, the two shares of entry `(k, j)` XOR to `y_gb[j] ⊕ y_ev[j]` when bit
/// `k` of `miss` is set and to zero otherwise.
pub proof fn lemma_leaf_expansion(
    key: u128,
    kind: nat,
    sg: Seq<u128>,
    se: Seq<u128>,
    miss: nat,
    cts: Seq<u128>,
    yg: Seq<u128>,
    ye: Seq<u128>,
    k: nat,
    j: nat,
)
    requires
        se.len() == sg.len(),
        miss < sg.len(),
        forall|i: int| 0 <= i < sg.len() && i != miss ==> se[i] == sg[i],
        j < yg.len(),
        j < ye.len(),
        j < cts.len(),
        cts[j as int] == gen_ct(key, kind, sg, yg, j),
    ensures
        gen_z(key, kind, sg, k, j) ^ eval_z(key, kind, se, miss, cts, ye, k, j) == if bit_of(miss, k) {
            yg[j as int] ^ ye[j as int]
        } else {
            0
        },
{
    let l = leaves(key, kind, sg, j);
    let le = leaves(key, kind, se, j);
    let kn = known_leaves(key, kind, se, miss, j);
    assert(kn =~= l.update(miss as int, 0)) by {
        assert forall|i: int| 0 <= i < l.len() implies #[trigger] kn[i] == l.update(miss as int, 0)[i] by {
            if i != miss {
                assert(se[i] == sg[i]);
            }
        }
    }
    let ml = masked(l, k);
    assert(masked(kn, k) =~= ml.update(miss as int, 0));
    lemma_xor_all_update(ml, miss as int, 0);
    lemma_xor_all_update(l, miss as int, 0);
    let g = xor_all(ml);
    let x = xor_all(l);
    if bit_of(miss, k) {
        lemma_xor_leaf(g, x, l[miss as int], yg[j as int], ye[j as int]);
    } else {
        lemma_xor_leaf(g, x, 0, yg[j as int], ye[j as int]);
    }
}

/// Correctness of the tensor gadget (one tree): when the evaluator's labels are
/// the garbler's shifted by `a·Δ` and it holds the garbler's level and leaf
/// ciphertexts, the two shares of entry `(k, j)` XOR to `a[k]·(y_gb[j] ⊕ y_ev[j])`.
pub proof fn lemma_tensor_gadget(
    key: u128,
    kind: nat,
    x: Seq<u128>,
    mx: Seq<u128>,
    a: Seq<bool>,
    delta: u128,
    levels: Seq<u128>,
    cts: Seq<u128>,
    yg: Seq<u128>,
    ye: Seq<u128>,
    k: nat,
    j: nat,
)
    requires
        1 <= x.len(),
        mx.len() == x.len(),
        a.len() == x.len(),
        levels.len() + 1 == x.len(),
        forall|t: int| 0 <= t < x.len() ==> #[trigger] mx[t] == x[t] ^ mul_bool_spec(delta, a[t]),
        forall|l: int| 0 <= l < levels.len() ==> #[trigger] levels[l] == gen_level_ct(key, x, delta, (l + 1) as nat),
        k < x.len(),
        j < yg.len(),
        j < ye.len(),
        j < cts.len(),
        cts[j as int] == gen_ct(key, kind, gen_seeds(key, x, delta), yg, j),
    ensures
        gen_z(key, kind, gen_seeds(key, x, delta), k, j) ^ eval_z(
            key,
            kind,
            eval_seeds(key, mx, a, levels),
            eval_missing(a, (x.len() - 1) as nat),
            cts,
            ye,
            k,
            j,
        ) == if a[k as int] {
            yg[j as int] ^ ye[j as int]
        } else {
            0
        },
{
    let n = x.len();
    let top = (n - 1) as nat;
    lemma_ggm_level(key, x, mx, a, levels, delta, top);
    lemma_eval_missing_bits(a, top);
    let sg = gen_seeds(key, x, delta);
    let se = eval_seeds(key, mx, a, levels);
    let miss = eval_missing(a, top);
    assert(bit_of(miss, k) == a[n - 1 - top + k]);
    lemma_leaf_expansion(key, kind, sg, se, miss, cts, yg, ye, k, j);
}

/// Garbler's narrow leaf expansion into rows `offset .. offset + rows` of `out`
/// (one row per bit of the leaf index); returns one ciphertext per column.
pub fn gen_unary_outer_product(
    seeds: &[Block],
    y: &MatrixViewRef<Block>,
    out: &mut BlockMatrix,
    offset: usize,
    rows: usize,
    cipher: &FixedKeyAes,
) -> (cts: Vec<Block>)
    requires
        y.vec_ok(),
        old(out).wf(),
        offset + rows <= old(out).nrows(),
        y.view_rows <= old(out).ncols(),
        rows < usize::BITS,
        seeds@.len() * y.view_rows <= usize::MAX,
    ensures
        final(out).wf(),
        final(out).nrows() == old(out).nrows(),
        final(out).ncols() == old(out).ncols(),
        cts@.len() == y.view_rows,
        forall|j: int| 0 <= j < y.view_rows ==> (#[trigger] cts@[j])@ == gen_ct(
            cipher.key_spec(), 0, block_vals(seeds@), y.vec_vals(), j as nat),
        forall|r: int, c: int| 0 <= r < old(out).nrows() && 0 <= c < old(out).ncols() ==>
            #[trigger] final(out).val(r, c) == if c < y.view_rows && in_rows(offset as int, rows as int, r) {
                old(out).val(r, c) ^ gen_z(cipher.key_spec(), 0, block_vals(seeds@), (r - offset) as nat, c as nat)
            } else {
                old(out).val(r, c)
            },
{
    gen_expand(seeds, y, out, offset, rows, cipher, 0)
}

/// Evaluator's narrow leaf expansion into rows `offset .. offset + rows` of
/// `out`; returns the recovered missing-leaf values.
pub fn eval_unary_outer_product(
    seeds: &[Block],
    y: &MatrixViewRef<Block>,
    out: &mut BlockMatrix,
    offset: usize,
    rows: usize,
    cipher: &FixedKeyAes,
    missing: usize,
    gen_cts: &[Block],
) -> (cts: Vec<Block>)
    requires
        y.vec_ok(),
        old(out).wf(),
        offset + rows <= old(out).nrows(),
        y.view_rows <= old(out).ncols(),
        rows < usize::BITS,
        seeds@.len() * y.view_rows <= usize::MAX,
        missing < seeds@.len(),
        gen_cts@.len() == y.view_rows,
    ensures
        final(out).wf(),
        final(out).nrows() == old(out).nrows(),
        final(out).ncols() == old(out).ncols(),
        cts@.len() == y.view_rows,
        forall|j: int| 0 <= j < y.view_rows ==> (#[trigger] cts@[j])@ == eval_ct(
            cipher.key_spec(), 0, block_vals(seeds@), missing as nat, gen_cts@[j]@, y.vec_vals(), j as nat),
        forall|r: int, c: int| 0 <= r < old(out).nrows() && 0 <= c < old(out).ncols() ==>
            #[trigger] final(out).val(r, c) == if c < y.view_rows && in_rows(offset as int, rows as int, r) {
                old(out).val(r, c) ^ eval_z(cipher.key_spec(), 0, block_vals(seeds@), missing as nat,
                    block_vals(gen_cts@), y.vec_vals(), (r - offset) as nat, c as nat)
            } else {
                old(out).val(r, c)
            },
{
    eval_expand(seeds, y, out, offset, rows, cipher, 0, missing, gen_cts)
}

/// Pairs two sequences of blocks.
fn zip_blocks(a: Vec<Block>, b: Vec<Block>) -> (r: Vec<(Block, Block)>)
    requires
        a@.len() == b@.len(),
    ensures
        r@.len() == a@.len(),
        forall|j: int| 0 <= j < a@.len() ==> (#[trigger] r@[j]).0 == a@[j],
        forall|j: int| 0 <= j < a@.len() ==> (#[trigger] r@[j]).1 == b@[j],
{
    let mut r: Vec<(Block, Block)> = Vec::new();
    let mut j: usize = 0;
    while j < a.len()
        invariant
            j <= a@.len(),
            a@.len() == b@.len(),
            r@.len() == j,
            forall|t: int| 0 <= t < j ==> (#[trigger] r@[t]).0 == a@[t],
            forall|t: int| 0 <= t < j ==> (#[trigger] r@[t]).1 == b@[t],
        decreases a@.len() - j,
    {
        r.push((a[j], b[j]));
        j = j + 1;
    }
    r
}

/// Splits a sequence of pairs of blocks.
fn unzip_blocks(p: &[(Block, Block)]) -> (r: (Vec<Block>, Vec<Block>))
    ensures
        r.0@.len() == p@.len(),
        r.1@.len() == p@.len(),
        forall|j: int| 0 <= j < p@.len() ==> (#[trigger] r.0@[j]) == p@[j].0,
        forall|j: int| 0 <= j < p@.len() ==> (#[trigger] r.1@[j]) == p@[j].1,
{
    let mut a: Vec<Block> = Vec::new();
    let mut b: Vec<Block> = Vec::new();
    let mut j: usize = 0;
    while j < p.len()
        invariant
            j <= p@.len(),
            a@.len() == j,
            b@.len() == j,
            forall|t: int| 0 <= t < j ==> (#[trigger] a@[t]) == p@[t].0,
            forall|t: int| 0 <= t < j ==> (#[trigger] b@[t]) == p@[t].1,
        decreases p@.len() - j,
    {
        a.push(p[j].0);
        b.push(p[j].1);
        j = j + 1;
    }
    (a, b)
}

/// Garbler's wide leaf expansion: every leaf is expanded twice, under the κ
/// tweak into `out_gb` and under the ρ tweak into `out_ev`; returns the pairs
/// of leaf ciphertexts.
pub fn gen_unary_outer_product_wide(
    seeds: &[Block],
    y_d_gb: &MatrixViewRef<Block>,
    y_d_ev: &MatrixViewRef<Block>,
    out_gb: &mut BlockMatrix,
    out_ev: &mut BlockMatrix,
    offset: usize,
    rows: usize,
    cipher: &FixedKeyAes,
) -> (cts: Vec<(Block, Block)>)
    requires
        y_d_gb.vec_ok(),
        y_d_ev.vec_ok(),
        y_d_gb.view_rows == y_d_ev.view_rows,
        old(out_gb).wf(),
        old(out_ev).wf(),
        offset + rows <= old(out_gb).nrows(),
        offset + rows <= old(out_ev).nrows(),
        y_d_gb.view_rows <= old(out_gb).ncols(),
        y_d_gb.view_rows <= old(out_ev).ncols(),
        rows < usize::BITS,
        seeds@.len() * y_d_gb.view_rows <= usize::MAX,
    ensures
        final(out_gb).wf(),
        final(out_ev).wf(),
        final(out_gb).nrows() == old(out_gb).nrows(),
        final(out_gb).ncols() == old(out_gb).ncols(),
        final(out_ev).nrows() == old(out_ev).nrows(),
        final(out_ev).ncols() == old(out_ev).ncols(),
        cts@.len() == y_d_gb.view_rows,
        forall|j: int| 0 <= j < y_d_gb.view_rows ==> (#[trigger] cts@[j]).0@ == gen_ct(
            cipher.key_spec(), 1, block_vals(seeds@), y_d_gb.vec_vals(), j as nat)
            && cts@[j].1@ == gen_ct(cipher.key_spec(), 2, block_vals(seeds@), y_d_ev.vec_vals(), j as nat),
        forall|r: int, c: int| 0 <= r < old(out_gb).nrows() && 0 <= c < old(out_gb).ncols() ==>
            #[trigger] final(out_gb).val(r, c) == if c < y_d_gb.view_rows && in_rows(offset as int, rows as int, r) {
                old(out_gb).val(r, c) ^ gen_z(cipher.key_spec(), 1, block_vals(seeds@), (r - offset) as nat, c as nat)
            } else {
                old(out_gb).val(r, c)
            },
        forall|r: int, c: int| 0 <= r < old(out_ev).nrows() && 0 <= c < old(out_ev).ncols() ==>
            #[trigger] final(out_ev).val(r, c) == if c < y_d_ev.view_rows && in_rows(offset as int, rows as int, r) {
                old(out_ev).val(r, c) ^ gen_z(cipher.key_spec(), 2, block_vals(seeds@), (r - offset) as nat, c as nat)
            } else {
                old(out_ev).val(r, c)
            },
{
    let kappa = gen_expand(seeds, y_d_gb, out_gb, offset, rows, cipher, 1);
    let rho = gen_expand(seeds, y_d_ev, out_ev, offset, rows, cipher, 2);
    zip_blocks(kappa, rho)
}

/// Evaluator's wide leaf expansion, the mirror of
/// [`gen_unary_outer_product_wide`]; returns the pairs of recovered values.
pub fn eval_unary_outer_product_wide(
    seeds: &[Block],
    y_d_gb: &MatrixViewRef<Block>,
    y_d_ev: &MatrixViewRef<Block>,
    out_gb: &mut BlockMatrix,
    out_ev: &mut BlockMatrix,
    offset: usize,
    rows: usize,
    cipher: &FixedKeyAes,
    missing: usize,
    gen_cts: &[(Block, Block)],
) -> (cts: Vec<(Block, Block)>)
    requires
        y_d_gb.vec_ok(),
        y_d_ev.vec_ok(),
        y_d_gb.view_rows == y_d_ev.view_rows,
        old(out_gb).wf(),
        old(out_ev).wf(),
        offset + rows <= old(out_gb).nrows(),
        offset + rows <= old(out_ev).nrows(),
        y_d_gb.view_rows <= old(out_gb).ncols(),
        y_d_gb.view_rows <= old(out_ev).ncols(),
        rows < usize::BITS,
        seeds@.len() * y_d_gb.view_rows <= usize::MAX,
        missing < seeds@.len(),
        gen_cts@.len() == y_d_gb.view_rows,
    ensures
        final(out_gb).wf(),
        final(out_ev).wf(),
        final(out_gb).nrows() == old(out_gb).nrows(),
        final(out_gb).ncols() == old(out_gb).ncols(),
        final(out_ev).nrows() == old(out_ev).nrows(),
        final(out_ev).ncols() == old(out_ev).ncols(),
        cts@.len() == y_d_gb.view_rows,
        forall|j: int| 0 <= j < y_d_gb.view_rows ==> (#[trigger] cts@[j]).0@ == eval_ct(
            cipher.key_spec(), 1, block_vals(seeds@), missing as nat, gen_cts@[j].0@, y_d_gb.vec_vals(), j as nat)
            && cts@[j].1@ == eval_ct(cipher.key_spec(), 2, block_vals(seeds@), missing as nat, gen_cts@[j].1@,
                y_d_ev.vec_vals(), j as nat),
        forall|r: int, c: int| 0 <= r < old(out_gb).nrows() && 0 <= c < old(out_gb).ncols() ==>
            #[trigger] final(out_gb).val(r, c) == if c < y_d_gb.view_rows && in_rows(offset as int, rows as int, r) {
                old(out_gb).val(r, c) ^ eval_z(cipher.key_spec(), 1, block_vals(seeds@), missing as nat,
                    Seq::new(gen_cts@.len(), |t: int| gen_cts@[t].0@), y_d_gb.vec_vals(), (r - offset) as nat, c as nat)
            } else {
                old(out_gb).val(r, c)
            },
        forall|r: int, c: int| 0 <= r < old(out_ev).nrows() && 0 <= c < old(out_ev).ncols() ==>
            #[trigger] final(out_ev).val(r, c) == if c < y_d_ev.view_rows && in_rows(offset as int, rows as int, r) {
                old(out_ev).val(r, c) ^ eval_z(cipher.key_spec(), 2, block_vals(seeds@), missing as nat,
                    Seq::new(gen_cts@.len(), |t: int| gen_cts@[t].1@), y_d_ev.vec_vals(), (r - offset) as nat, c as nat)
            } else {
                old(out_ev).val(r, c)
            },
{
    let (kappa_cts, rho_cts) = unzip_blocks(gen_cts);
    proof {
        assert(block_vals(kappa_cts@) =~= Seq::new(gen_cts@.len(), |t: int| gen_cts@[t].0@));
        assert(block_vals(rho_cts@) =~= Seq::new(gen_cts@.len(), |t: int| gen_cts@[t].1@));
    }
    let kappa = eval_expand(seeds, y_d_gb, out_gb, offset, rows, cipher, 1, missing, kappa_cts.as_slice());
    let rho = eval_expand(seeds, y_d_ev, out_ev, offset, rows, cipher, 2, missing, rho_cts.as_slice());
    zip_blocks(kappa, rho)
}

/// The garbler's level ciphertexts of every chunk of `x`.
pub open spec fn chunk_levels_spec(key: u128, x: Seq<u128>, delta: u128, cf: nat) -> Seq<Seq<u128>> {
    Seq::new(
        chunk_count(x.len(), cf),
        |s: int|
            Seq::new(
                (chunk_of(x, cf, s as nat).len() - 1) as nat,
                |l: int| gen_level_ct(key, chunk_of(x, cf, s as nat), delta, (l + 1) as nat),
            ),
    )
}

/// The garbler's leaf ciphertexts of every chunk of `x`, against `y`.
pub open spec fn chunk_cts_spec(key: u128, kind: nat, x: Seq<u128>, delta: u128, cf: nat, y: Seq<u128>) -> Seq<Seq<u128>> {
    Seq::new(
        chunk_count(x.len(), cf),
        |s: int| Seq::new(y.len(), |c: int| gen_ct(key, kind, gen_seeds(key, chunk_of(x, cf, s as nat), delta), y, c as nat)),
    )
}

/// The number of chunks of `cf` rows that cover `n` rows.
pub open spec fn chunk_count(n: nat, cf: nat) -> nat {
    ((n + cf - 1) as nat) / cf
}

/// The number of rows of chunk `s` (the last chunk may be short).
pub open spec fn chunk_len(n: nat, cf: nat, s: nat) -> nat {
    if cf * (s + 1) > n {
        (n - cf * s) as nat
    } else {
        cf
    }
}

/// Chunk `s` of `x`: its rows `cf·s ..`.
pub open spec fn chunk_of<A>(x: Seq<A>, cf: nat, s: nat) -> Seq<A> {
    x.subrange((cf * s) as int, (cf * s + chunk_len(x.len(), cf, s)) as int)
}

/// The garbler's share of entry `(r, c)` of a chunked outer product: row `r`
/// belongs to chunk `r / cf`, at row `r % cf` of that chunk's tree.
pub open spec fn chunked_gen_z(key: u128, kind: nat, x: Seq<u128>, delta: u128, cf: nat, r: nat, c: nat) -> u128 {
    gen_z(key, kind, gen_seeds(key, chunk_of(x, cf, r / cf), delta), r % cf, c)
}

/// The evaluator's share of entry `(r, c)` of a chunked outer product.
pub open spec fn chunked_eval_z(
    key: u128,
    kind: nat,
    x: Seq<u128>,
    bits: Seq<bool>,
    levels: Seq<Seq<u128>>,
    cts: Seq<Seq<u128>>,
    y: Seq<u128>,
    cf: nat,
    r: nat,
    c: nat,
) -> u128 {
    let s = r / cf;
    let xs = chunk_of(x, cf, s);
    let bs = chunk_of(bits, cf, s);
    eval_z(
        key,
        kind,
        eval_seeds(key, xs, bs, levels[s as int]),
        eval_missing(bs, (xs.len() - 1) as nat),
        cts[s as int],
        y,
        r % cf,
        c,
    )
}

/// Chunk `s` of `x` has between 1 and `cf` rows, and row `cf·s + k` of `x` is
/// row `k` of the chunk, at quotient `s` and remainder `k`.
pub proof fn lemma_chunk_rows(n: nat, cf: nat, s: nat)
    requires
        cf > 0,
        s < chunk_count(n, cf),
    ensures
        1 <= chunk_len(n, cf, s) <= cf,
        cf * s + chunk_len(n, cf, s) <= n,
        cf * (s + 1) == cf * s + cf,
        cf * (s + 1) <= n + cf - 1,
        forall|k: nat| k < chunk_len(n, cf, s) ==> #[trigger] ((cf * s + k) / cf) == s && (cf * s + k) % cf == k,
{
    let c = ((n + cf - 1) as nat) / cf;
    vstd::arithmetic::div_mod::lemma_fundamental_div_mod((n + cf - 1) as int, cf as int);
    vstd::arithmetic::div_mod::lemma_mod_bound((n + cf - 1) as int, cf as int);
    assert(cf * s + cf <= cf * c) by (nonlinear_arith)
        requires
            s < c,
            cf > 0,
    ;
    assert(cf * c == c * cf) by (nonlinear_arith);
    assert(cf * (s + 1) == cf * s + cf) by (nonlinear_arith);
    assert forall|k: nat| k < chunk_len(n, cf, s) implies #[trigger] ((cf * s + k) / cf) == s && (cf * s + k) % cf == k by {
        assert(cf * s == s * cf) by (nonlinear_arith);
        vstd::arithmetic::div_mod::lemma_fundamental_div_mod_converse((cf * s + k) as int, cf as int, s as int, k as int);
    }
}

/// The chunked outer product is correct with the garbler's ciphertexts: when
/// the evaluator's labels are the garbler's shifted by `a·Δ`, the two shares of
/// entry `(r, c)` XOR to `a[r]·(y_gb[c] ⊕ y_ev[c])`.
pub proof fn lemma_chunked_product(
    key: u128,
    kind: nat,
    xg: Seq<u128>,
    xe: Seq<u128>,
    a: Seq<bool>,
    delta: u128,
    cf: nat,
    yg: Seq<u128>,
    ye: Seq<u128>,
    r: nat,
    c: nat,
)
    requires
        cf > 0,
        xe.len() == xg.len(),
        a.len() == xg.len(),
        forall|t: int| 0 <= t < xg.len() ==> #[trigger] xe[t] == xg[t] ^ mul_bool_spec(delta, a[t]),
        r < xg.len(),
        c < yg.len(),
        c < ye.len(),
    ensures
        chunked_gen_z(key, kind, xg, delta, cf, r, c) ^ chunked_eval_z(
            key,
            kind,
            xe,
            a,
            chunk_levels_spec(key, xg, delta, cf),
            chunk_cts_spec(key, kind, xg, delta, cf, yg),
            ye,
            cf,
            r,
            c,
        ) == if a[r as int] {
            yg[c as int] ^ ye[c as int]
        } else {
            0
        },
{
    let n = xg.len();
    let s = r / cf;
    vstd::arithmetic::div_mod::lemma_fundamental_div_mod(r as int, cf as int);
    vstd::arithmetic::div_mod::lemma_mod_bound(r as int, cf as int);
    assert(cf * s <= r) by (nonlinear_arith)
        requires
            cf * s + r % cf == r,
            r % cf >= 0,
    ;
    assert(s < chunk_count(n, cf)) by {
        vstd::arithmetic::div_mod::lemma_fundamental_div_mod((n + cf - 1) as int, cf as int);
        vstd::arithmetic::div_mod::lemma_mod_bound((n + cf - 1) as int, cf as int);
        if s >= chunk_count(n, cf) {
            assert(cf * s >= cf * chunk_count(n, cf)) by (nonlinear_arith)
                requires
                    s >= chunk_count(n, cf),
            ;
        }
    }
    lemma_chunk_rows(n, cf, s);
    let levels = chunk_levels_spec(key, xg, delta, cf);
    let cts = chunk_cts_spec(key, kind, xg, delta, cf, yg);
    lemma_chunked_outer_product(key, kind, xg, xe, a, delta, cf, levels, cts, yg, ye, r, c);
}

/// Copies rows `start .. start + len` of a column-vector view.
fn copy_rows(x: &MatrixViewRef<Block>, start: usize, len: usize) -> (r: Vec<Block>)
    requires
        x.vec_ok(),
        start + len <= x.view_rows,
    ensures
        block_vals(r@) == x.vec_vals().subrange(start as int, (start + len) as int),
{
    let mut r: Vec<Block> = Vec::new();
    let mut i: usize = 0;
    while i < len
        invariant
            i <= len,
            x.vec_ok(),
            start + len <= x.view_rows,
            r@.len() == i,
            forall|t: int| 0 <= t < i ==> (#[trigger] r@[t])@ == x.vec_vals()[start + t],
        decreases len - i,
    {
        r.push(*x.get_vec(start + i));
        i = i + 1;
    }
    proof {
        assert(block_vals(r@) =~= x.vec_vals().subrange(start as int, (start + len) as int));
    }
    r
}

/// Garbler's chunked outer product: the rows of `x` are cut into chunks of `cf`
/// rows; each chunk gets its own tree, expanded against `y` into the matching
/// rows of `out`. Returns, per chunk, the level ciphertexts and the leaf
/// ciphertexts.
pub fn gen_chunked_outer_product(
    x: &MatrixViewRef<Block>,
    y: &MatrixViewRef<Block>,
    out: &mut BlockMatrix,
    cf: usize,
    cipher: &FixedKeyAes,
    delta: Delta,
) -> (r: (Vec<Vec<Block>>, Vec<Vec<Block>>))
    requires
        x.vec_ok(),
        y.vec_ok(),
        1 <= cf < usize::BITS,
        x.view_rows + cf <= usize::MAX,
        pow2(cf as nat) * y.view_rows <= usize::MAX,
        old(out).wf(),
        x.view_rows <= old(out).nrows(),
        y.view_rows <= old(out).ncols(),
    ensures
        final(out).wf(),
        final(out).nrows() == old(out).nrows(),
        final(out).ncols() == old(out).ncols(),
        r.0@.len() == chunk_count(x.view_rows as nat, cf as nat),
        r.1@.len() == chunk_count(x.view_rows as nat, cf as nat),
        forall|s: int| 0 <= s < r.0@.len() ==> levels_ok(cipher.key_spec(), chunk_of(x.vec_vals(), cf as nat, s as nat),
            delta@, (#[trigger] r.0@[s])@),
        forall|s: int| 0 <= s < r.1@.len() ==> cts_ok(cipher.key_spec(), 0,
            gen_seeds(cipher.key_spec(), chunk_of(x.vec_vals(), cf as nat, s as nat), delta@), y.vec_vals(),
            (#[trigger] r.1@[s])@),
        nested_vals(r.0@) == chunk_levels_spec(cipher.key_spec(), x.vec_vals(), delta@, cf as nat),
        nested_vals(r.1@) == chunk_cts_spec(cipher.key_spec(), 0, x.vec_vals(), delta@, cf as nat, y.vec_vals()),
        forall|rr: int, c: int| 0 <= rr < old(out).nrows() && 0 <= c < old(out).ncols() ==>
            #[trigger] final(out).val(rr, c) == if rr < x.view_rows && c < y.view_rows {
                old(out).val(rr, c) ^ chunked_gen_z(cipher.key_spec(), 0, x.vec_vals(), delta@, cf as nat, rr as nat, c as nat)
            } else {
                old(out).val(rr, c)
            },
{
    let ghost key = cipher.key_spec();
    let ghost xv = x.vec_vals();
    let ghost before = *out;
    let n = x.view_rows;
    let count = (n + cf - 1) / cf;
    let mut chunk_levels: Vec<Vec<Block>> = Vec::new();
    let mut chunk_cts: Vec<Vec<Block>> = Vec::new();
    let mut s: usize = 0;
    while s < count
        invariant
            s <= count,
            count == chunk_count(n as nat, cf as nat),
            n == x.view_rows,
            xv == x.vec_vals(),
            key == cipher.key_spec(),
            x.vec_ok(),
            y.vec_ok(),
            1 <= cf < usize::BITS,
            n + cf <= usize::MAX,
            pow2(cf as nat) * y.view_rows <= usize::MAX,
            out.wf(),
            n <= before.nrows(),
            y.view_rows <= before.ncols(),
            out.nrows() == before.nrows(),
            out.ncols() == before.ncols(),
            chunk_levels@.len() == s,
            chunk_cts@.len() == s,
            forall|t: int| 0 <= t < s ==> levels_ok(key, chunk_of(xv, cf as nat, t as nat), delta@,
                (#[trigger] chunk_levels@[t])@),
            forall|t: int| 0 <= t < s ==> cts_ok(key, 0, gen_seeds(key, chunk_of(xv, cf as nat, t as nat), delta@),
                y.vec_vals(), (#[trigger] chunk_cts@[t])@),
            forall|rr: int, c: int| 0 <= rr < before.nrows() && 0 <= c < before.ncols() ==>
                #[trigger] out.val(rr, c) == if rr < n && rr < cf * s && c < y.view_rows {
                    before.val(rr, c) ^ chunked_gen_z(key, 0, xv, delta@, cf as nat, rr as nat, c as nat)
                } else {
                    before.val(rr, c)
                },
        decreases count - s,
    {
        proof {
            lemma_chunk_rows(n as nat, cf as nat, s as nat);
        }
        let start = cf * s;
        let size: usize = if cf * (s + 1) > n { n - cf * s } else { cf };
        let slice = copy_rows(x, start, size);
        let ghost xs = chunk_of(xv, cf as nat, s as nat);
        proof {
            assert(block_vals(slice@) =~= xs);
            if size < cf {
                lemma_pow2_strictly_increases(size as nat, cf as nat);
            }
            assert(pow2(size as nat) * y.view_rows <= pow2(cf as nat) * y.view_rows) by (nonlinear_arith)
                requires
                    pow2(size as nat) <= pow2(cf as nat),
            ;
        }
        let (seeds, levels) = gen_populate_seeds_mem_optimized(slice.as_slice(), cipher, delta);
        let ghost mid = *out;
        let cts = gen_unary_outer_product(seeds.as_slice(), y, out, start, size, cipher);
        proof {
            assert forall|rr: int, c: int| 0 <= rr < before.nrows() && 0 <= c < before.ncols() implies
                #[trigger] out.val(rr, c) == if rr < n && rr < cf * (s + 1) && c < y.view_rows {
                    before.val(rr, c) ^ chunked_gen_z(key, 0, xv, delta@, cf as nat, rr as nat, c as nat)
                } else {
                    before.val(rr, c)
                } by {
                if in_rows(start as int, size as int, rr) {
                    let k = (rr - start) as nat;
                    assert(rr == cf * s + k);
                    assert(((cf as nat) * (s as nat) + k) / (cf as nat) == s as nat
                        && ((cf as nat) * (s as nat) + k) % (cf as nat) == k);
                }
                assert(cf * (s + 1) == cf * s + cf) by (nonlinear_arith);
            }
        }
        proof {
            assert(cts_ok(key, 0, gen_seeds(key, xs, delta@), y.vec_vals(), cts@));
        }
        chunk_levels.push(levels);
        chunk_cts.push(cts);
        s = s + 1;
    }
    proof {
        assert forall|rr: int, c: int| 0 <= rr < before.nrows() && 0 <= c < before.ncols() implies
            #[trigger] out.val(rr, c) == if rr < n && c < y.view_rows {
                before.val(rr, c) ^ chunked_gen_z(key, 0, xv, delta@, cf as nat, rr as nat, c as nat)
            } else {
                before.val(rr, c)
            } by {
            if rr < n {
                vstd::arithmetic::div_mod::lemma_fundamental_div_mod((n + cf - 1) as int, cf as int);
                vstd::arithmetic::div_mod::lemma_mod_bound((n + cf - 1) as int, cf as int);
                assert(rr < cf * count);
            }
        }
        assert(nested_vals(chunk_levels@) =~= chunk_levels_spec(key, xv, delta@, cf as nat)) by {
            assert forall|t: int| 0 <= t < count implies #[trigger] nested_vals(chunk_levels@)[t]
                =~= chunk_levels_spec(key, xv, delta@, cf as nat)[t] by {
                assert(levels_ok(key, chunk_of(xv, cf as nat, t as nat), delta@, chunk_levels@[t]@));
            }
        }
        assert(nested_vals(chunk_cts@) =~= chunk_cts_spec(key, 0, xv, delta@, cf as nat, y.vec_vals())) by {
            assert forall|t: int| 0 <= t < count implies #[trigger] nested_vals(chunk_cts@)[t]
                =~= chunk_cts_spec(key, 0, xv, delta@, cf as nat, y.vec_vals())[t] by {
                assert(cts_ok(key, 0, gen_seeds(key, chunk_of(xv, cf as nat, t as nat), delta@), y.vec_vals(),
                    chunk_cts@[t]@));
            }
        }
    }
    (chunk_levels, chunk_cts)
}

/// The values of a sequence of vectors of blocks.
pub open spec fn nested_vals(v: Seq<Vec<Block>>) -> Seq<Seq<u128>> {
    Seq::new(v.len(), |s: int| block_vals(v[s]@))
}

/// Copies `bits[start .. start + len]`.
fn copy_bits(bits: &[bool], start: usize, len: usize) -> (r: Vec<bool>)
    requires
        start + len <= bits@.len(),
    ensures
        r@ == bits@.subrange(start as int, (start + len) as int),
{
    let mut r: Vec<bool> = Vec::new();
    let mut i: usize = 0;
    let total = bits.len();
    while i < len
        invariant
            i <= len,
            total == bits@.len(),
            start + len <= bits@.len(),
            r@ == bits@.subrange(start as int, (start + i) as int),
        decreases len - i,
    {
        r.push(bits[start + i]);
        i = i + 1;
        proof {
            assert(r@ =~= bits@.subrange(start as int, (start + i) as int));
        }
    }
    r
}

/// Evaluator's chunked outer product, the mirror of
/// [`gen_chunked_outer_product`]: chunk `s` of `x` and of the choice bits
/// rebuild chunk `s`'s tree from the garbler's level ciphertexts, whose leaf
/// expansion goes into the matching rows of `out`.
pub fn eval_chunked_outer_product(
    x: &MatrixViewRef<Block>,
    y: &MatrixViewRef<Block>,
    choice_bits: &[bool],
    out: &mut BlockMatrix,
    cf: usize,
    cipher: &FixedKeyAes,
    chunk_levels: &[Vec<Block>],
    chunk_cts: &[Vec<Block>],
)
    requires
        x.vec_ok(),
        y.vec_ok(),
        choice_bits@.len() == x.view_rows,
        1 <= cf < usize::BITS,
        x.view_rows + cf <= usize::MAX,
        pow2(cf as nat) * y.view_rows <= usize::MAX,
        old(out).wf(),
        x.view_rows <= old(out).nrows(),
        y.view_rows <= old(out).ncols(),
        chunk_levels@.len() == chunk_count(x.view_rows as nat, cf as nat),
        chunk_cts@.len() == chunk_count(x.view_rows as nat, cf as nat),
        forall|s: int| 0 <= s < chunk_levels@.len() ==>
            (#[trigger] chunk_levels@[s])@.len() + 1 == chunk_len(x.view_rows as nat, cf as nat, s as nat),
        forall|s: int| 0 <= s < chunk_cts@.len() ==> (#[trigger] chunk_cts@[s])@.len() == y.view_rows,
    ensures
        final(out).wf(),
        final(out).nrows() == old(out).nrows(),
        final(out).ncols() == old(out).ncols(),
        forall|rr: int, c: int| 0 <= rr < old(out).nrows() && 0 <= c < old(out).ncols() ==>
            #[trigger] final(out).val(rr, c) == if rr < x.view_rows && c < y.view_rows {
                old(out).val(rr, c) ^ chunked_eval_z(cipher.key_spec(), 0, x.vec_vals(), choice_bits@,
                    nested_vals(chunk_levels@), nested_vals(chunk_cts@), y.vec_vals(), cf as nat, rr as nat, c as nat)
            } else {
                old(out).val(rr, c)
            },
{
    let ghost key = cipher.key_spec();
    let ghost xv = x.vec_vals();
    let ghost before = *out;
    let n = x.view_rows;
    let count = (n + cf - 1) / cf;
    let mut s: usize = 0;
    while s < count
        invariant
            s <= count,
            count == chunk_count(n as nat, cf as nat),
            n == x.view_rows,
            xv == x.vec_vals(),
            key == cipher.key_spec(),
            x.vec_ok(),
            y.vec_ok(),
            choice_bits@.len() == n,
            1 <= cf < usize::BITS,
            n + cf <= usize::MAX,
            pow2(cf as nat) * y.view_rows <= usize::MAX,
            out.wf(),
            n <= before.nrows(),
            y.view_rows <= before.ncols(),
            out.nrows() == before.nrows(),
            out.ncols() == before.ncols(),
            chunk_levels@.len() == count,
            chunk_cts@.len() == count,
            forall|t: int| 0 <= t < chunk_levels@.len() ==>
                (#[trigger] chunk_levels@[t])@.len() + 1 == chunk_len(n as nat, cf as nat, t as nat),
            forall|t: int| 0 <= t < chunk_cts@.len() ==> (#[trigger] chunk_cts@[t])@.len() == y.view_rows,
            forall|rr: int, c: int| 0 <= rr < before.nrows() && 0 <= c < before.ncols() ==>
                #[trigger] out.val(rr, c) == if rr < n && rr < cf * s && c < y.view_rows {
                    before.val(rr, c) ^ chunked_eval_z(key, 0, xv, choice_bits@, nested_vals(chunk_levels@),
                        nested_vals(chunk_cts@), y.vec_vals(), cf as nat, rr as nat, c as nat)
                } else {
                    before.val(rr, c)
                },
        decreases count - s,
    {
        proof {
            lemma_chunk_rows(n as nat, cf as nat, s as nat);
        }
        let start = cf * s;
        let size: usize = if cf * (s + 1) > n { n - cf * s } else { cf };
        let slice = copy_rows(x, start, size);
        let bits = copy_bits(choice_bits, start, size);
        let ghost xs = chunk_of(xv, cf as nat, s as nat);
        proof {
            assert(block_vals(slice@) =~= xs);
            if size < cf {
                lemma_pow2_strictly_increases(size as nat, cf as nat);
            }
            assert(pow2(size as nat) * y.view_rows <= pow2(cf as nat) * y.view_rows) by (nonlinear_arith)
                requires
                    pow2(size as nat) <= pow2(cf as nat),
            ;
        }
        let (seeds, missing) = eval_populate_seeds_mem_optimized(
            slice.as_slice(),
            bits.as_slice(),
            chunk_levels[s].as_slice(),
            cipher,
        );
        proof {
            lemma_eval_missing_bits(bits@, (size - 1) as nat);
        }
        let _recovered = eval_unary_outer_product(
            seeds.as_slice(),
            y,
            out,
            start,
            size,
            cipher,
            missing,
            chunk_cts[s].as_slice(),
        );
        proof {
            assert forall|rr: int, c: int| 0 <= rr < before.nrows() && 0 <= c < before.ncols() implies
                #[trigger] out.val(rr, c) == if rr < n && rr < cf * (s + 1) && c < y.view_rows {
                    before.val(rr, c) ^ chunked_eval_z(key, 0, xv, choice_bits@, nested_vals(chunk_levels@),
                        nested_vals(chunk_cts@), y.vec_vals(), cf as nat, rr as nat, c as nat)
                } else {
                    before.val(rr, c)
                } by {
                if in_rows(start as int, size as int, rr) {
                    let k = (rr - start) as nat;
                    assert(rr == cf * s + k);
                    assert(size == chunk_len(n as nat, cf as nat, s as nat));
                    assert(k < chunk_len(n as nat, cf as nat, s as nat));
                    assert((cf as int) * (s as int) == (s as int) * (cf as int)) by (nonlinear_arith);
                    vstd::arithmetic::div_mod::lemma_fundamental_div_mod_converse(
                        rr, cf as int, s as int, k as int);
                    assert(((cf as nat) * (s as nat) + k) / (cf as nat) == s as nat
                        && ((cf as nat) * (s as nat) + k) % (cf as nat) == k);
                    assert(chunk_of(choice_bits@, cf as nat, s as nat) =~= bits@);
                    assert(nested_vals(chunk_levels@)[s as int] == block_vals(chunk_levels@[s as int]@));
                    assert(nested_vals(chunk_cts@)[s as int] == block_vals(chunk_cts@[s as int]@));
                }
            }
        }
        s = s + 1;
    }
    proof {
        assert forall|rr: int, c: int| 0 <= rr < before.nrows() && 0 <= c < before.ncols() implies
            #[trigger] out.val(rr, c) == if rr < n && c < y.view_rows {
                before.val(rr, c) ^ chunked_eval_z(key, 0, xv, choice_bits@, nested_vals(chunk_levels@),
                    nested_vals(chunk_cts@), y.vec_vals(), cf as nat, rr as nat, c as nat)
            } else {
                before.val(rr, c)
            } by {
            if rr < n {
                vstd::arithmetic::div_mod::lemma_fundamental_div_mod((n + cf - 1) as int, cf as int);
                vstd::arithmetic::div_mod::lemma_mod_bound((n + cf - 1) as int, cf as int);
                assert(rr < cf * count);
            }
        }
    }
}

/// Correctness of the chunked outer product: if the evaluator's labels are the
/// garbler's shifted by `a·Δ` and it holds the garbler's ciphertexts of the
/// chunk of row `r`, the two shares of entry `(r, c)` XOR to
/// `a[r]·(y_gb[c] ⊕ y_ev[c])`.
pub proof fn lemma_chunked_outer_product(
    key: u128,
    kind: nat,
    xg: Seq<u128>,
    xe: Seq<u128>,
    a: Seq<bool>,
    delta: u128,
    cf: nat,
    levels: Seq<Seq<u128>>,
    cts: Seq<Seq<u128>>,
    yg: Seq<u128>,
    ye: Seq<u128>,
    r: nat,
    c: nat,
)
    requires
        cf > 0,
        xe.len() == xg.len(),
        a.len() == xg.len(),
        forall|t: int| 0 <= t < xg.len() ==> #[trigger] xe[t] == xg[t] ^ mul_bool_spec(delta, a[t]),
        r < xg.len(),
        c < yg.len(),
        c < ye.len(),
        r / cf < levels.len(),
        r / cf < cts.len(),
        levels[(r / cf) as int].len() + 1 == chunk_of(xg, cf, r / cf).len(),
        forall|l: int| 0 <= l < levels[(r / cf) as int].len() ==> #[trigger] levels[(r / cf) as int][l]
            == gen_level_ct(key, chunk_of(xg, cf, r / cf), delta, (l + 1) as nat),
        c < cts[(r / cf) as int].len(),
        cts[(r / cf) as int][c as int] == gen_ct(key, kind, gen_seeds(key, chunk_of(xg, cf, r / cf), delta), yg, c),
    ensures
        chunked_gen_z(key, kind, xg, delta, cf, r, c) ^ chunked_eval_z(key, kind, xe, a, levels, cts, ye, cf, r, c)
            == if a[r as int] {
            yg[c as int] ^ ye[c as int]
        } else {
            0
        },
{
    let n = xg.len();
    let s = r / cf;
    let k = r % cf;
    vstd::arithmetic::div_mod::lemma_fundamental_div_mod(r as int, cf as int);
    vstd::arithmetic::div_mod::lemma_mod_bound(r as int, cf as int);
    assert(cf * s <= r) by (nonlinear_arith)
        requires
            cf * s + k == r,
    ;
    assert(s < chunk_count(n, cf)) by {
        vstd::arithmetic::div_mod::lemma_fundamental_div_mod((n + cf - 1) as int, cf as int);
        vstd::arithmetic::div_mod::lemma_mod_bound((n + cf - 1) as int, cf as int);
        if s >= chunk_count(n, cf) {
            assert(cf * s >= cf * chunk_count(n, cf)) by (nonlinear_arith)
                requires
                    s >= chunk_count(n, cf),
            ;
        }
    }
    lemma_chunk_rows(n, cf, s);
    assert(k < chunk_len(n, cf, s)) by {
        if k >= chunk_len(n, cf, s) {
            assert(cf * (s + 1) == cf * s + cf);
        }
    }
    let xs = chunk_of(xg, cf, s);
    let ms = chunk_of(xe, cf, s);
    let bs = chunk_of(a, cf, s);
    assert forall|t: int| 0 <= t < xs.len() implies #[trigger] ms[t] == xs[t] ^ mul_bool_spec(delta, bs[t]) by {
        assert(xe[cf * s + t] == xg[cf * s + t] ^ mul_bool_spec(delta, a[cf * s + t]));
    }
    lemma_tensor_gadget(key, kind, xs, ms, bs, delta, levels[s as int], cts[s as int], yg, ye, k, c);
    assert(bs[k as int] == a[r as int]);
}

/// `cts` holds the garbler's wide leaf ciphertexts of every column.
pub open spec fn cts_pair_ok(key: u128, seeds: Seq<u128>, yg: Seq<u128>, ye: Seq<u128>, cts: Seq<(Block, Block)>) -> bool {
    &&& cts.len() == yg.len()
    &&& forall|c: int| 0 <= c < yg.len() ==> (#[trigger] cts[c]).0@ == gen_ct(key, 1, seeds, yg, c as nat)
        && cts[c].1@ == gen_ct(key, 2, seeds, ye, c as nat)
}

/// The κ-halves of nested wide ciphertexts.
pub open spec fn nested_fst(v: Seq<Vec<(Block, Block)>>) -> Seq<Seq<u128>> {
    Seq::new(v.len(), |s: int| Seq::new(v[s]@.len(), |t: int| v[s]@[t].0@))
}

/// The ρ-halves of nested wide ciphertexts.
pub open spec fn nested_snd(v: Seq<Vec<(Block, Block)>>) -> Seq<Seq<u128>> {
    Seq::new(v.len(), |s: int| Seq::new(v[s]@.len(), |t: int| v[s]@[t].1@))
}

/// Garbler's chunked wide outer product: one tree per chunk, expanded under
/// the κ tweaks against `y_d_gb` into `out_gb` and under the ρ tweaks against
/// `y_d_ev` into `out_ev`.
pub fn gen_chunked_outer_product_wide(
    x: &MatrixViewRef<Block>,
    y_d_gb: &MatrixViewRef<Block>,
    y_d_ev: &MatrixViewRef<Block>,
    out_gb: &mut BlockMatrix,
    out_ev: &mut BlockMatrix,
    cf: usize,
    cipher: &FixedKeyAes,
    delta: Delta,
) -> (r: (Vec<Vec<Block>>, Vec<Vec<(Block, Block)>>))
    requires
        x.vec_ok(),
        y_d_gb.vec_ok(),
        y_d_ev.vec_ok(),
        y_d_gb.view_rows == y_d_ev.view_rows,
        1 <= cf < usize::BITS,
        x.view_rows + cf <= usize::MAX,
        pow2(cf as nat) * y_d_gb.view_rows <= usize::MAX,
        old(out_gb).wf(),
        old(out_ev).wf(),
        x.view_rows <= old(out_gb).nrows(),
        x.view_rows <= old(out_ev).nrows(),
        y_d_gb.view_rows <= old(out_gb).ncols(),
        y_d_gb.view_rows <= old(out_ev).ncols(),
    ensures
        final(out_gb).wf(),
        final(out_ev).wf(),
        final(out_gb).nrows() == old(out_gb).nrows(),
        final(out_gb).ncols() == old(out_gb).ncols(),
        final(out_ev).nrows() == old(out_ev).nrows(),
        final(out_ev).ncols() == old(out_ev).ncols(),
        r.0@.len() == chunk_count(x.view_rows as nat, cf as nat),
        r.1@.len() == chunk_count(x.view_rows as nat, cf as nat),
        forall|s: int| 0 <= s < r.0@.len() ==> levels_ok(cipher.key_spec(), chunk_of(x.vec_vals(), cf as nat, s as nat),
            delta@, (#[trigger] r.0@[s])@),
        forall|s: int| 0 <= s < r.1@.len() ==> cts_pair_ok(cipher.key_spec(),
            gen_seeds(cipher.key_spec(), chunk_of(x.vec_vals(), cf as nat, s as nat), delta@), y_d_gb.vec_vals(),
            y_d_ev.vec_vals(), (#[trigger] r.1@[s])@),
        nested_vals(r.0@) == chunk_levels_spec(cipher.key_spec(), x.vec_vals(), delta@, cf as nat),
        nested_fst(r.1@) == chunk_cts_spec(cipher.key_spec(), 1, x.vec_vals(), delta@, cf as nat, y_d_gb.vec_vals()),
        nested_snd(r.1@) == chunk_cts_spec(cipher.key_spec(), 2, x.vec_vals(), delta@, cf as nat, y_d_ev.vec_vals()),
        forall|rr: int, c: int| 0 <= rr < old(out_gb).nrows() && 0 <= c < old(out_gb).ncols() ==>
            #[trigger] final(out_gb).val(rr, c) == if rr < x.view_rows && c < y_d_gb.view_rows {
                old(out_gb).val(rr, c) ^ chunked_gen_z(cipher.key_spec(), 1, x.vec_vals(), delta@, cf as nat, rr as nat, c as nat)
            } else {
                old(out_gb).val(rr, c)
            },
        forall|rr: int, c: int| 0 <= rr < old(out_ev).nrows() && 0 <= c < old(out_ev).ncols() ==>
            #[trigger] final(out_ev).val(rr, c) == if rr < x.view_rows && c < y_d_ev.view_rows {
                old(out_ev).val(rr, c) ^ chunked_gen_z(cipher.key_spec(), 2, x.vec_vals(), delta@, cf as nat, rr as nat, c as nat)
            } else {
                old(out_ev).val(rr, c)
            },
{
    let ghost key = cipher.key_spec();
    let ghost xv = x.vec_vals();
    let ghost bg = *out_gb;
    let ghost be = *out_ev;
    let n = x.view_rows;
    let m = y_d_gb.view_rows;
    let count = (n + cf - 1) / cf;
    let mut chunk_levels: Vec<Vec<Block>> = Vec::new();
    let mut chunk_cts: Vec<Vec<(Block, Block)>> = Vec::new();
    let mut s: usize = 0;
    while s < count
        invariant
            s <= count,
            count == chunk_count(n as nat, cf as nat),
            n == x.view_rows,
            m == y_d_gb.view_rows,
            m == y_d_ev.view_rows,
            xv == x.vec_vals(),
            key == cipher.key_spec(),
            x.vec_ok(),
            y_d_gb.vec_ok(),
            y_d_ev.vec_ok(),
            1 <= cf < usize::BITS,
            n + cf <= usize::MAX,
            pow2(cf as nat) * m <= usize::MAX,
            out_gb.wf(),
            out_ev.wf(),
            n <= bg.nrows(),
            n <= be.nrows(),
            m <= bg.ncols(),
            m <= be.ncols(),
            out_gb.nrows() == bg.nrows(),
            out_gb.ncols() == bg.ncols(),
            out_ev.nrows() == be.nrows(),
            out_ev.ncols() == be.ncols(),
            chunk_levels@.len() == s,
            chunk_cts@.len() == s,
            forall|t: int| 0 <= t < s ==> levels_ok(key, chunk_of(xv, cf as nat, t as nat), delta@,
                (#[trigger] chunk_levels@[t])@),
            forall|t: int| 0 <= t < s ==> cts_pair_ok(key, gen_seeds(key, chunk_of(xv, cf as nat, t as nat), delta@),
                y_d_gb.vec_vals(), y_d_ev.vec_vals(), (#[trigger] chunk_cts@[t])@),
            forall|rr: int, c: int| 0 <= rr < bg.nrows() && 0 <= c < bg.ncols() ==>
                #[trigger] out_gb.val(rr, c) == if rr < n && rr < cf * s && c < m {
                    bg.val(rr, c) ^ chunked_gen_z(key, 1, xv, delta@, cf as nat, rr as nat, c as nat)
                } else {
                    bg.val(rr, c)
                },
            forall|rr: int, c: int| 0 <= rr < be.nrows() && 0 <= c < be.ncols() ==>
                #[trigger] out_ev.val(rr, c) == if rr < n && rr < cf * s && c < m {
                    be.val(rr, c) ^ chunked_gen_z(key, 2, xv, delta@, cf as nat, rr as nat, c as nat)
                } else {
                    be.val(rr, c)
                },
        decreases count - s,
    {
        proof {
            lemma_chunk_rows(n as nat, cf as nat, s as nat);
        }
        let start = cf * s;
        let size: usize = if cf * (s + 1) > n { n - cf * s } else { cf };
        let slice = copy_rows(x, start, size);
        let ghost xs = chunk_of(xv, cf as nat, s as nat);
        proof {
            assert(block_vals(slice@) =~= xs);
            if size < cf {
                lemma_pow2_strictly_increases(size as nat, cf as nat);
            }
            assert(pow2(size as nat) * m <= pow2(cf as nat) * m) by (nonlinear_arith)
                requires
                    pow2(size as nat) <= pow2(cf as nat),
            ;
        }
        let (seeds, levels) = gen_populate_seeds_mem_optimized(slice.as_slice(), cipher, delta);
        let cts = gen_unary_outer_product_wide(seeds.as_slice(), y_d_gb, y_d_ev, out_gb, out_ev, start, size, cipher);
        proof {
            assert(size == chunk_len(n as nat, cf as nat, s as nat));
            assert(cf * (s + 1) == cf * s + cf) by (nonlinear_arith);
            assert forall|rr: int, c: int| 0 <= rr < bg.nrows() && 0 <= c < bg.ncols() implies
                #[trigger] out_gb.val(rr, c) == if rr < n && rr < cf * (s + 1) && c < m {
                    bg.val(rr, c) ^ chunked_gen_z(key, 1, xv, delta@, cf as nat, rr as nat, c as nat)
                } else {
                    bg.val(rr, c)
                } by {
                if in_rows(start as int, size as int, rr) {
                    let k = (rr - start) as nat;
                    assert((cf as int) * (s as int) == (s as int) * (cf as int)) by (nonlinear_arith);
                    vstd::arithmetic::div_mod::lemma_fundamental_div_mod_converse(rr, cf as int, s as int, k as int);
                }
            }
            assert forall|rr: int, c: int| 0 <= rr < be.nrows() && 0 <= c < be.ncols() implies
                #[trigger] out_ev.val(rr, c) == if rr < n && rr < cf * (s + 1) && c < m {
                    be.val(rr, c) ^ chunked_gen_z(key, 2, xv, delta@, cf as nat, rr as nat, c as nat)
                } else {
                    be.val(rr, c)
                } by {
                if in_rows(start as int, size as int, rr) {
                    let k = (rr - start) as nat;
                    assert((cf as int) * (s as int) == (s as int) * (cf as int)) by (nonlinear_arith);
                    vstd::arithmetic::div_mod::lemma_fundamental_div_mod_converse(rr, cf as int, s as int, k as int);
                }
            }
            assert(cts_pair_ok(key, gen_seeds(key, xs, delta@), y_d_gb.vec_vals(), y_d_ev.vec_vals(), cts@));
        }
        chunk_levels.push(levels);
        chunk_cts.push(cts);
        s = s + 1;
    }
    proof {
        vstd::arithmetic::div_mod::lemma_fundamental_div_mod((n + cf - 1) as int, cf as int);
        vstd::arithmetic::div_mod::lemma_mod_bound((n + cf - 1) as int, cf as int);
        assert(n <= cf * count);
        assert(nested_vals(chunk_levels@) =~= chunk_levels_spec(key, xv, delta@, cf as nat)) by {
            assert forall|t: int| 0 <= t < count implies #[trigger] nested_vals(chunk_levels@)[t]
                =~= chunk_levels_spec(key, xv, delta@, cf as nat)[t] by {
                assert(levels_ok(key, chunk_of(xv, cf as nat, t as nat), delta@, chunk_levels@[t]@));
            }
        }
        assert(nested_fst(chunk_cts@) =~= chunk_cts_spec(key, 1, xv, delta@, cf as nat, y_d_gb.vec_vals())) by {
            assert forall|t: int| 0 <= t < count implies #[trigger] nested_fst(chunk_cts@)[t]
                =~= chunk_cts_spec(key, 1, xv, delta@, cf as nat, y_d_gb.vec_vals())[t] by {
                assert(cts_pair_ok(key, gen_seeds(key, chunk_of(xv, cf as nat, t as nat), delta@), y_d_gb.vec_vals(),
                    y_d_ev.vec_vals(), chunk_cts@[t]@));
            }
        }
        assert(nested_snd(chunk_cts@) =~= chunk_cts_spec(key, 2, xv, delta@, cf as nat, y_d_ev.vec_vals())) by {
            assert forall|t: int| 0 <= t < count implies #[trigger] nested_snd(chunk_cts@)[t]
                =~= chunk_cts_spec(key, 2, xv, delta@, cf as nat, y_d_ev.vec_vals())[t] by {
                assert(cts_pair_ok(key, gen_seeds(key, chunk_of(xv, cf as nat, t as nat), delta@), y_d_gb.vec_vals(),
                    y_d_ev.vec_vals(), chunk_cts@[t]@));
            }
        }
    }
    (chunk_levels, chunk_cts)
}

/// Evaluator's chunked wide outer product, the mirror of
/// [`gen_chunked_outer_product_wide`].
pub fn eval_chunked_outer_product_wide(
    x: &MatrixViewRef<Block>,
    y_d_gb: &MatrixViewRef<Block>,
    y_d_ev: &MatrixViewRef<Block>,
    choice_bits: &[bool],
    out_gb: &mut BlockMatrix,
    out_ev: &mut BlockMatrix,
    cf: usize,
    cipher: &FixedKeyAes,
    chunk_levels: &[Vec<Block>],
    chunk_cts: &[Vec<(Block, Block)>],
)
    requires
        x.vec_ok(),
        y_d_gb.vec_ok(),
        y_d_ev.vec_ok(),
        y_d_gb.view_rows == y_d_ev.view_rows,
        choice_bits@.len() == x.view_rows,
        1 <= cf < usize::BITS,
        x.view_rows + cf <= usize::MAX,
        pow2(cf as nat) * y_d_gb.view_rows <= usize::MAX,
        old(out_gb).wf(),
        old(out_ev).wf(),
        x.view_rows <= old(out_gb).nrows(),
        x.view_rows <= old(out_ev).nrows(),
        y_d_gb.view_rows <= old(out_gb).ncols(),
        y_d_gb.view_rows <= old(out_ev).ncols(),
        chunk_levels@.len() == chunk_count(x.view_rows as nat, cf as nat),
        chunk_cts@.len() == chunk_count(x.view_rows as nat, cf as nat),
        forall|s: int| 0 <= s < chunk_levels@.len() ==>
            (#[trigger] chunk_levels@[s])@.len() + 1 == chunk_len(x.view_rows as nat, cf as nat, s as nat),
        forall|s: int| 0 <= s < chunk_cts@.len() ==> (#[trigger] chunk_cts@[s])@.len() == y_d_gb.view_rows,
    ensures
        final(out_gb).wf(),
        final(out_ev).wf(),
        final(out_gb).nrows() == old(out_gb).nrows(),
        final(out_gb).ncols() == old(out_gb).ncols(),
        final(out_ev).nrows() == old(out_ev).nrows(),
        final(out_ev).ncols() == old(out_ev).ncols(),
        forall|rr: int, c: int| 0 <= rr < old(out_gb).nrows() && 0 <= c < old(out_gb).ncols() ==>
            #[trigger] final(out_gb).val(rr, c) == if rr < x.view_rows && c < y_d_gb.view_rows {
                old(out_gb).val(rr, c) ^ chunked_eval_z(cipher.key_spec(), 1, x.vec_vals(), choice_bits@,
                    nested_vals(chunk_levels@), nested_fst(chunk_cts@), y_d_gb.vec_vals(), cf as nat, rr as nat, c as nat)
            } else {
                old(out_gb).val(rr, c)
            },
        forall|rr: int, c: int| 0 <= rr < old(out_ev).nrows() && 0 <= c < old(out_ev).ncols() ==>
            #[trigger] final(out_ev).val(rr, c) == if rr < x.view_rows && c < y_d_ev.view_rows {
                old(out_ev).val(rr, c) ^ chunked_eval_z(cipher.key_spec(), 2, x.vec_vals(), choice_bits@,
                    nested_vals(chunk_levels@), nested_snd(chunk_cts@), y_d_ev.vec_vals(), cf as nat, rr as nat, c as nat)
            } else {
                old(out_ev).val(rr, c)
            },
{
    let ghost key = cipher.key_spec();
    let ghost xv = x.vec_vals();
    let ghost bg = *out_gb;
    let ghost be = *out_ev;
    let n = x.view_rows;
    let m = y_d_gb.view_rows;
    let count = (n + cf - 1) / cf;
    let mut s: usize = 0;
    while s < count
        invariant
            s <= count,
            count == chunk_count(n as nat, cf as nat),
            n == x.view_rows,
            m == y_d_gb.view_rows,
            m == y_d_ev.view_rows,
            xv == x.vec_vals(),
            key == cipher.key_spec(),
            x.vec_ok(),
            y_d_gb.vec_ok(),
            y_d_ev.vec_ok(),
            choice_bits@.len() == n,
            1 <= cf < usize::BITS,
            n + cf <= usize::MAX,
            pow2(cf as nat) * m <= usize::MAX,
            out_gb.wf(),
            out_ev.wf(),
            n <= bg.nrows(),
            n <= be.nrows(),
            m <= bg.ncols(),
            m <= be.ncols(),
            out_gb.nrows() == bg.nrows(),
            out_gb.ncols() == bg.ncols(),
            out_ev.nrows() == be.nrows(),
            out_ev.ncols() == be.ncols(),
            chunk_levels@.len() == count,
            chunk_cts@.len() == count,
            forall|t: int| 0 <= t < chunk_levels@.len() ==>
                (#[trigger] chunk_levels@[t])@.len() + 1 == chunk_len(n as nat, cf as nat, t as nat),
            forall|t: int| 0 <= t < chunk_cts@.len() ==> (#[trigger] chunk_cts@[t])@.len() == m,
            forall|rr: int, c: int| 0 <= rr < bg.nrows() && 0 <= c < bg.ncols() ==>
                #[trigger] out_gb.val(rr, c) == if rr < n && rr < cf * s && c < m {
                    bg.val(rr, c) ^ chunked_eval_z(key, 1, xv, choice_bits@, nested_vals(chunk_levels@),
                        nested_fst(chunk_cts@), y_d_gb.vec_vals(), cf as nat, rr as nat, c as nat)
                } else {
                    bg.val(rr, c)
                },
            forall|rr: int, c: int| 0 <= rr < be.nrows() && 0 <= c < be.ncols() ==>
                #[trigger] out_ev.val(rr, c) == if rr < n && rr < cf * s && c < m {
                    be.val(rr, c) ^ chunked_eval_z(key, 2, xv, choice_bits@, nested_vals(chunk_levels@),
                        nested_snd(chunk_cts@), y_d_ev.vec_vals(), cf as nat, rr as nat, c as nat)
                } else {
                    be.val(rr, c)
                },
        decreases count - s,
    {
        proof {
            lemma_chunk_rows(n as nat, cf as nat, s as nat);
        }
        let start = cf * s;
        let size: usize = if cf * (s + 1) > n { n - cf * s } else { cf };
        let slice = copy_rows(x, start, size);
        let bits = copy_bits(choice_bits, start, size);
        let ghost xs = chunk_of(xv, cf as nat, s as nat);
        proof {
            assert(block_vals(slice@) =~= xs);
            if size < cf {
                lemma_pow2_strictly_increases(size as nat, cf as nat);
            }
            assert(pow2(size as nat) * m <= pow2(cf as nat) * m) by (nonlinear_arith)
                requires
                    pow2(size as nat) <= pow2(cf as nat),
            ;
        }
        let (seeds, missing) = eval_populate_seeds_mem_optimized(
            slice.as_slice(),
            bits.as_slice(),
            chunk_levels[s].as_slice(),
            cipher,
        );
        proof {
            lemma_eval_missing_bits(bits@, (size - 1) as nat);
        }
        let _recovered = eval_unary_outer_product_wide(
            seeds.as_slice(),
            y_d_gb,
            y_d_ev,
            out_gb,
            out_ev,
            start,
            size,
            cipher,
            missing,
            chunk_cts[s].as_slice(),
        );
        proof {
            assert(size == chunk_len(n as nat, cf as nat, s as nat));
            assert(cf * (s + 1) == cf * s + cf) by (nonlinear_arith);
            assert(chunk_of(choice_bits@, cf as nat, s as nat) =~= bits@);
            assert(nested_vals(chunk_levels@)[s as int] == block_vals(chunk_levels@[s as int]@));
            assert(nested_fst(chunk_cts@)[s as int] =~= Seq::new(chunk_cts@[s as int]@.len(), |t: int| chunk_cts@[s as int]@[t].0@));
            assert(nested_snd(chunk_cts@)[s as int] =~= Seq::new(chunk_cts@[s as int]@.len(), |t: int| chunk_cts@[s as int]@[t].1@));
            assert forall|rr: int, c: int| 0 <= rr < bg.nrows() && 0 <= c < bg.ncols() implies
                #[trigger] out_gb.val(rr, c) == if rr < n && rr < cf * (s + 1) && c < m {
                    bg.val(rr, c) ^ chunked_eval_z(key, 1, xv, choice_bits@, nested_vals(chunk_levels@),
                        nested_fst(chunk_cts@), y_d_gb.vec_vals(), cf as nat, rr as nat, c as nat)
                } else {
                    bg.val(rr, c)
                } by {
                if in_rows(start as int, size as int, rr) {
                    let k = (rr - start) as nat;
                    assert((cf as int) * (s as int) == (s as int) * (cf as int)) by (nonlinear_arith);
                    vstd::arithmetic::div_mod::lemma_fundamental_div_mod_converse(rr, cf as int, s as int, k as int);
                }
            }
            assert forall|rr: int, c: int| 0 <= rr < be.nrows() && 0 <= c < be.ncols() implies
                #[trigger] out_ev.val(rr, c) == if rr < n && rr < cf * (s + 1) && c < m {
                    be.val(rr, c) ^ chunked_eval_z(key, 2, xv, choice_bits@, nested_vals(chunk_levels@),
                        nested_snd(chunk_cts@), y_d_ev.vec_vals(), cf as nat, rr as nat, c as nat)
                } else {
                    be.val(rr, c)
                } by {
                if in_rows(start as int, size as int, rr) {
                    let k = (rr - start) as nat;
                    assert((cf as int) * (s as int) == (s as int) * (cf as int)) by (nonlinear_arith);
                    vstd::arithmetic::div_mod::lemma_fundamental_div_mod_converse(rr, cf as int, s as int, k as int);
                }
            }
        }
        s = s + 1;
    }
    proof {
        vstd::arithmetic::div_mod::lemma_fundamental_div_mod((n + cf - 1) as int, cf as int);
        vstd::arithmetic::div_mod::lemma_mod_bound((n + cf - 1) as int, cf as int);
        assert(n <= cf * count);
    }
}

} // verus!
