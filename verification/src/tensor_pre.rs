//! Semi-honest preprocessing for one tensor gate: input label sharings under a
//! single `Δ`, random masks α, β held by the garbler, and the masked input
//! labels the two parties start the tensor gate with.

use vstd::prelude::*;
use vstd::arithmetic::power2::pow2;
use crate::block::{Block, lsb_of, with_lsb, mul_bool_spec, group_xor};
use crate::delta::Delta;
use crate::sharing::InputSharing;
use crate::matrix::{pack_bits, usize_modulus, pack_bool_bits};
use crate::input_encoding::{input_bit, input_bit_at};
use crate::random::{chacha_from_seed, chacha_next_bool};
use rand_chacha::ChaCha12Rng;

verus! {

broadcast use group_xor;

/// The semi-honest dealer's state.
pub struct SemiHonestTensorPre {
    pub rng: ChaCha12Rng,
    pub n: usize,
    pub m: usize,
    pub chunking_factor: usize,
    pub delta: Delta,
    pub x_labels: Vec<InputSharing>,
    pub y_labels: Vec<InputSharing>,
    pub alpha_labels: Vec<InputSharing>,
    pub beta_labels: Vec<InputSharing>,
}

/// The garbler's half of the dealer's output.
pub struct SemiHonestTensorPreGen {
    pub n: usize,
    pub m: usize,
    pub chunking_factor: usize,
    pub delta: Delta,
    pub x_labels: Vec<Block>,
    pub y_labels: Vec<Block>,
    pub alpha_labels: Vec<Block>,
    pub beta_labels: Vec<Block>,
}

/// The evaluator's half of the dealer's output.
pub struct SemiHonestTensorPreEval {
    pub n: usize,
    pub m: usize,
    pub chunking_factor: usize,
    pub x_labels: Vec<Block>,
    pub y_labels: Vec<Block>,
}

/// A label sharing of `bit`: the garbler's share has pointer bit 0 and the
/// evaluator's is it plus `bit·Δ`.
pub open spec fn label_ok(s: InputSharing, bit: bool, delta: u128) -> bool {
    &&& !lsb_of(s.gen_share@)
    &&& s.eval_share@ == s.gen_share@ ^ mul_bool_spec(delta, bit)
}

/// A mask sharing of `bit`: the garbler holds `bit·Δ`, the evaluator zero.
pub open spec fn mask_ok(s: InputSharing, bit: bool, delta: u128) -> bool {
    &&& s.gen_share@ == mul_bool_spec(delta, bit)
    &&& s.eval_share@ == 0
}

/// Whether the two shares of a sharing differ.
pub open spec fn differs(s: InputSharing) -> bool {
    s.gen_share@ != s.eval_share@
}

/// The sharing `s` masked by `mask`: each party adds the other's mask share.
pub open spec fn masked_sharing(s: InputSharing, mask: InputSharing) -> InputSharing {
    InputSharing {
        gen_share: Block { v: s.gen_share@ ^ mask.eval_share@ },
        eval_share: Block { v: s.eval_share@ ^ mask.gen_share@ },
    }
}

/// The bits `differs(s[i]) ⊕ differs(t[i])` of two vectors of sharings.
pub open spec fn masked_bits(s: Seq<InputSharing>, t: Seq<InputSharing>, len: nat) -> Seq<bool> {
    Seq::new(len, |i: int| differs(s[i]) != differs(t[i]))
}

/// The garbler's shares of a vector of sharings.
pub open spec fn gen_shares_of(s: Seq<InputSharing>) -> Seq<Block> {
    Seq::new(s.len(), |i: int| s[i].gen_share)
}

/// The evaluator's shares of a vector of sharings.
pub open spec fn eval_shares_of(s: Seq<InputSharing>) -> Seq<Block> {
    Seq::new(s.len(), |i: int| s[i].eval_share)
}

/// What the dealer's input step does (`p0 → p1`): it appends label sharings
/// of the `n` bits of `x` and the `m` bits of `y` and keeps the rest.
pub open spec fn inputs_dealt(p0: SemiHonestTensorPre, p1: SemiHonestTensorPre, x: usize, y: usize) -> bool {
    &&& p1.n == p0.n
    &&& p1.m == p0.m
    &&& p1.chunking_factor == p0.chunking_factor
    &&& p1.delta == p0.delta
    &&& p1.alpha_labels == p0.alpha_labels
    &&& p1.beta_labels == p0.beta_labels
    &&& p1.x_labels@.len() == p0.x_labels@.len() + p0.n
    &&& p1.y_labels@.len() == p0.y_labels@.len() + p0.m
    &&& forall|i: int| 0 <= i < p0.n ==> label_ok(#[trigger] p1.x_labels@[p0.x_labels@.len() + i], input_bit(x, i),
        p0.delta@)
    &&& forall|j: int| 0 <= j < p0.m ==> label_ok(#[trigger] p1.y_labels@[p0.y_labels@.len() + j], input_bit(y, j),
        p0.delta@)
}

/// What the dealer's mask step does (`p0 → p1`): it appends mask sharings of
/// `n` bits α and `m` bits β (the garbler holding `bit·Δ`) and keeps the rest.
pub open spec fn masks_dealt(p0: SemiHonestTensorPre, p1: SemiHonestTensorPre) -> bool {
    &&& p1.n == p0.n
    &&& p1.m == p0.m
    &&& p1.chunking_factor == p0.chunking_factor
    &&& p1.delta == p0.delta
    &&& p1.x_labels == p0.x_labels
    &&& p1.y_labels == p0.y_labels
    &&& p1.alpha_labels@.len() == p0.alpha_labels@.len() + p0.n
    &&& p1.beta_labels@.len() == p0.beta_labels@.len() + p0.m
    &&& forall|i: int| 0 <= i < p0.n ==> mask_ok(#[trigger] p1.alpha_labels@[p0.alpha_labels@.len() + i],
        p1.alpha_labels@[p0.alpha_labels@.len() + i].gen_share@ != 0, p0.delta@)
    &&& forall|j: int| 0 <= j < p0.m ==> mask_ok(#[trigger] p1.beta_labels@[p0.beta_labels@.len() + j],
        p1.beta_labels@[p0.beta_labels@.len() + j].gen_share@ != 0, p0.delta@)
}

/// What the dealer's masking step does (`p0 → p1`): the first `n` input
/// sharings of `x` and `m` of `y` are masked by the α and β sharings; the rest
/// stays.
pub open spec fn inputs_masked(p0: SemiHonestTensorPre, p1: SemiHonestTensorPre) -> bool {
    &&& p1.n == p0.n
    &&& p1.m == p0.m
    &&& p1.chunking_factor == p0.chunking_factor
    &&& p1.delta == p0.delta
    &&& p1.alpha_labels == p0.alpha_labels
    &&& p1.beta_labels == p0.beta_labels
    &&& p1.x_labels@.len() == p0.x_labels@.len()
    &&& p1.y_labels@.len() == p0.y_labels@.len()
    &&& forall|i: int| 0 <= i < p1.x_labels@.len() ==> #[trigger] p1.x_labels@[i] == if i < p0.n {
        masked_sharing(p0.x_labels@[i], p0.alpha_labels@[i])
    } else {
        p0.x_labels@[i]
    }
    &&& forall|j: int| 0 <= j < p1.y_labels@.len() ==> #[trigger] p1.y_labels@[j] == if j < p0.m {
        masked_sharing(p0.y_labels@[j], p0.beta_labels@[j])
    } else {
        p0.y_labels@[j]
    }
}

/// How the dealer's state splits into the garbler's and evaluator's halves.
pub open spec fn dealer_split(p: SemiHonestTensorPre, g: SemiHonestTensorPreGen, e: SemiHonestTensorPreEval) -> bool {
    &&& g.n == p.n
    &&& g.m == p.m
    &&& g.chunking_factor == p.chunking_factor
    &&& g.delta == p.delta
    &&& g.x_labels@ == gen_shares_of(p.x_labels@)
    &&& g.y_labels@ == gen_shares_of(p.y_labels@)
    &&& g.alpha_labels@ == gen_shares_of(p.alpha_labels@)
    &&& g.beta_labels@ == gen_shares_of(p.beta_labels@)
    &&& e.n == p.n
    &&& e.m == p.m
    &&& e.chunking_factor == p.chunking_factor
    &&& e.x_labels@ == eval_shares_of(p.x_labels@)
    &&& e.y_labels@ == eval_shares_of(p.y_labels@)
}

/// `len` fresh label sharings of the bits of `v` under `delta`.
fn label_sharings(rng: &mut ChaCha12Rng, v: usize, len: usize, delta: &Delta) -> (r: Vec<InputSharing>)
    ensures
        r@.len() == len,
        forall|i: int| 0 <= i < len ==> label_ok(#[trigger] r@[i], input_bit(v, i), delta@),
{
    let mut r: Vec<InputSharing> = Vec::with_capacity(len);
    let mut i: usize = 0;
    while i < len
        invariant
            i <= len,
            r@.len() == i,
            forall|t: int| 0 <= t < i ==> label_ok(#[trigger] r@[t], input_bit(v, t), delta@),
        decreases len - i,
    {
        let bit = input_bit_at(v, i);
        let mut gb_share = Block::random(rng);
        gb_share.set_lsb(false);
        let ev_share = if bit { gb_share ^ *delta.as_block() } else { gb_share };
        proof {
            crate::block::lemma_xor_zero(gb_share@);
        }
        r.push(InputSharing { gen_share: gb_share, eval_share: ev_share });
        i = i + 1;
    }
    r
}

/// `len` fresh random masks, their sharings (garbler holds `bit·Δ`), and the
/// bits packed into a word, bit 0 least significant.
fn mask_sharings(rng: &mut ChaCha12Rng, len: usize, delta: &Delta) -> (r: (Vec<InputSharing>, usize))
    ensures
        r.0@.len() == len,
        delta@ != 0 ==> r.1 as nat == pack_bits(Seq::new(len as nat, |i: int| r.0@[i].gen_share@ != 0))
            % usize_modulus(),
        forall|i: int| 0 <= i < len ==> mask_ok(#[trigger] r.0@[i], r.0@[i].gen_share@ != 0, delta@),
{
    let mut r: Vec<InputSharing> = Vec::with_capacity(len);
    let mut bits: Vec<bool> = Vec::with_capacity(len);
    let mut i: usize = 0;
    while i < len
        invariant
            i <= len,
            r@.len() == i,
            bits@.len() == i,
            forall|t: int| 0 <= t < i ==> #[trigger] r@[t].gen_share@ == mul_bool_spec(delta@, bits@[t]),
            forall|t: int| 0 <= t < i ==> #[trigger] r@[t].eval_share@ == 0,
        decreases len - i,
    {
        let bit = chacha_next_bool(rng);
        let gb_share = if bit { *delta.as_block() } else { Block::default() };
        r.push(InputSharing { gen_share: gb_share, eval_share: Block::default() });
        bits.push(bit);
        i = i + 1;
    }
    let packed = pack_bool_bits(bits.as_slice());
    proof {
        if delta@ != 0 {
            assert(Seq::new(len as nat, |i: int| r@[i].gen_share@ != 0) =~= bits@);
        }
    }
    (r, packed)
}

impl SemiHonestTensorPre {
    /// A dealer for `n × m` with its generator seeded from `seed` and a fresh
    /// `Δ` (pointer bit 1) from the thread-local generator.
    pub fn new(seed: u64, n: usize, m: usize, chunking_factor: usize) -> (r: SemiHonestTensorPre)
        ensures
            r.n == n,
            r.m == m,
            r.chunking_factor == chunking_factor,
            lsb_of(r.delta@),
            r.x_labels@.len() == 0,
            r.y_labels@.len() == 0,
            r.alpha_labels@.len() == 0,
            r.beta_labels@.len() == 0,
    {
        let delta = Delta::new(Block::random_from_thread());
        Self::new_with_delta(seed, n, m, chunking_factor, delta)
    }

    /// A dealer for `n × m` with the given `delta`.
    pub fn new_with_delta(seed: u64, n: usize, m: usize, chunking_factor: usize, delta: Delta) -> (r:
        SemiHonestTensorPre)
        ensures
            r.n == n,
            r.m == m,
            r.chunking_factor == chunking_factor,
            r.delta == delta,
            r.x_labels@.len() == 0,
            r.y_labels@.len() == 0,
            r.alpha_labels@.len() == 0,
            r.beta_labels@.len() == 0,
    {
        SemiHonestTensorPre {
            rng: chacha_from_seed(seed),
            n,
            m,
            chunking_factor,
            delta,
            x_labels: Vec::with_capacity(n),
            y_labels: Vec::with_capacity(m),
            alpha_labels: Vec::with_capacity(n),
            beta_labels: Vec::with_capacity(m),
        }
    }

    /// Appends label sharings of the `n` bits of `x` and the `m` bits of `y`.
    pub fn gen_inputs(&mut self, x: usize, y: usize)
        requires
            old(self).n < usize::BITS,
            old(self).m < usize::BITS,
            x < pow2(old(self).n as nat),
            y < pow2(old(self).m as nat),
        ensures
            inputs_dealt(*old(self), *final(self), x, y),
            final(self).n == old(self).n,
            final(self).m == old(self).m,
            final(self).chunking_factor == old(self).chunking_factor,
            final(self).delta == old(self).delta,
            final(self).alpha_labels == old(self).alpha_labels,
            final(self).beta_labels == old(self).beta_labels,
            final(self).x_labels@.len() == old(self).x_labels@.len() + old(self).n,
            final(self).y_labels@.len() == old(self).y_labels@.len() + old(self).m,
            final(self).x_labels@.subrange(0, old(self).x_labels@.len() as int) == old(self).x_labels@,
            final(self).y_labels@.subrange(0, old(self).y_labels@.len() as int) == old(self).y_labels@,
            forall|i: int| 0 <= i < old(self).n ==> label_ok(
                #[trigger] final(self).x_labels@[old(self).x_labels@.len() + i], input_bit(x, i), old(self).delta@),
            forall|j: int| 0 <= j < old(self).m ==> label_ok(
                #[trigger] final(self).y_labels@[old(self).y_labels@.len() + j], input_bit(y, j), old(self).delta@),
    {
        let delta = self.delta;
        let mut xs = label_sharings(&mut self.rng, x, self.n, &delta);
        let mut ys = label_sharings(&mut self.rng, y, self.m, &delta);
        let ghost xs0 = xs@;
        let ghost ys0 = ys@;
        self.x_labels.append(&mut xs);
        self.y_labels.append(&mut ys);
        proof {
            assert forall|i: int| 0 <= i < self.n implies label_ok(
                #[trigger] self.x_labels@[old(self).x_labels@.len() + i], input_bit(x, i), delta@) by {
                assert(self.x_labels@[old(self).x_labels@.len() + i] == xs0[i]);
            }
            assert forall|j: int| 0 <= j < self.m implies label_ok(
                #[trigger] self.y_labels@[old(self).y_labels@.len() + j], input_bit(y, j), delta@) by {
                assert(self.y_labels@[old(self).y_labels@.len() + j] == ys0[j]);
            }
            assert(self.x_labels@.subrange(0, old(self).x_labels@.len() as int) =~= old(self).x_labels@);
            assert(self.y_labels@.subrange(0, old(self).y_labels@.len() as int) =~= old(self).y_labels@);
        }
    }

    /// Appends random masks α (n) and β (m), the garbler holding `bit·Δ`;
    /// returns them packed, bit 0 least significant.
    pub fn gen_masks(&mut self) -> (r: (usize, usize))
        ensures
            masks_dealt(*old(self), *final(self)),
            final(self).n == old(self).n,
            final(self).m == old(self).m,
            final(self).chunking_factor == old(self).chunking_factor,
            final(self).delta == old(self).delta,
            final(self).x_labels == old(self).x_labels,
            final(self).y_labels == old(self).y_labels,
            final(self).alpha_labels@.len() == old(self).alpha_labels@.len() + old(self).n,
            final(self).beta_labels@.len() == old(self).beta_labels@.len() + old(self).m,
            final(self).alpha_labels@.subrange(0, old(self).alpha_labels@.len() as int) == old(self).alpha_labels@,
            final(self).beta_labels@.subrange(0, old(self).beta_labels@.len() as int) == old(self).beta_labels@,
            forall|i: int| 0 <= i < old(self).n ==> mask_ok(
                #[trigger] final(self).alpha_labels@[old(self).alpha_labels@.len() + i],
                final(self).alpha_labels@[old(self).alpha_labels@.len() + i].gen_share@ != 0, old(self).delta@),
            forall|j: int| 0 <= j < old(self).m ==> mask_ok(
                #[trigger] final(self).beta_labels@[old(self).beta_labels@.len() + j],
                final(self).beta_labels@[old(self).beta_labels@.len() + j].gen_share@ != 0, old(self).delta@),
            old(self).delta@ != 0 ==> r.0 as nat == pack_bits(Seq::new(old(self).n as nat, |i: int| final(
                self).alpha_labels@[old(self).alpha_labels@.len() + i].gen_share@ != 0)) % usize_modulus(),
            old(self).delta@ != 0 ==> r.1 as nat == pack_bits(Seq::new(old(self).m as nat, |j: int| final(
                self).beta_labels@[old(self).beta_labels@.len() + j].gen_share@ != 0)) % usize_modulus(),
    {
        let delta = self.delta;
        let (mut alphas, alpha) = mask_sharings(&mut self.rng, self.n, &delta);
        let (mut betas, beta) = mask_sharings(&mut self.rng, self.m, &delta);
        let ghost a0 = alphas@;
        let ghost b0 = betas@;
        self.alpha_labels.append(&mut alphas);
        self.beta_labels.append(&mut betas);
        proof {
            let la = old(self).alpha_labels@.len() as int;
            let lb = old(self).beta_labels@.len() as int;
            assert forall|i: int| 0 <= i < self.n implies #[trigger] self.alpha_labels@[la + i] == a0[i] by {}
            assert forall|j: int| 0 <= j < self.m implies #[trigger] self.beta_labels@[lb + j] == b0[j] by {}
            assert(Seq::new(self.n as nat, |i: int| self.alpha_labels@[la + i].gen_share@ != 0) =~= Seq::new(
                self.n as nat, |i: int| a0[i].gen_share@ != 0));
            assert(Seq::new(self.m as nat, |j: int| self.beta_labels@[lb + j].gen_share@ != 0) =~= Seq::new(
                self.m as nat, |j: int| b0[j].gen_share@ != 0));
            assert(self.alpha_labels@.subrange(0, la) =~= old(self).alpha_labels@);
            assert(self.beta_labels@.subrange(0, lb) =~= old(self).beta_labels@);
        }
        (alpha, beta)
    }

    /// Masks the first `n` input sharings by α and the first `m` by β (each
    /// party adds the other's mask share) and returns the masked bits
    /// `differs(x_i) ⊕ differs(α_i)` and `differs(y_j) ⊕ differs(β_j)`, packed.
    pub fn mask_inputs(&mut self) -> (r: (usize, usize))
        requires
            old(self).x_labels@.len() == old(self).alpha_labels@.len(),
            old(self).y_labels@.len() == old(self).beta_labels@.len(),
            old(self).n <= old(self).x_labels@.len(),
            old(self).m <= old(self).y_labels@.len(),
        ensures
            inputs_masked(*old(self), *final(self)),
            final(self).n == old(self).n,
            final(self).m == old(self).m,
            final(self).chunking_factor == old(self).chunking_factor,
            final(self).delta == old(self).delta,
            final(self).alpha_labels == old(self).alpha_labels,
            final(self).beta_labels == old(self).beta_labels,
            final(self).x_labels@.len() == old(self).x_labels@.len(),
            final(self).y_labels@.len() == old(self).y_labels@.len(),
            forall|i: int| 0 <= i < final(self).x_labels@.len() ==> #[trigger] final(self).x_labels@[i] == if i
                < old(self).n {
                masked_sharing(old(self).x_labels@[i], old(self).alpha_labels@[i])
            } else {
                old(self).x_labels@[i]
            },
            forall|j: int| 0 <= j < final(self).y_labels@.len() ==> #[trigger] final(self).y_labels@[j] == if j
                < old(self).m {
                masked_sharing(old(self).y_labels@[j], old(self).beta_labels@[j])
            } else {
                old(self).y_labels@[j]
            },
            r.0 as nat == pack_bits(masked_bits(old(self).x_labels@, old(self).alpha_labels@, old(self).n as nat))
                % usize_modulus(),
            r.1 as nat == pack_bits(masked_bits(old(self).y_labels@, old(self).beta_labels@, old(self).m as nat))
                % usize_modulus(),
    {
        let (xs, x_bits) = mask_vector(&self.x_labels, &self.alpha_labels, self.n);
        let (ys, y_bits) = mask_vector(&self.y_labels, &self.beta_labels, self.m);
        self.x_labels = xs;
        self.y_labels = ys;
        (pack_bool_bits(x_bits.as_slice()), pack_bool_bits(y_bits.as_slice()))
    }

    /// Splits the dealer's state into the garbler's and the evaluator's halves.
    pub fn into_gen_eval(self) -> (r: (SemiHonestTensorPreGen, SemiHonestTensorPreEval))
        ensures
            dealer_split(self, r.0, r.1),
            r.0.n == self.n,
            r.0.m == self.m,
            r.0.chunking_factor == self.chunking_factor,
            r.0.delta == self.delta,
            r.0.x_labels@ == gen_shares_of(self.x_labels@),
            r.0.y_labels@ == gen_shares_of(self.y_labels@),
            r.0.alpha_labels@ == gen_shares_of(self.alpha_labels@),
            r.0.beta_labels@ == gen_shares_of(self.beta_labels@),
            r.1.n == self.n,
            r.1.m == self.m,
            r.1.chunking_factor == self.chunking_factor,
            r.1.x_labels@ == eval_shares_of(self.x_labels@),
            r.1.y_labels@ == eval_shares_of(self.y_labels@),
    {
        let gen = SemiHonestTensorPreGen {
            n: self.n,
            m: self.m,
            chunking_factor: self.chunking_factor,
            delta: self.delta,
            x_labels: split_shares(&self.x_labels, true),
            y_labels: split_shares(&self.y_labels, true),
            alpha_labels: split_shares(&self.alpha_labels, true),
            beta_labels: split_shares(&self.beta_labels, true),
        };
        let eval = SemiHonestTensorPreEval {
            n: self.n,
            m: self.m,
            chunking_factor: self.chunking_factor,
            x_labels: split_shares(&self.x_labels, false),
            y_labels: split_shares(&self.y_labels, false),
        };
        (gen, eval)
    }
}

/// The first `len` sharings masked, and their masked bits.
fn mask_vector(s: &Vec<InputSharing>, masks: &Vec<InputSharing>, len: usize) -> (r: (Vec<InputSharing>, Vec<bool>))
    requires
        s@.len() == masks@.len(),
        len <= s@.len(),
    ensures
        r.0@.len() == s@.len(),
        forall|i: int| 0 <= i < s@.len() ==> #[trigger] r.0@[i] == if i < len {
            masked_sharing(s@[i], masks@[i])
        } else {
            s@[i]
        },
        r.1@ == masked_bits(s@, masks@, len as nat),
{
    let mut out: Vec<InputSharing> = Vec::with_capacity(s.len());
    let mut bits: Vec<bool> = Vec::with_capacity(len);
    let mut i: usize = 0;
    while i < s.len()
        invariant
            i <= s@.len(),
            s@.len() == masks@.len(),
            len <= s@.len(),
            out@.len() == i,
            bits@.len() == if i < len { i as nat } else { len as nat },
            forall|t: int| 0 <= t < i ==> #[trigger] out@[t] == if t < len {
                masked_sharing(s@[t], masks@[t])
            } else {
                s@[t]
            },
            forall|t: int| 0 <= t < bits@.len() ==> #[trigger] bits@[t] == (differs(s@[t]) != differs(masks@[t])),
        decreases s@.len() - i,
    {
        if i < len {
            let a = s[i];
            let b = masks[i];
            bits.push(a.shares_differ() != b.shares_differ());
            out.push(InputSharing { gen_share: a.gen_share ^ b.eval_share, eval_share: a.eval_share ^ b.gen_share });
        } else {
            out.push(s[i]);
        }
        i = i + 1;
    }
    proof {
        assert(bits@ =~= masked_bits(s@, masks@, len as nat));
    }
    (out, bits)
}

/// One party's shares of a vector of sharings (the garbler's when `garbler`).
fn split_shares(s: &Vec<InputSharing>, garbler: bool) -> (r: Vec<Block>)
    ensures
        r@ == if garbler { gen_shares_of(s@) } else { eval_shares_of(s@) },
{
    let mut r: Vec<Block> = Vec::with_capacity(s.len());
    let mut i: usize = 0;
    while i < s.len()
        invariant
            i <= s@.len(),
            r@.len() == i,
            forall|t: int| 0 <= t < i ==> #[trigger] r@[t] == if garbler { s@[t].gen_share } else { s@[t].eval_share },
        decreases s@.len() - i,
    {
        r.push(if garbler { s[i].gen_share } else { s[i].eval_share });
        i = i + 1;
    }
    proof {
        assert(r@ =~= if garbler { gen_shares_of(s@) } else { eval_shares_of(s@) });
    }
    r
}

} // verus!
