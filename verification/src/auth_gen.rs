//! The garbler of authenticated garbling of a Boolean circuit: it builds a half
//! gate per AND gate from its labels and its shares of the wire bits, and
//! computes its consistency hash over the AND gates.

use vstd::prelude::*;
use crate::aes::{tccr_spec, FixedKeyAes};
use crate::auth_eval::{check_and, check_run, count_and, gate_tweak, lemma_check_run_count, lemma_count_and_prefix,
    tweak_block, wires_below, and_wires_below, lemma_check_run_no_and};
use crate::block::{lsb_of, mul_bool_spec, Block};
use crate::circuit::{AuthHalfGate, Circuit, Gate};
use crate::delta::Delta;
use crate::fpre::{AuthTripleShare, FpreGen};
use crate::keys::Key;
use crate::sharing::{share_xor, AuthBitShare};

verus! {

broadcast use crate::block::group_xor;

/// `key ⊕ bit·Δ` of a share: the garbler's zero-label offset of its bit.
pub open spec fn key_block(s: AuthBitShare, delta: u128) -> u128 {
    s.key@ ^ mul_bool_spec(delta, s.value)
}

/// The garbler's half gate and output zero-label of an AND gate with input
/// zero-labels `lx`, `ly` (hash calls `gid` and `gid + 1`).
pub open spec fn gen_and_spec(
    key: u128,
    lx: Block,
    ly: Block,
    sx: AuthBitShare,
    sy: AuthBitShare,
    sz: AuthBitShare,
    ss: AuthBitShare,
    delta: u128,
    gid: nat,
) -> (AuthHalfGate, Block) {
    let j = gate_tweak(gid as u128);
    let k = gate_tweak((gid + 1) as u128);
    let hx = tccr_spec(key, j, lx@);
    let hy = tccr_spec(key, k, ly@);
    let hx1 = tccr_spec(key, j, lx@ ^ delta);
    let hy1 = tccr_spec(key, k, ly@ ^ delta);
    let g_0 = (hx ^ hx1) ^ key_block(sy, delta);
    let g_1 = ((hy ^ hy1) ^ key_block(sx, delta)) ^ lx@;
    let lz = ((hx ^ hy) ^ key_block(sz, delta)) ^ key_block(ss, delta);
    (AuthHalfGate { gates: [Block { v: g_0 }, Block { v: g_1 }], mask: lsb_of(lz) }, Block { v: lz })
}

/// The garbler's state: zero-labels and bit shares by wire id, and the half
/// gates built so far.
pub type GenState = (Seq<Block>, Seq<AuthBitShare>, Seq<AuthHalfGate>);

/// The garbler's state after gate `g`.
pub open spec fn gen_step(key: u128, delta: u128, triples: Seq<AuthTripleShare>, s: GenState, g: Gate) -> GenState {
    match g {
        Gate::Xor { x, y, z } => (
            s.0.update(z.id as int, Block { v: s.0[x.id as int]@ ^ s.0[y.id as int]@ }),
            s.1.update(z.id as int, share_xor(s.1[x.id as int], s.1[y.id as int])),
            s.2,
        ),
        Gate::And { x, y, z } => {
            let k = s.2.len();
            let out = gen_and_spec(
                key,
                s.0[x.id as int],
                s.0[y.id as int],
                s.1[x.id as int],
                s.1[y.id as int],
                s.1[z.id as int],
                triples[k as int].z,
                delta,
                2 * k,
            );
            (s.0.update(z.id as int, out.1), s.1, s.2.push(out.0))
        },
    }
}

/// The garbler's state after `gates`, in order, from `init`.
pub open spec fn gen_run(key: u128, delta: u128, triples: Seq<AuthTripleShare>, init: GenState, gates: Seq<Gate>) -> GenState
    decreases gates.len(),
{
    if gates.len() == 0 {
        init
    } else {
        gen_step(key, delta, triples, gen_run(key, delta, triples, init, gates.drop_last()), gates.last())
    }
}

/// The half gates grow by one per AND gate.
pub proof fn lemma_gen_run_count(key: u128, delta: u128, triples: Seq<AuthTripleShare>, init: GenState, gates: Seq<Gate>)
    ensures
        gen_run(key, delta, triples, init, gates).2.len() == init.2.len() + count_and(gates),
    decreases gates.len(),
{
    if gates.len() > 0 {
        lemma_gen_run_count(key, delta, triples, init, gates.drop_last());
    }
}

/// Garbles an AND gate: the half gate and the output zero-label.
pub(crate) fn and_gate(
    lx: &Block,
    ly: &Block,
    sx: &AuthBitShare,
    sy: &AuthBitShare,
    sz: &AuthBitShare,
    ss: &AuthBitShare,
    delta: &Block,
    cipher: &FixedKeyAes,
    gid: usize,
) -> (r: (AuthHalfGate, Block))
    requires
        gid < usize::MAX,
    ensures
        r == gen_and_spec(cipher.key_spec(), *lx, *ly, *sx, *sy, *sz, *ss, delta@, gid as nat),
{
    let lx1 = *lx ^ *delta;
    let ly1 = *ly ^ *delta;
    let j = tweak_block(gid as u128);
    let k = tweak_block((gid + 1) as u128);
    let mut h: Vec<Block> = vec![*lx, *ly, lx1, ly1];
    let tweaks: Vec<Block> = vec![j, k, j, k];
    cipher.tccr_many(tweaks.as_slice(), &mut h);
    let hx = h[0];
    let hy = h[1];
    let hx1 = h[2];
    let hy1 = h[3];
    let g_0 = hx ^ hx1 ^ (*sy.key.as_block() ^ delta.mul_bool(sy.bit()));
    let g_1 = hy ^ hy1 ^ (*sx.key.as_block() ^ delta.mul_bool(sx.bit())) ^ *lx;
    let lz = hx ^ hy ^ (*sz.key.as_block() ^ delta.mul_bool(sz.bit())) ^ (*ss.key.as_block() ^ delta.mul_bool(
        ss.bit()));
    let gates = [g_0, g_1];
    let mask = lz.lsb();
    (AuthHalfGate::new(gates, mask), lz)
}

/// What the garbler outputs.
#[derive(Debug)]
pub struct AuthGenOutput {
    pub output_labels: Vec<Key>,
    pub output_auth_bits: Vec<AuthBitShare>,
    pub auth_hash: Block,
}

/// The garbler of an authenticated garbled circuit.
pub struct AuthGen {
    pub cipher: FixedKeyAes,
    pub delta: Delta,
    /// Zero-labels by wire id.
    pub labels: Vec<Block>,
    /// This party's bit shares by wire id.
    pub auth_bits: Vec<AuthBitShare>,
    /// The masked inputs.
    pub masked_values: Vec<bool>,
    /// This party's triple shares, one per AND gate.
    pub triples: Vec<AuthTripleShare>,
}

impl AuthGen {
    /// A garbler with no state, under the zero global key.
    pub fn new() -> (r: AuthGen)
        ensures
            r.cipher.key_spec() == crate::aes::FIXED_KEY,
            r.delta@ == crate::block::with_lsb(0, true),
            r.labels@.len() == 0,
            r.auth_bits@.len() == 0,
            r.masked_values@.len() == 0,
            r.triples@.len() == 0,
    {
        AuthGen {
            cipher: FixedKeyAes::new(),
            delta: Delta::new(Block::zero()),
            labels: Vec::new(),
            auth_bits: Vec::new(),
            masked_values: Vec::new(),
            triples: Vec::new(),
        }
    }

    /// A garbler holding the dealer's output, with a fresh random zero-label
    /// (from the thread-local generator) for each input and AND-gate wire.
    pub fn new_with_pre(pre: FpreGen) -> (r: AuthGen)
        requires
            pre.num_input + pre.num_and <= usize::MAX,
        ensures
            r.cipher.key_spec() == crate::aes::FIXED_KEY,
            r.delta == pre.delta_a,
            r.labels@.len() == pre.num_input + pre.num_and,
            r.auth_bits@ == pre.wire_shares@,
            r.masked_values@.len() == 0,
            r.triples@ == pre.triple_shares@,
    {
        let len = pre.num_input + pre.num_and;
        let mut labels: Vec<Block> = Vec::with_capacity(len);
        let mut i: usize = 0;
        while i < len
            invariant
                i <= len,
                labels@.len() == i,
            decreases len - i,
        {
            labels.push(Block::random_from_thread());
            i = i + 1;
        }
        AuthGen {
            cipher: FixedKeyAes::new(),
            delta: pre.delta_a,
            labels,
            auth_bits: pre.wire_shares,
            masked_values: Vec::new(),
            triples: pre.triple_shares,
        }
    }

    /// The masked inputs held.
    pub fn get_masked_inputs(&self) -> (r: Vec<bool>)
        ensures
            r@ == self.masked_values@,
    {
        let r = self.masked_values.clone();
        proof {
            assert(r@ =~= self.masked_values@);
        }
        r
    }

    /// Garbles the circuit's gates in order: an XOR gate XORs zero-labels and
    /// bit shares; AND gate `k` (hash calls `2k`, `2k + 1`) gets a half gate
    /// from the `k`-th triple's `z` share (see [`gen_run`]). Returns the
    /// zero-label of every wire and the half gates.
    pub fn generate(&mut self, circ: &Circuit) -> (r: (Vec<Block>, Vec<AuthHalfGate>))
        requires
            wires_below(circ.gates@, old(self).labels@.len() as int),
            wires_below(circ.gates@, old(self).auth_bits@.len() as int),
            count_and(circ.gates@) <= old(self).triples@.len(),
            2 * count_and(circ.gates@) < usize::MAX,
        ensures
            final(self).cipher == old(self).cipher,
            final(self).delta == old(self).delta,
            final(self).triples == old(self).triples,
            final(self).masked_values == old(self).masked_values,
            (final(self).labels@, final(self).auth_bits@, r.1@) == gen_run(old(self).cipher.key_spec(),
                old(self).delta@, old(self).triples@, (old(self).labels@, old(self).auth_bits@, Seq::empty()),
                circ.gates@),
            r.0@ == final(self).labels@,
    {
        let ghost key = self.cipher.key_spec();
        let ghost init: GenState = (self.labels@, self.auth_bits@, Seq::empty());
        let gates = circ.gates();
        let mut garbled_gates: Vec<AuthHalfGate> = Vec::new();
        let mut and_count: usize = 0;
        let mut gid: usize = 0;
        let mut g: usize = 0;
        while g < gates.len()
            invariant
                g <= gates@.len(),
                gates@ == circ.gates@,
                self.cipher == old(self).cipher,
                self.delta == old(self).delta,
                self.triples == old(self).triples,
                self.masked_values == old(self).masked_values,
                key == self.cipher.key_spec(),
                init == (old(self).labels@, old(self).auth_bits@, Seq::<AuthHalfGate>::empty()),
                self.labels@.len() == old(self).labels@.len(),
                self.auth_bits@.len() == old(self).auth_bits@.len(),
                wires_below(gates@, self.labels@.len() as int),
                wires_below(gates@, self.auth_bits@.len() as int),
                count_and(gates@) <= self.triples@.len(),
                2 * count_and(gates@) < usize::MAX,
                and_count == count_and(gates@.subrange(0, g as int)),
                and_count == garbled_gates@.len(),
                gid == 2 * and_count,
                (self.labels@, self.auth_bits@, garbled_gates@) == gen_run(key, self.delta@, self.triples@, init,
                    gates@.subrange(0, g as int)),
            decreases gates@.len() - g,
        {
            let gate = gates[g];
            proof {
                assert(gates@.subrange(0, g + 1).drop_last() =~= gates@.subrange(0, g as int));
                assert(gates@.subrange(0, g + 1).last() == gate);
                lemma_count_and_prefix(gates@, g as int);
            }
            match gate {
                Gate::Xor { x, y, z } => {
                    let bx = self.auth_bits[x.id()];
                    let by = self.auth_bits[y.id()];
                    self.auth_bits.set(z.id(), bx.add_share(&by));
                    let lx = self.labels[x.id()];
                    let ly = self.labels[y.id()];
                    self.labels.set(z.id(), lx ^ ly);
                },
                Gate::And { x, y, z } => {
                    let lx = self.labels[x.id()];
                    let ly = self.labels[y.id()];
                    let sx = self.auth_bits[x.id()];
                    let sy = self.auth_bits[y.id()];
                    let sz = self.auth_bits[z.id()];
                    let ss = self.triples[and_count].z;
                    let (half_gate, lz) = and_gate(&lx, &ly, &sx, &sy, &sz, &ss, self.delta.as_block(), &self.cipher,
                        gid);
                    self.labels.set(z.id(), lz);
                    gid = gid + 2;
                    and_count = and_count + 1;
                    garbled_gates.push(half_gate);
                },
            }
            g = g + 1;
        }
        proof {
            assert(gates@.subrange(0, gates@.len() as int) =~= gates@);
        }
        let labels = self.labels.clone();
        proof {
            assert(labels@ =~= self.labels@);
        }
        (labels, garbled_gates)
    }

    /// The garbler's consistency hash over the circuit's AND gates given the
    /// evaluator's masked value of every wire (see [`check_run`]).
    pub fn verify(&self, circ: &Circuit, masked_values: &[bool]) -> (r: Block)
        requires
            and_wires_below(circ.gates@, self.auth_bits@.len() as int),
            and_wires_below(circ.gates@, masked_values@.len() as int),
            count_and(circ.gates@) <= self.triples@.len(),
        ensures
            r@ == check_run(self.cipher.key_spec(), self.delta@, self.triples@, self.auth_bits@, masked_values@,
                circ.gates@).0,
            count_and(circ.gates@) == 0 ==> r@ == 0,
    {
        let gates = circ.gates();
        let n_triples = self.triples.len();
        let mut auth_hash = Block::zero();
        let mut and_count: usize = 0;
        let delta = *self.delta.as_block();
        let mut g: usize = 0;
        while g < gates.len()
            invariant
                n_triples == self.triples@.len(),
                g <= gates@.len(),
                gates@ == circ.gates@,
                delta@ == self.delta@,
                and_wires_below(gates@, self.auth_bits@.len() as int),
                and_wires_below(gates@, masked_values@.len() as int),
                count_and(gates@) <= self.triples@.len(),
                (auth_hash@, and_count as nat) == check_run(self.cipher.key_spec(), self.delta@, self.triples@,
                    self.auth_bits@, masked_values@, gates@.subrange(0, g as int)),
                and_count == count_and(gates@.subrange(0, g as int)),
            decreases gates@.len() - g,
        {
            let gate = gates[g];
            proof {
                assert(gates@.subrange(0, g + 1).drop_last() =~= gates@.subrange(0, g as int));
                assert(gates@.subrange(0, g + 1).last() == gate);
                lemma_count_and_prefix(gates@, g as int);
                lemma_check_run_count(self.cipher.key_spec(), self.delta@, self.triples@, self.auth_bits@,
                    masked_values@, gates@.subrange(0, g as int));
            }
            if let Gate::And { x, y, z } = gate {
                let ss = &self.triples[and_count].z;
                let sz = &self.auth_bits[z.id()];
                let sx = &self.auth_bits[x.id()];
                let sy = &self.auth_bits[y.id()];
                let za = masked_values[x.id()];
                let zb = masked_values[y.id()];
                let zc = masked_values[z.id()];
                let share = check_and(ss, sz, sx, sy, za, zb, zc, delta);
                let t = tweak_block(and_count as u128);
                auth_hash = auth_hash ^ self.cipher.tccr(t, share);
                and_count = and_count + 1;
            }
            g = g + 1;
        }
        proof {
            assert(gates@.subrange(0, gates@.len() as int) =~= gates@);
            lemma_check_run_no_and(self.cipher.key_spec(), self.delta@, self.triples@, self.auth_bits@,
                masked_values@, gates@);
        }
        auth_hash
    }
}

} // verus!
