//! The evaluator of authenticated garbling of a Boolean circuit: it evaluates
//! the garbler's half gates on its labels and masked values, and computes the
//! consistency hash over the AND gates.

use vstd::prelude::*;
use crate::aes::{tccr_spec, FixedKeyAes};
use crate::block::{le_byte, le_value, lsb_of, mul_bool_spec, Block};
use crate::circuit::{gate_x, gate_y, gate_z, AuthHalfGate, Circuit, CircuitError, Gate};
use crate::delta::Delta;
use crate::fpre::{AuthTripleShare, FpreEval};
use crate::macs::Mac;
use crate::sharing::{share_xor, AuthBitShare};

verus! {

broadcast use crate::block::group_xor;

/// Why evaluation failed.
#[derive(Debug)]
pub enum AuthEvaluatorError {
    CircuitError(CircuitError),
    NotFinished,
    MacCheckFailed(usize),
    InvalidAuthBitCount { expected: usize, actual: usize },
    InvalidDerandCount { expected: usize, actual: usize },
    InvalidInputMacCount { expected: usize, actual: usize },
    InvalidMaskedInputCount { expected: usize, actual: usize },
    InvalidOutputMacCount { expected: usize, actual: usize },
}

/// The tweak of hash call `g`: the block whose little-endian bytes are the
/// big-endian bytes of `g`.
pub open spec fn gate_tweak(g: u128) -> u128 {
    le_value(Seq::new(16, |i: int| le_byte(g, 15 - i))) as u128
}

/// The block of tweak `g`.
pub fn tweak_block(g: u128) -> (r: Block)
    ensures
        r@ == gate_tweak(g),
{
    let le = Block::from_u128(g).to_bytes();
    let mut be: [u8; 16] = [0u8; 16];
    let mut i: usize = 0;
    while i < 16
        invariant
            i <= 16,
            forall|k: int| 0 <= k < 16 ==> #[trigger] le@[k] == le_byte(g, k),
            forall|k: int| 0 <= k < i ==> #[trigger] be@[k] == le_byte(g, 15 - k),
        decreases 16 - i,
    {
        be[i] = le[15 - i];
        i = i + 1;
    }
    proof {
        assert(be@ =~= Seq::new(16, |i: int| le_byte(g, 15 - i)));
    }
    Block::new(be)
}

/// `mac ⊕ key ⊕ bit·Δ` of a share: what it contributes to a consistency check.
pub open spec fn share_block(s: AuthBitShare, delta: u128) -> u128 {
    (s.mac@ ^ s.key@) ^ mul_bool_spec(delta, s.value)
}

/// One party's consistency-check block of an AND gate with masked values
/// `za`, `zb` on its inputs and `zc` on its output.
pub open spec fn check_and_spec(
    ss: AuthBitShare,
    sz: AuthBitShare,
    sx: AuthBitShare,
    sy: AuthBitShare,
    za: bool,
    zb: bool,
    zc: bool,
    delta: u128,
) -> u128 {
    let s0 = share_block(ss, delta) ^ share_block(sz, delta);
    let s1 = if za { s0 ^ share_block(sy, delta) } else { s0 };
    let s2 = if zb { s1 ^ share_block(sx, delta) } else { s1 };
    if (za && zb) != zc { s2 ^ delta } else { s2 }
}

/// The evaluator's output label and masked value of an AND gate (hash calls
/// `gid` and `gid + 1`).
pub open spec fn eval_and_spec(
    key: u128,
    lx: Block,
    ly: Block,
    sx: AuthBitShare,
    sy: AuthBitShare,
    sz: AuthBitShare,
    ss: AuthBitShare,
    encrypted_gate: AuthHalfGate,
    za: bool,
    zb: bool,
    gid: nat,
) -> (Block, bool) {
    let g_0 = encrypted_gate.gates[0]@ ^ sy.mac@;
    let g_1 = encrypted_gate.gates[1]@ ^ sx.mac@;
    let hx = tccr_spec(key, gate_tweak(gid as u128), lx@);
    let hy = tccr_spec(key, gate_tweak((gid + 1) as u128), ly@);
    let lz = ((((hx ^ hy) ^ sz.mac@) ^ ss.mac@) ^ mul_bool_spec(g_0, za)) ^ mul_bool_spec(g_1 ^ lx@, zb);
    (Block { v: lz }, lsb_of(lz) != encrypted_gate.mask)
}

/// The number of AND gates among `gates`.
pub open spec fn count_and(gates: Seq<Gate>) -> nat
    decreases gates.len(),
{
    if gates.len() == 0 {
        0
    } else {
        count_and(gates.drop_last()) + if gates.last() is And { 1nat } else { 0nat }
    }
}

/// Every wire of every gate has an id below `n`.
pub open spec fn wires_below(gates: Seq<Gate>, n: int) -> bool {
    forall|k: int| 0 <= k < gates.len() ==> {
        &&& gate_x(#[trigger] gates[k]).id < n
        &&& gate_y(gates[k]).id < n
        &&& gate_z(gates[k]).id < n
    }
}

/// Every wire of every AND gate has an id below `n`.
pub open spec fn and_wires_below(gates: Seq<Gate>, n: int) -> bool {
    forall|k: int|
        0 <= k < gates.len() && (#[trigger] gates[k]) is And ==> {
            &&& gate_x(gates[k]).id < n
            &&& gate_y(gates[k]).id < n
            &&& gate_z(gates[k]).id < n
        }
}

/// The evaluator's state: labels, masked values and bit shares by wire id,
/// and the number of AND gates evaluated.
pub type EvalState = (Seq<Block>, Seq<bool>, Seq<AuthBitShare>, nat);

/// The evaluator's state after gate `g`.
pub open spec fn eval_step(
    key: u128,
    triples: Seq<AuthTripleShare>,
    encrypted_gates: Seq<AuthHalfGate>,
    s: EvalState,
    g: Gate,
) -> EvalState {
    match g {
        Gate::Xor { x, y, z } => (
            s.0.update(z.id as int, Block { v: s.0[x.id as int]@ ^ s.0[y.id as int]@ }),
            s.1.update(z.id as int, s.1[x.id as int] != s.1[y.id as int]),
            s.2.update(z.id as int, share_xor(s.2[x.id as int], s.2[y.id as int])),
            s.3,
        ),
        Gate::And { x, y, z } => {
            let out = eval_and_spec(
                key,
                s.0[x.id as int],
                s.0[y.id as int],
                s.2[x.id as int],
                s.2[y.id as int],
                s.2[z.id as int],
                triples[s.3 as int].z,
                encrypted_gates[s.3 as int],
                s.1[x.id as int],
                s.1[y.id as int],
                2 * s.3,
            );
            (s.0.update(z.id as int, out.0), s.1.update(z.id as int, out.1), s.2, s.3 + 1)
        },
    }
}

/// The evaluator's state after `gates`, in order, from `init`.
pub open spec fn eval_run(
    key: u128,
    triples: Seq<AuthTripleShare>,
    encrypted_gates: Seq<AuthHalfGate>,
    init: EvalState,
    gates: Seq<Gate>,
) -> EvalState
    decreases gates.len(),
{
    if gates.len() == 0 {
        init
    } else {
        eval_step(key, triples, encrypted_gates, eval_run(key, triples, encrypted_gates, init, gates.drop_last()),
            gates.last())
    }
}

/// One party's consistency hash over the AND gates of `gates` (the XOR of the
/// hashed check blocks, AND gate `c` hashed under tweak `c`) and the number of
/// AND gates.
pub open spec fn check_run(
    key: u128,
    delta: u128,
    triples: Seq<AuthTripleShare>,
    bits: Seq<AuthBitShare>,
    masked: Seq<bool>,
    gates: Seq<Gate>,
) -> (u128, nat)
    decreases gates.len(),
{
    if gates.len() == 0 {
        (0, 0)
    } else {
        let prev = check_run(key, delta, triples, bits, masked, gates.drop_last());
        match gates.last() {
            Gate::And { x, y, z } => (
                prev.0 ^ tccr_spec(
                    key,
                    gate_tweak(prev.1 as u128),
                    check_and_spec(
                        triples[prev.1 as int].z,
                        bits[z.id as int],
                        bits[x.id as int],
                        bits[y.id as int],
                        masked[x.id as int],
                        masked[y.id as int],
                        masked[z.id as int],
                        delta,
                    ),
                ),
                prev.1 + 1,
            ),
            Gate::Xor { .. } => prev,
        }
    }
}

/// `p` over the front of `s`.
pub open spec fn overwrite_prefix<T>(s: Seq<T>, p: Seq<T>) -> Seq<T> {
    Seq::new(s.len(), |k: int| if k < p.len() { p[k] } else { s[k] })
}

/// Evaluates an AND gate: the output label and its masked value.
pub(crate) fn and_gate(
    lx: Block,
    ly: Block,
    sx: AuthBitShare,
    sy: AuthBitShare,
    sz: AuthBitShare,
    ss: AuthBitShare,
    encrypted_gate: AuthHalfGate,
    za: bool,
    zb: bool,
    cipher: &FixedKeyAes,
    gid: usize,
) -> (r: (Block, bool))
    requires
        gid < usize::MAX,
    ensures
        r == eval_and_spec(cipher.key_spec(), lx, ly, sx, sy, sz, ss, encrypted_gate, za, zb, gid as nat),
{
    let g_0 = encrypted_gate.gates[0] ^ *sy.mac.as_block();
    let g_1 = encrypted_gate.gates[1] ^ *sx.mac.as_block();
    let j = tweak_block(gid as u128);
    let k = tweak_block((gid + 1) as u128);
    let mut h: Vec<Block> = vec![lx, ly];
    let tweaks: Vec<Block> = vec![j, k];
    cipher.tccr_many(tweaks.as_slice(), &mut h);
    let hx = h[0];
    let hy = h[1];
    let sz_mac = *sz.mac.as_block();
    let ss_mac = *ss.mac.as_block();
    let lz = hx ^ hy ^ sz_mac ^ ss_mac ^ g_0.mul_bool(za) ^ (g_1 ^ lx).mul_bool(zb);
    let zc = lz.lsb() != encrypted_gate.mask;
    (lz, zc)
}

/// One party's consistency-check block of an AND gate.
pub(crate) fn check_and(
    ss: &AuthBitShare,
    sz: &AuthBitShare,
    sx: &AuthBitShare,
    sy: &AuthBitShare,
    za: bool,
    zb: bool,
    zc: bool,
    delta: Block,
) -> (r: Block)
    ensures
        r@ == check_and_spec(*ss, *sz, *sx, *sy, za, zb, zc, delta@),
{
    let mut share = (*ss.mac.as_block() ^ *ss.key.as_block() ^ delta.mul_bool(ss.bit())) ^ (*sz.mac.as_block()
        ^ *sz.key.as_block() ^ delta.mul_bool(sz.bit()));
    if za {
        share = share ^ (*sy.mac.as_block() ^ *sy.key.as_block() ^ delta.mul_bool(sy.bit()));
    }
    if zb {
        share = share ^ (*sx.mac.as_block() ^ *sx.key.as_block() ^ delta.mul_bool(sx.bit()));
    }
    if (za && zb) != zc {
        share = share ^ delta;
    }
    share
}

/// What the evaluator outputs.
#[derive(Debug)]
pub struct AuthEvalOutput {
    pub output_labels: Vec<Mac>,
    pub output_auth_bits: Vec<AuthBitShare>,
    pub auth_hash: Block,
    pub masked_output_values: Vec<bool>,
    pub masked_values: Vec<bool>,
}

/// The evaluator of an authenticated garbled circuit.
pub struct AuthEval {
    pub cipher: FixedKeyAes,
    pub delta: Delta,
    /// Labels by wire id.
    pub labels: Vec<Block>,
    /// This party's bit shares by wire id.
    pub auth_bits: Vec<AuthBitShare>,
    /// This party's triple shares, one per AND gate.
    pub triples: Vec<AuthTripleShare>,
    /// Masked values by wire id.
    pub masked_values: Vec<bool>,
}

impl AuthEval {
    /// An evaluator with no state, under the zero global key.
    pub fn new() -> (r: AuthEval)
        ensures
            r.cipher.key_spec() == crate::aes::FIXED_KEY,
            r.delta@ == crate::block::with_lsb(0, true),
            r.labels@.len() == 0,
            r.auth_bits@.len() == 0,
            r.triples@.len() == 0,
            r.masked_values@.len() == 0,
    {
        AuthEval {
            cipher: FixedKeyAes::new(),
            delta: Delta::new(Block::zero()),
            labels: Vec::new(),
            auth_bits: Vec::new(),
            triples: Vec::new(),
            masked_values: Vec::new(),
        }
    }

    /// An evaluator holding the dealer's output for `circ`: zero labels and
    /// false masked values for each of the circuit's gate inputs and outputs.
    pub fn new_with_pre(pre: FpreEval, circ: &Circuit) -> (r: AuthEval)
        requires
            (circ.and_count + circ.xor_count) * 3 <= usize::MAX,
        ensures
            r.cipher.key_spec() == crate::aes::FIXED_KEY,
            r.delta == pre.delta_b,
            r.labels@ == Seq::new(((circ.and_count + circ.xor_count) * 3) as nat, |i: int| Block { v: 0 }),
            r.masked_values@ == Seq::new(((circ.and_count + circ.xor_count) * 3) as nat, |i: int| false),
            r.auth_bits@ == pre.wire_shares@,
            r.triples@ == pre.triple_shares@,
    {
        let len = circ.inputs() + circ.outputs();
        let mut labels: Vec<Block> = Vec::with_capacity(len);
        let mut masked_values: Vec<bool> = Vec::with_capacity(len);
        let mut i: usize = 0;
        while i < len
            invariant
                i <= len,
                labels@ == Seq::new(i as nat, |k: int| Block { v: 0 }),
                masked_values@ == Seq::new(i as nat, |k: int| false),
            decreases len - i,
        {
            labels.push(Block::zero());
            masked_values.push(false);
            proof {
                assert(labels@ =~= Seq::new((i + 1) as nat, |k: int| Block { v: 0 }));
                assert(masked_values@ =~= Seq::new((i + 1) as nat, |k: int| false));
            }
            i = i + 1;
        }
        AuthEval {
            cipher: FixedKeyAes::new(),
            delta: pre.delta_b,
            labels,
            auth_bits: pre.wire_shares,
            triples: pre.triple_shares,
            masked_values,
        }
    }

    /// Evaluates the circuit's gates in order: the input labels and masked
    /// inputs are copied over the front of the label and masked-value tables;
    /// an XOR gate XORs labels, masked values and bit shares; AND gate `k`
    /// (hash calls `2k`, `2k + 1`) evaluates the `k`-th half gate with the
    /// `k`-th triple's `z` share (see [`eval_run`]). Returns the labels and
    /// masked values of every wire.
    pub fn evaluate(
        &mut self,
        circ: &Circuit,
        encrypted_gates: &[AuthHalfGate],
        input_labels: &[Block],
        masked_inputs: Vec<bool>,
    ) -> (r: Result<(Vec<Block>, Vec<bool>), AuthEvaluatorError>)
        requires
            input_labels@.len() <= old(self).labels@.len(),
            masked_inputs@.len() <= old(self).masked_values@.len(),
            wires_below(circ.gates@, old(self).labels@.len() as int),
            wires_below(circ.gates@, old(self).masked_values@.len() as int),
            wires_below(circ.gates@, old(self).auth_bits@.len() as int),
            count_and(circ.gates@) <= old(self).triples@.len(),
            count_and(circ.gates@) <= encrypted_gates@.len(),
            2 * count_and(circ.gates@) < usize::MAX,
        ensures
            final(self).cipher == old(self).cipher,
            final(self).delta == old(self).delta,
            final(self).triples == old(self).triples,
            (final(self).labels@, final(self).masked_values@, final(self).auth_bits@, count_and(circ.gates@))
                == eval_run(
                old(self).cipher.key_spec(),
                old(self).triples@,
                encrypted_gates@,
                (
                    overwrite_prefix(old(self).labels@, input_labels@),
                    overwrite_prefix(old(self).masked_values@, masked_inputs@),
                    old(self).auth_bits@,
                    0,
                ),
                circ.gates@,
            ),
            r matches Ok(out) && out.0@ == final(self).labels@ && out.1@ == final(self).masked_values@,
    {
        let ghost key = self.cipher.key_spec();
        let mut i: usize = 0;
        while i < input_labels.len()
            invariant
                i <= input_labels@.len(),
                input_labels@.len() <= self.labels@.len(),
                self.labels@ == overwrite_prefix(old(self).labels@, input_labels@.subrange(0, i as int)),
                self.cipher == old(self).cipher,
                self.delta == old(self).delta,
                self.triples == old(self).triples,
                self.auth_bits == old(self).auth_bits,
                self.masked_values == old(self).masked_values,
            decreases input_labels@.len() - i,
        {
            self.labels.set(i, input_labels[i]);
            proof {
                assert(self.labels@ =~= overwrite_prefix(old(self).labels@, input_labels@.subrange(0, i + 1)));
            }
            i = i + 1;
        }
        proof {
            assert(input_labels@.subrange(0, input_labels@.len() as int) =~= input_labels@);
        }
        let mut i: usize = 0;
        while i < masked_inputs.len()
            invariant
                i <= masked_inputs@.len(),
                masked_inputs@.len() <= self.masked_values@.len(),
                self.masked_values@ == overwrite_prefix(old(self).masked_values@, masked_inputs@.subrange(0, i as int)),
                self.labels@ == overwrite_prefix(old(self).labels@, input_labels@),
                self.cipher == old(self).cipher,
                self.delta == old(self).delta,
                self.triples == old(self).triples,
                self.auth_bits == old(self).auth_bits,
            decreases masked_inputs@.len() - i,
        {
            self.masked_values.set(i, masked_inputs[i]);
            proof {
                assert(self.masked_values@ =~= overwrite_prefix(old(self).masked_values@, masked_inputs@.subrange(0, i + 1)));
            }
            i = i + 1;
        }
        proof {
            assert(masked_inputs@.subrange(0, masked_inputs@.len() as int) =~= masked_inputs@);
        }
        let ghost init: EvalState = (self.labels@, self.masked_values@, self.auth_bits@, 0nat);
        let gates = circ.gates();
        let mut and_count: usize = 0;
        let mut gid: usize = 0;
        let mut g: usize = 0;
        while g < gates.len()
            invariant
                g <= gates@.len(),
                gates@ == circ.gates@,
                self.cipher == old(self).cipher,
                self.delta == old(self).delta,
                self.triples == old(self).triples,
                key == self.cipher.key_spec(),
                self.labels@.len() == old(self).labels@.len(),
                self.masked_values@.len() == old(self).masked_values@.len(),
                self.auth_bits@.len() == old(self).auth_bits@.len(),
                wires_below(gates@, self.labels@.len() as int),
                wires_below(gates@, self.masked_values@.len() as int),
                wires_below(gates@, self.auth_bits@.len() as int),
                count_and(gates@) <= self.triples@.len(),
                count_and(gates@) <= encrypted_gates@.len(),
                2 * count_and(gates@) < usize::MAX,
                and_count == count_and(gates@.subrange(0, g as int)),
                gid == 2 * and_count,
                (self.labels@, self.masked_values@, self.auth_bits@, and_count as nat) == eval_run(
                    key, self.triples@, encrypted_gates@, init, gates@.subrange(0, g as int)),
            decreases gates@.len() - g,
        {
            let gate = gates[g];
            proof {
                assert(gates@.subrange(0, g + 1).drop_last() =~= gates@.subrange(0, g as int));
                assert(gates@.subrange(0, g + 1).last() == gate);
                lemma_count_and_prefix(gates@, g as int);
            }
            match gate {
                Gate::Xor { x, y, z } => {
                    let bx = self.auth_bits[x.id()];
                    let by = self.auth_bits[y.id()];
                    self.auth_bits.set(z.id(), bx.add_share(&by));
                    let lx = self.labels[x.id()];
                    let ly = self.labels[y.id()];
                    self.labels.set(z.id(), lx ^ ly);
                    let mx = self.masked_values[x.id()];
                    let my = self.masked_values[y.id()];
                    self.masked_values.set(z.id(), mx != my);
                },
                Gate::And { x, y, z } => {
                    let lx = self.labels[x.id()];
                    let ly = self.labels[y.id()];
                    let sx = self.auth_bits[x.id()];
                    let sy = self.auth_bits[y.id()];
                    let sz = self.auth_bits[z.id()];
                    let ss = self.triples[and_count].z;
                    let za = self.masked_values[x.id()];
                    let zb = self.masked_values[y.id()];
                    let (lz, zc) = and_gate(lx, ly, sx, sy, sz, ss, encrypted_gates[and_count], za, zb, &self.cipher, gid);
                    self.masked_values.set(z.id(), zc);
                    self.labels.set(z.id(), lz);
                    gid = gid + 2;
                    and_count = and_count + 1;
                },
            }
            g = g + 1;
        }
        proof {
            assert(gates@.subrange(0, gates@.len() as int) =~= gates@);
        }
        let labels = self.labels.clone();
        let masked = self.masked_values.clone();
        proof {
            assert(labels@ =~= self.labels@);
            assert(masked@ =~= self.masked_values@);
        }
        Ok((labels, masked))
    }

    /// The evaluator's consistency hash over the circuit's AND gates given the
    /// masked value of every wire (see [`check_run`]).
    pub fn verify(&self, circ: &Circuit, masked_values: &[bool]) -> (r: Block)
        requires
            and_wires_below(circ.gates@, self.auth_bits@.len() as int),
            and_wires_below(circ.gates@, masked_values@.len() as int),
            count_and(circ.gates@) <= self.triples@.len(),
        ensures
            r@ == check_run(self.cipher.key_spec(), self.delta@, self.triples@, self.auth_bits@, masked_values@,
                circ.gates@).0,
            count_and(circ.gates@) == 0 ==> r@ == 0,
    {
        let gates = circ.gates();
        let n_triples = self.triples.len();
        let mut auth_hash = Block::zero();
        let mut and_count: usize = 0;
        let mut g: usize = 0;
        while g < gates.len()
            invariant
                n_triples == self.triples@.len(),
                g <= gates@.len(),
                gates@ == circ.gates@,
                and_wires_below(gates@, self.auth_bits@.len() as int),
                and_wires_below(gates@, masked_values@.len() as int),
                count_and(gates@) <= self.triples@.len(),
                (auth_hash@, and_count as nat) == check_run(self.cipher.key_spec(), self.delta@, self.triples@,
                    self.auth_bits@, masked_values@, gates@.subrange(0, g as int)),
                and_count == count_and(gates@.subrange(0, g as int)),
            decreases gates@.len() - g,
        {
            let gate = gates[g];
            proof {
                assert(gates@.subrange(0, g + 1).drop_last() =~= gates@.subrange(0, g as int));
                assert(gates@.subrange(0, g + 1).last() == gate);
                lemma_count_and_prefix(gates@, g as int);
                lemma_check_run_count(self.cipher.key_spec(), self.delta@, self.triples@, self.auth_bits@,
                    masked_values@, gates@.subrange(0, g as int));
            }
            if let Gate::And { x, y, z } = gate {
                let ss = &self.triples[and_count].z;
                let sz = &self.auth_bits[z.id()];
                let sx = &self.auth_bits[x.id()];
                let sy = &self.auth_bits[y.id()];
                let za = masked_values[x.id()];
                let zb = masked_values[y.id()];
                let zc = masked_values[z.id()];
                let share = check_and(ss, sz, sx, sy, za, zb, zc, *self.delta.as_block());
                let t = tweak_block(and_count as u128);
                auth_hash = auth_hash ^ self.cipher.tccr(t, share);
                and_count = and_count + 1;
            }
            g = g + 1;
        }
        proof {
            assert(gates@.subrange(0, gates@.len() as int) =~= gates@);
            lemma_check_run_no_and(self.cipher.key_spec(), self.delta@, self.triples@, self.auth_bits@,
                masked_values@, gates@);
        }
        auth_hash
    }
}

/// The AND count of a prefix one gate longer, and its bound by the whole.
pub proof fn lemma_count_and_prefix(gates: Seq<Gate>, g: int)
    requires
        0 <= g < gates.len(),
    ensures
        count_and(gates.subrange(0, g + 1)) == count_and(gates.subrange(0, g)) + if gates[g] is And { 1nat } else { 0nat },
        count_and(gates.subrange(0, g + 1)) <= count_and(gates),
    decreases gates.len() - g,
{
    assert(gates.subrange(0, g + 1).drop_last() =~= gates.subrange(0, g));
    if g + 1 < gates.len() {
        lemma_count_and_prefix(gates, g + 1);
    } else {
        assert(gates.subrange(0, g + 1) =~= gates);
    }
}

/// The consistency hash counts the AND gates it hashes.
pub proof fn lemma_check_run_count(
    key: u128,
    delta: u128,
    triples: Seq<AuthTripleShare>,
    bits: Seq<AuthBitShare>,
    masked: Seq<bool>,
    gates: Seq<Gate>,
)
    ensures
        check_run(key, delta, triples, bits, masked, gates).1 == count_and(gates),
    decreases gates.len(),
{
    if gates.len() > 0 {
        lemma_check_run_count(key, delta, triples, bits, masked, gates.drop_last());
    }
}

/// `a` and `b` give the same masked value to every wire of every AND gate
/// of `gates`.
pub open spec fn agree_on_and_wires(gates: Seq<Gate>, a: Seq<bool>, b: Seq<bool>) -> bool {
    forall|g: int|
        0 <= g < gates.len() && (#[trigger] gates[g]) is And ==> {
            &&& a[gate_x(gates[g]).id as int] == b[gate_x(gates[g]).id as int]
            &&& a[gate_y(gates[g]).id as int] == b[gate_y(gates[g]).id as int]
            &&& a[gate_z(gates[g]).id as int] == b[gate_z(gates[g]).id as int]
        }
}

/// The consistency hash that both parties' `verify` compute reads the masked
/// values at the AND gates' wires only: two assignments of masked values that
/// agree on those wires give the same hash, whatever they hold elsewhere.
pub proof fn lemma_check_run_and_wires_only(
    key: u128,
    delta: u128,
    triples: Seq<AuthTripleShare>,
    bits: Seq<AuthBitShare>,
    a: Seq<bool>,
    b: Seq<bool>,
    gates: Seq<Gate>,
)
    requires
        agree_on_and_wires(gates, a, b),
    ensures
        check_run(key, delta, triples, bits, a, gates) == check_run(key, delta, triples, bits, b, gates),
    decreases gates.len(),
{
    if gates.len() > 0 {
        let front = gates.drop_last();
        assert forall|g: int| 0 <= g < front.len() && (#[trigger] front[g]) is And implies {
            &&& a[gate_x(front[g]).id as int] == b[gate_x(front[g]).id as int]
            &&& a[gate_y(front[g]).id as int] == b[gate_y(front[g]).id as int]
            &&& a[gate_z(front[g]).id as int] == b[gate_z(front[g]).id as int]
        } by {
            assert(front[g] == gates[g]);
        }
        lemma_check_run_and_wires_only(key, delta, triples, bits, a, b, front);
        let last = gates.len() - 1;
        assert(gates.last() == gates[last]);
    }
}

/// A circuit without AND gates has the zero consistency hash.
pub proof fn lemma_check_run_no_and(
    key: u128,
    delta: u128,
    triples: Seq<AuthTripleShare>,
    bits: Seq<AuthBitShare>,
    masked: Seq<bool>,
    gates: Seq<Gate>,
)
    ensures
        count_and(gates) == 0 ==> check_run(key, delta, triples, bits, masked, gates).0 == 0,
    decreases gates.len(),
{
    if gates.len() > 0 {
        lemma_check_run_no_and(key, delta, triples, bits, masked, gates.drop_last());
    }
}

} // verus!
