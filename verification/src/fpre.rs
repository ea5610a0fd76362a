//! Insecure ideal dealer of the circuit preprocessing for authenticated
//! garbling: an authenticated bit for every wire and an authenticated AND
//! triple for every AND gate.

use vstd::prelude::*;
use crate::auth_tensor_fpre::auth_bit_ok;
use crate::block::lsb_of;
use crate::circuit::Wire;
use crate::delta::Delta;
use crate::random::{chacha_from_seed, chacha_next_bool};
use crate::sharing::{build_share, cross_valid, AuthBit, AuthBitShare};
use rand_chacha::ChaCha12Rng;

verus! {

broadcast use crate::block::group_xor;

/// Why the dealer's output cannot be used.
#[derive(Debug)]
pub enum FpreError {
    NotGenerated,
    InvalidWireCount(usize, usize),
    InvalidTripleCount(usize, usize),
}

/// An authenticated triple `([x], [y], [z])` with `z = x ∧ y`.
#[derive(Debug, Clone, Copy)]
pub struct AuthTriple {
    pub x: AuthBit,
    pub y: AuthBit,
    pub z: AuthBit,
}

/// A triple is well formed: its three bits are valid authenticated bits under
/// `Δ_a` (the garbler's) and `Δ_b` (the evaluator's), and `z = x ∧ y`.
pub open spec fn triple_ok(t: AuthTriple, delta_a: u128, delta_b: u128) -> bool {
    &&& auth_bit_ok(t.x, delta_a, delta_b)
    &&& auth_bit_ok(t.y, delta_a, delta_b)
    &&& auth_bit_ok(t.z, delta_a, delta_b)
    &&& t.z.full_bit_spec() == (t.x.full_bit_spec() && t.y.full_bit_spec())
}

impl AuthTriple {
    /// Verifies the triple: `z = x ∧ y` and the cross-party MACs of its three
    /// bits. Callers must hold these relations.
    pub fn verify(&self, delta_a: &Delta, delta_b: &Delta)
        requires
            self.z.full_bit_spec() == (self.x.full_bit_spec() && self.y.full_bit_spec()),
            cross_valid(self.x.gen_share, self.x.eval_share, delta_a@, delta_b@),
            cross_valid(self.y.gen_share, self.y.eval_share, delta_a@, delta_b@),
            cross_valid(self.z.gen_share, self.z.eval_share, delta_a@, delta_b@),
    {
        self.x.verify(delta_a, delta_b);
        self.y.verify(delta_a, delta_b);
        self.z.verify(delta_a, delta_b);
    }
}

/// One party's shares of an authenticated triple.
#[derive(Debug, Clone, Copy)]
pub struct AuthTripleShare {
    pub x: AuthBitShare,
    pub y: AuthBitShare,
    pub z: AuthBitShare,
}

/// The garbler's shares of a triple.
pub open spec fn gen_triple_share(t: AuthTriple) -> AuthTripleShare {
    AuthTripleShare { x: t.x.gen_share, y: t.y.gen_share, z: t.z.gen_share }
}

/// The evaluator's shares of a triple.
pub open spec fn eval_triple_share(t: AuthTriple) -> AuthTripleShare {
    AuthTripleShare { x: t.x.eval_share, y: t.y.eval_share, z: t.z.eval_share }
}

/// The dealer's output, garbler's view.
#[derive(Debug)]
pub struct FpreGen {
    pub num_input: usize,
    pub num_output: usize,
    pub num_and: usize,
    /// The garbler's global key.
    pub delta_a: Delta,
    /// The garbler's share of every wire bit, by wire id.
    pub wire_shares: Vec<AuthBitShare>,
    /// The garbler's share of every triple.
    pub triple_shares: Vec<AuthTripleShare>,
}

/// The dealer's output, evaluator's view.
#[derive(Debug)]
pub struct FpreEval {
    pub num_input: usize,
    pub num_output: usize,
    pub num_and: usize,
    /// The evaluator's global key.
    pub delta_b: Delta,
    /// The evaluator's share of every wire bit, by wire id.
    pub wire_shares: Vec<AuthBitShare>,
    /// The evaluator's share of every triple.
    pub triple_shares: Vec<AuthTripleShare>,
}

/// The ids of a sequence of wires are pairwise distinct.
pub open spec fn ids_distinct(w: Seq<Wire>) -> bool {
    forall|a: int, b: int| 0 <= a < w.len() && 0 <= b < w.len() && a != b ==> #[trigger] w[a].id != #[trigger] w[b].id
}

/// Every id of `w` is below `bound`.
pub open spec fn ids_below(w: Seq<Wire>, bound: int) -> bool {
    forall|a: int| 0 <= a < w.len() ==> (#[trigger] w[a]).id < bound
}

/// The zero authenticated bit: all keys, MACs and bits zero (valid under any keys).
pub open spec fn zero_bit() -> AuthBit {
    AuthBit {
        gen_share: AuthBitShare { key: crate::keys::Key(crate::block::Block { v: 0 }), mac: crate::macs::Mac(
            crate::block::Block { v: 0 }), value: false },
        eval_share: AuthBitShare { key: crate::keys::Key(crate::block::Block { v: 0 }), mac: crate::macs::Mac(
            crate::block::Block { v: 0 }), value: false },
    }
}

/// Insecure ideal dealer: authenticated bits for the wires of a circuit (its
/// XOR gates' inputs and its AND gates' wires) and a triple per AND gate.
pub struct Fpre {
    pub rng: ChaCha12Rng,
    /// The XOR gates' input wires, two per gate.
    pub xor_input_wires: Vec<Wire>,
    /// The AND gates' wires, three per gate (inputs, then output).
    pub and_wires: Vec<Wire>,
    /// The garbler's global key (pointer bit 1).
    pub delta_a: Delta,
    /// The evaluator's global key (pointer bit 0).
    pub delta_b: Delta,
    /// The wires' authenticated bits, indexed by wire id.
    pub auth_bits: Vec<AuthBit>,
    /// One triple per AND gate.
    pub auth_triples: Vec<AuthTriple>,
}

impl Fpre {
    /// The number of wire bits the dealer holds after [`Fpre::generate`].
    pub open spec fn total_bits(&self) -> int {
        (self.and_wires@.len() + self.xor_input_wires@.len() + self.xor_input_wires@.len() / 2) as int
    }

    /// Every wire bit and every triple is well formed.
    pub open spec fn bits_ok(&self) -> bool {
        &&& forall|k: int| 0 <= k < self.auth_bits@.len() ==> auth_bit_ok(
            #[trigger] self.auth_bits@[k], self.delta_a@, self.delta_b@)
        &&& forall|k: int| 0 <= k < self.auth_triples@.len() ==> triple_ok(
            #[trigger] self.auth_triples@[k], self.delta_a@, self.delta_b@)
    }

    /// A dealer seeded with `seed` for the given wires, with fresh global keys.
    pub fn new(seed: u64, xor_input_wires: Vec<Wire>, and_wires: Vec<Wire>) -> (r: Fpre)
        ensures
            r.xor_input_wires@ == xor_input_wires@,
            r.and_wires@ == and_wires@,
            lsb_of(r.delta_a@),
            !lsb_of(r.delta_b@),
            r.auth_bits@.len() == 0,
            r.auth_triples@.len() == 0,
    {
        let mut rng = chacha_from_seed(seed);
        let delta_a = Delta::random_gb(&mut rng);
        let delta_b = Delta::random_ev(&mut rng);
        Fpre {
            rng,
            xor_input_wires,
            and_wires,
            delta_a,
            delta_b,
            auth_bits: Vec::new(),
            auth_triples: Vec::new(),
        }
    }

    /// An authenticated bit `[x] = [r] ⊕ [s]` for a random `r`: the garbler
    /// holds `r` with its MAC under `Δ_b`, the evaluator `s` with its MAC under
    /// `Δ_a`, each holding the key of the other's MAC.
    pub fn gen_auth_bit(&mut self, x: bool) -> (r: AuthBit)
        ensures
            auth_bit_ok(r, old(self).delta_a@, old(self).delta_b@),
            r.full_bit_spec() == x,
            final(self).xor_input_wires == old(self).xor_input_wires,
            final(self).and_wires == old(self).and_wires,
            final(self).delta_a == old(self).delta_a,
            final(self).delta_b == old(self).delta_b,
            final(self).auth_bits == old(self).auth_bits,
            final(self).auth_triples == old(self).auth_triples,
    {
        let r = chacha_next_bool(&mut self.rng);
        let s = x != r;
        let r_share = build_share(&mut self.rng, r, &self.delta_b);
        let s_share = build_share(&mut self.rng, s, &self.delta_a);
        AuthBit {
            gen_share: AuthBitShare { mac: r_share.mac, key: s_share.key, value: r },
            eval_share: AuthBitShare { mac: s_share.mac, key: r_share.key, value: s },
        }
    }

    /// A random authenticated triple.
    pub fn gen_auth_triple(&mut self) -> (r: AuthTriple)
        ensures
            triple_ok(r, old(self).delta_a@, old(self).delta_b@),
            final(self).xor_input_wires == old(self).xor_input_wires,
            final(self).and_wires == old(self).and_wires,
            final(self).delta_a == old(self).delta_a,
            final(self).delta_b == old(self).delta_b,
            final(self).auth_bits == old(self).auth_bits,
            final(self).auth_triples == old(self).auth_triples,
    {
        let x = chacha_next_bool(&mut self.rng);
        let y = chacha_next_bool(&mut self.rng);
        let z = x && y;
        let xb = self.gen_auth_bit(x);
        let yb = self.gen_auth_bit(y);
        let zb = self.gen_auth_bit(z);
        AuthTriple { x: xb, y: yb, z: zb }
    }

    /// Deals the circuit's preprocessing: `auth_bits` is resized to
    /// [`Fpre::total_bits`]; every XOR input wire gets a random authenticated
    /// bit; each AND gate `k` (wires `3k`, `3k + 1`, `3k + 2` of `and_wires`)
    /// gets a fresh random triple, appended to `auth_triples`, whose `x` and `y`
    /// bits become its input wires' bits, and a random bit for its output wire.
    /// Where wire ids repeat, the last write stands.
    pub fn generate(&mut self)
        requires
            old(self).bits_ok(),
            old(self).total_bits() <= usize::MAX,
            ids_below(old(self).xor_input_wires@, old(self).total_bits()),
            ids_below(old(self).and_wires@, old(self).total_bits()),
        ensures
            final(self).bits_ok(),
            final(self).xor_input_wires == old(self).xor_input_wires,
            final(self).and_wires == old(self).and_wires,
            final(self).delta_a == old(self).delta_a,
            final(self).delta_b == old(self).delta_b,
            final(self).auth_bits@.len() == old(self).total_bits(),
            final(self).auth_triples@.len() == old(self).auth_triples@.len() + old(self).and_wires@.len() / 3,
            final(self).auth_triples@.subrange(0, old(self).auth_triples@.len() as int) == old(self).auth_triples@,
            ids_distinct(old(self).and_wires@) ==> forall|k: int| 0 <= k < old(self).and_wires@.len() / 3 ==> {
                &&& final(self).auth_bits@[old(self).and_wires@[3 * k].id as int] == (#[trigger] final(
                    self).auth_triples@[old(self).auth_triples@.len() + k]).x
                &&& final(self).auth_bits@[old(self).and_wires@[3 * k + 1].id as int] == final(
                    self).auth_triples@[old(self).auth_triples@.len() + k].y
            },
    {
        let total = self.and_wires.len() + self.xor_input_wires.len() + self.xor_input_wires.len() / 2;
        let zero = AuthBit { gen_share: AuthBitShare::zero(), eval_share: AuthBitShare::zero() };
        proof {
            assert(zero == zero_bit());
        }
        let ghost old_bits = self.auth_bits@;
        self.auth_bits.resize(total, zero);
        proof {
            assert forall|k: int| 0 <= k < self.auth_bits@.len() implies auth_bit_ok(
                #[trigger] self.auth_bits@[k], self.delta_a@, self.delta_b@) by {
                if k < old_bits.len() {
                    if total > old_bits.len() {
                        assert(self.auth_bits@.subrange(0, old_bits.len() as int)[k] == self.auth_bits@[k]);
                    } else {
                        assert(old_bits.subrange(0, total as int)[k] == self.auth_bits@[k]);
                    }
                    assert(auth_bit_ok(old(self).auth_bits@[k], self.delta_a@, self.delta_b@));
                } else {
                    assert(cloned::<AuthBit>(zero, self.auth_bits@[k]));
                    crate::block::lemma_lsb_mul_bool(0u128, false);
                }
            }
        }
        let n_xor = self.xor_input_wires.len();
        let mut t: usize = 0;
        while t < n_xor
            invariant
                t <= n_xor,
                n_xor == self.xor_input_wires@.len(),
                self.xor_input_wires == old(self).xor_input_wires,
                self.and_wires == old(self).and_wires,
                self.delta_a == old(self).delta_a,
                self.delta_b == old(self).delta_b,
                self.auth_triples == old(self).auth_triples,
                self.auth_bits@.len() == total,
                total == old(self).total_bits(),
                ids_below(old(self).xor_input_wires@, total as int),
                self.bits_ok(),
            decreases n_xor - t,
        {
            let wire_index = self.xor_input_wires[t].id();
            let x = chacha_next_bool(&mut self.rng);
            let auth_bit = self.gen_auth_bit(x);
            let ghost before = self.auth_bits@;
            self.auth_bits.set(wire_index, auth_bit);
            proof {
                assert forall|k: int| 0 <= k < self.auth_bits@.len() implies auth_bit_ok(
                    #[trigger] self.auth_bits@[k], self.delta_a@, self.delta_b@) by {
                    if k != wire_index {
                        assert(self.auth_bits@[k] == before[k]);
                    }
                }
            }
            t = t + 1;
        }
        let n_and = self.and_wires.len() / 3;
        let ghost t0 = self.auth_triples@.len();
        let mut i: usize = 0;
        while i < n_and
            invariant
                i <= n_and,
                n_and == old(self).and_wires@.len() / 3,
                t0 == old(self).auth_triples@.len(),
                self.xor_input_wires == old(self).xor_input_wires,
                self.and_wires == old(self).and_wires,
                self.delta_a == old(self).delta_a,
                self.delta_b == old(self).delta_b,
                self.auth_bits@.len() == total,
                total == old(self).total_bits(),
                ids_below(old(self).and_wires@, total as int),
                self.bits_ok(),
                self.auth_triples@.len() == t0 + i,
                self.auth_triples@.subrange(0, t0 as int) == old(self).auth_triples@,
                ids_distinct(old(self).and_wires@) ==> forall|k: int| 0 <= k < i ==> {
                    &&& self.auth_bits@[old(self).and_wires@[3 * k].id as int] == (
                    #[trigger] self.auth_triples@[t0 + k]).x
                    &&& self.auth_bits@[old(self).and_wires@[3 * k + 1].id as int] == self.auth_triples@[t0 + k].y
                },
            decreases n_and - i,
        {
            let b = i * 3;
            let x_index = self.and_wires[b].id();
            let y_index = self.and_wires[b + 1].id();
            let z_index = self.and_wires[b + 2].id();
            let triple = self.gen_auth_triple();
            let x = chacha_next_bool(&mut self.rng);
            let auth_bit = self.gen_auth_bit(x);
            let ghost before = self.auth_bits@;
            let ghost trips = self.auth_triples@;
            self.auth_bits.set(x_index, triple.x);
            self.auth_bits.set(y_index, triple.y);
            self.auth_bits.set(z_index, auth_bit);
            self.auth_triples.push(triple);
            proof {
                assert forall|k: int| 0 <= k < self.auth_bits@.len() implies auth_bit_ok(
                    #[trigger] self.auth_bits@[k], self.delta_a@, self.delta_b@) by {
                    if k != x_index && k != y_index && k != z_index {
                        assert(self.auth_bits@[k] == before[k]);
                    }
                }
                assert(self.auth_triples@.subrange(0, t0 as int) =~= trips.subrange(0, t0 as int));
                assert forall|k: int| 0 <= k < self.auth_triples@.len() implies triple_ok(
                    #[trigger] self.auth_triples@[k], self.delta_a@, self.delta_b@) by {
                    if k < trips.len() {
                        assert(self.auth_triples@[k] == trips[k]);
                    }
                }
                if ids_distinct(old(self).and_wires@) {
                    let aw = old(self).and_wires@;
                    assert forall|k: int| 0 <= k < i + 1 implies {
                        &&& self.auth_bits@[aw[3 * k].id as int] == (#[trigger] self.auth_triples@[t0 + k]).x
                        &&& self.auth_bits@[aw[3 * k + 1].id as int] == self.auth_triples@[t0 + k].y
                    } by {
                        if k < i {
                            assert(self.auth_triples@[t0 + k] == trips[t0 + k]);
                            assert(aw[3 * k].id != aw[3 * i as int].id);
                            assert(aw[3 * k].id != aw[3 * i + 1].id);
                            assert(aw[3 * k].id != aw[3 * i + 2].id);
                            assert(aw[3 * k + 1].id != aw[3 * i as int].id);
                            assert(aw[3 * k + 1].id != aw[3 * i + 1].id);
                            assert(aw[3 * k + 1].id != aw[3 * i + 2].id);
                        } else {
                            assert(aw[3 * i as int].id != aw[3 * i + 1].id);
                            assert(aw[3 * i as int].id != aw[3 * i + 2].id);
                            assert(aw[3 * i + 1].id != aw[3 * i + 2].id);
                        }
                    }
                }
            }
            i = i + 1;
        }
    }

    /// Splits the dealer's output into the garbler's and the evaluator's views.
    pub fn into_gen_eval(self) -> (r: (FpreGen, FpreEval))
        requires
            self.xor_input_wires@.len() + self.and_wires@.len() <= usize::MAX,
        ensures
            r.0.num_input == self.xor_input_wires@.len() + self.and_wires@.len() * 2 / 3,
            r.0.num_output == self.xor_input_wires@.len() / 2 + self.and_wires@.len() / 3,
            r.0.num_and == self.and_wires@.len() / 3,
            r.0.delta_a == self.delta_a,
            r.0.wire_shares@ == self.auth_bits@.map_values(|b: AuthBit| b.gen_share),
            r.0.triple_shares@ == self.auth_triples@.map_values(|t: AuthTriple| gen_triple_share(t)),
            r.1.num_input == r.0.num_input,
            r.1.num_output == r.0.num_output,
            r.1.num_and == r.0.num_and,
            r.1.delta_b == self.delta_b,
            r.1.wire_shares@ == self.auth_bits@.map_values(|b: AuthBit| b.eval_share),
            r.1.triple_shares@ == self.auth_triples@.map_values(|t: AuthTriple| eval_triple_share(t)),
    {
        let n_bits = self.auth_bits.len();
        let mut gen_wire_shares: Vec<AuthBitShare> = Vec::with_capacity(n_bits);
        let mut eval_wire_shares: Vec<AuthBitShare> = Vec::with_capacity(n_bits);
        let mut i: usize = 0;
        while i < n_bits
            invariant
                i <= n_bits,
                n_bits == self.auth_bits@.len(),
                gen_wire_shares@ == self.auth_bits@.subrange(0, i as int).map_values(|b: AuthBit| b.gen_share),
                eval_wire_shares@ == self.auth_bits@.subrange(0, i as int).map_values(|b: AuthBit| b.eval_share),
            decreases n_bits - i,
        {
            let bit = self.auth_bits[i];
            gen_wire_shares.push(bit.gen_share);
            eval_wire_shares.push(bit.eval_share);
            proof {
                assert(self.auth_bits@.subrange(0, i + 1) =~= self.auth_bits@.subrange(0, i as int).push(bit));
            }
            i = i + 1;
        }
        proof {
            assert(self.auth_bits@.subrange(0, n_bits as int) =~= self.auth_bits@);
        }
        let n_triples = self.auth_triples.len();
        let mut gen_triple_shares: Vec<AuthTripleShare> = Vec::with_capacity(n_triples);
        let mut eval_triple_shares: Vec<AuthTripleShare> = Vec::with_capacity(n_triples);
        let mut k: usize = 0;
        while k < n_triples
            invariant
                k <= n_triples,
                n_triples == self.auth_triples@.len(),
                gen_triple_shares@ == self.auth_triples@.subrange(0, k as int).map_values(
                    |t: AuthTriple| gen_triple_share(t)),
                eval_triple_shares@ == self.auth_triples@.subrange(0, k as int).map_values(
                    |t: AuthTriple| eval_triple_share(t)),
            decreases n_triples - k,
        {
            let t = self.auth_triples[k];
            gen_triple_shares.push(AuthTripleShare { x: t.x.gen_share, y: t.y.gen_share, z: t.z.gen_share });
            eval_triple_shares.push(AuthTripleShare { x: t.x.eval_share, y: t.y.eval_share, z: t.z.eval_share });
            proof {
                assert(self.auth_triples@.subrange(0, k + 1) =~= self.auth_triples@.subrange(0, k as int).push(t));
            }
            k = k + 1;
        }
        proof {
            assert(self.auth_triples@.subrange(0, n_triples as int) =~= self.auth_triples@);
        }
        let n_xor = self.xor_input_wires.len();
        let n_and_wires = self.and_wires.len();
        let num_input = n_xor + n_and_wires / 3 * 2 + (n_and_wires % 3) * 2 / 3;
        proof {
            assert(n_and_wires * 2 / 3 == n_and_wires / 3 * 2 + (n_and_wires % 3) * 2 / 3) by (nonlinear_arith);
        }
        let num_output = n_xor / 2 + n_and_wires / 3;
        let num_and = n_and_wires / 3;
        let gb = FpreGen {
            num_input,
            num_output,
            num_and,
            delta_a: self.delta_a,
            wire_shares: gen_wire_shares,
            triple_shares: gen_triple_shares,
        };
        let ev = FpreEval {
            num_input,
            num_output,
            num_and,
            delta_b: self.delta_b,
            wire_shares: eval_wire_shares,
            triple_shares: eval_triple_shares,
        };
        (gb, ev)
    }

    /// The garbler's global key.
    pub fn delta_a(&self) -> (r: &Delta)
        ensures
            *r == self.delta_a,
    {
        &self.delta_a
    }

    /// The evaluator's global key.
    pub fn delta_b(&self) -> (r: &Delta)
        ensures
            *r == self.delta_b,
    {
        &self.delta_b
    }
}

} // verus!
