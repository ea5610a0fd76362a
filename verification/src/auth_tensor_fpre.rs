//! The ideal (trusted-dealer) preprocessing functionality for one tensor gate.

use vstd::prelude::*;
use crate::block::{Block, lsb_of};
use crate::delta::Delta;
use crate::sharing::{AuthBit, AuthBitShare, cross_valid, build_share};
use crate::preprocessing::{
    TensorFpreGen, TensorFpreEval, derive_sharing_blocks, fpre_valid, auth_pairs_ok, full_bit_at,
    mac_blocks, key_blocks, lowered_ok,
};
use crate::random::{chacha_from_seed, chacha_next_bool};
use rand_chacha::ChaCha12Rng;

verus! {

/// The garbler's shares of a sequence of authenticated bits.
pub open spec fn gen_shares(bits: Seq<AuthBit>) -> Seq<AuthBitShare> {
    Seq::new(bits.len(), |i: int| bits[i].gen_share)
}

/// The evaluator's shares of a sequence of authenticated bits.
pub open spec fn eval_shares(bits: Seq<AuthBit>) -> Seq<AuthBitShare> {
    Seq::new(bits.len(), |i: int| bits[i].eval_share)
}

/// `bit` is an authenticated bit under `(Δ_gb, Δ_ev)` whose keys have their
/// pointer bit clear.
pub open spec fn auth_bit_ok(bit: AuthBit, dgb: u128, dev: u128) -> bool {
    &&& cross_valid(bit.gen_share, bit.eval_share, dgb, dev)
    &&& !lsb_of(bit.gen_share.key@)
    &&& !lsb_of(bit.eval_share.key@)
}

/// Insecure ideal dealer of the authenticated bits of a tensor gate.
pub struct TensorFpre {
    pub rng: ChaCha12Rng,
    pub n: usize,
    pub m: usize,
    pub chunking_factor: usize,
    pub delta_gb: Delta,
    pub delta_ev: Delta,
    pub alpha_auth_bits: Vec<AuthBit>,
    pub beta_auth_bits: Vec<AuthBit>,
    pub correlated_auth_bits: Vec<AuthBit>,
}

impl TensorFpre {
    /// Every authenticated bit held is valid under the dealer's keys.
    pub open spec fn bits_ok(&self) -> bool {
        &&& forall|k: int| 0 <= k < self.alpha_auth_bits@.len() ==>
            auth_bit_ok(#[trigger] self.alpha_auth_bits@[k], self.delta_gb@, self.delta_ev@)
        &&& forall|k: int| 0 <= k < self.beta_auth_bits@.len() ==>
            auth_bit_ok(#[trigger] self.beta_auth_bits@[k], self.delta_gb@, self.delta_ev@)
        &&& forall|k: int| 0 <= k < self.correlated_auth_bits@.len() ==>
            auth_bit_ok(#[trigger] self.correlated_auth_bits@[k], self.delta_gb@, self.delta_ev@)
    }

    /// The correlated bit at `base + j·n + i` is `α_i · β_j`.
    pub open spec fn correlated_from(&self, base: int) -> bool {
        forall|i: int, j: int| 0 <= i < self.n && 0 <= j < self.m ==>
            (#[trigger] self.correlated_auth_bits@[base + j * self.n + i]).full_bit_spec()
                == (self.alpha_auth_bits@[i].full_bit_spec() && self.beta_auth_bits@[j].full_bit_spec())
    }

    /// The state `generate_ideal` leaves a fresh dealer in.
    pub open spec fn ideal_ok(&self) -> bool {
        &&& lsb_of(self.delta_gb@)
        &&& !lsb_of(self.delta_ev@)
        &&& self.bits_ok()
        &&& self.alpha_auth_bits@.len() == self.n
        &&& self.beta_auth_bits@.len() == self.m
        &&& self.correlated_auth_bits@.len() == self.n * self.m
        &&& self.correlated_from(0)
    }

    /// A dealer seeded with `seed`, with random `Δ_gb` (pointer bit 1) and
    /// `Δ_ev` (pointer bit 0) drawn from that seed.
    pub fn new(seed: u64, n: usize, m: usize, chunking_factor: usize) -> (r: TensorFpre)
        ensures
            r.n == n,
            r.m == m,
            r.chunking_factor == chunking_factor,
            lsb_of(r.delta_gb@),
            !lsb_of(r.delta_ev@),
            r.alpha_auth_bits@.len() == 0,
            r.beta_auth_bits@.len() == 0,
            r.correlated_auth_bits@.len() == 0,
    {
        let mut rng = chacha_from_seed(seed);
        let delta_gb = Delta::random_gb(&mut rng);
        let delta_ev = Delta::random_ev(&mut rng);
        TensorFpre {
            rng,
            n,
            m,
            chunking_factor,
            delta_gb,
            delta_ev,
            alpha_auth_bits: Vec::new(),
            beta_auth_bits: Vec::new(),
            correlated_auth_bits: Vec::new(),
        }
    }

    /// A dealer seeded with `seed` that uses the given keys.
    pub fn new_with_delta(
        seed: u64,
        n: usize,
        m: usize,
        chunking_factor: usize,
        delta_gb: Delta,
        delta_ev: Delta,
    ) -> (r: TensorFpre)
        ensures
            r.n == n,
            r.m == m,
            r.chunking_factor == chunking_factor,
            r.delta_gb == delta_gb,
            r.delta_ev == delta_ev,
            r.alpha_auth_bits@.len() == 0,
            r.beta_auth_bits@.len() == 0,
            r.correlated_auth_bits@.len() == 0,
    {
        TensorFpre {
            rng: chacha_from_seed(seed),
            n,
            m,
            chunking_factor,
            delta_gb,
            delta_ev,
            alpha_auth_bits: Vec::new(),
            beta_auth_bits: Vec::new(),
            correlated_auth_bits: Vec::new(),
        }
    }

    /// An authenticated bit for `x = a ⊕ b` with a random split: the garbler
    /// holds `a` with its MAC under `Δ_ev`, the evaluator `b` with its MAC under
    /// `Δ_gb`, each holding the key of the other's MAC.
    pub fn gen_auth_bit(&mut self, x: bool) -> (r: AuthBit)
        ensures
            auth_bit_ok(r, old(self).delta_gb@, old(self).delta_ev@),
            r.full_bit_spec() == x,
            final(self).n == old(self).n,
            final(self).m == old(self).m,
            final(self).chunking_factor == old(self).chunking_factor,
            final(self).delta_gb == old(self).delta_gb,
            final(self).delta_ev == old(self).delta_ev,
            final(self).alpha_auth_bits == old(self).alpha_auth_bits,
            final(self).beta_auth_bits == old(self).beta_auth_bits,
            final(self).correlated_auth_bits == old(self).correlated_auth_bits,
    {
        let a = chacha_next_bool(&mut self.rng);
        let b = x != a;
        let a_share = build_share(&mut self.rng, a, &self.delta_ev);
        let b_share = build_share(&mut self.rng, b, &self.delta_gb);
        AuthBit {
            gen_share: AuthBitShare { key: b_share.key, mac: a_share.mac, value: a },
            eval_share: AuthBitShare { key: a_share.key, mac: b_share.mac, value: b },
        }
    }

    /// Deals `n` random α bits, `m` random β bits and the `n·m` correlated bits
    /// `α_i · β_j` (column-major, index `j·n + i`), appended to those held.
    pub fn generate_ideal(&mut self)
        requires
            old(self).bits_ok(),
            old(self).n * old(self).m <= usize::MAX,
        ensures
            final(self).bits_ok(),
            final(self).n == old(self).n,
            final(self).m == old(self).m,
            final(self).chunking_factor == old(self).chunking_factor,
            final(self).delta_gb == old(self).delta_gb,
            final(self).delta_ev == old(self).delta_ev,
            final(self).alpha_auth_bits@.len() == old(self).alpha_auth_bits@.len() + old(self).n,
            final(self).beta_auth_bits@.len() == old(self).beta_auth_bits@.len() + old(self).m,
            final(self).correlated_auth_bits@.len() == old(self).correlated_auth_bits@.len() + old(self).n * old(self).m,
            final(self).alpha_auth_bits@.subrange(0, old(self).alpha_auth_bits@.len() as int) == old(self).alpha_auth_bits@,
            final(self).beta_auth_bits@.subrange(0, old(self).beta_auth_bits@.len() as int) == old(self).beta_auth_bits@,
            final(self).correlated_auth_bits@.subrange(0, old(self).correlated_auth_bits@.len() as int)
                == old(self).correlated_auth_bits@,
            final(self).correlated_from(old(self).correlated_auth_bits@.len() as int),
    {
        let n = self.n;
        let m = self.m;
        let ghost a0 = self.alpha_auth_bits@;
        let ghost b0 = self.beta_auth_bits@;
        let ghost c0 = self.correlated_auth_bits@;
        let ghost cf0 = self.chunking_factor;
        let ghost dgb0 = self.delta_gb;
        let ghost dev0 = self.delta_ev;
        let mut i: usize = 0;
        while i < n
            invariant
                i <= n,
                n == self.n,
                m == self.m,
                self.chunking_factor == cf0,
                self.delta_gb == dgb0,
                self.delta_ev == dev0,
                self.bits_ok(),
                self.alpha_auth_bits@.len() == a0.len() + i,
                self.alpha_auth_bits@.subrange(0, a0.len() as int) == a0,
                self.beta_auth_bits@ == b0,
                self.correlated_auth_bits@ == c0,
            decreases n - i,
        {
            let alpha_bit = chacha_next_bool(&mut self.rng);
            let bit = self.gen_auth_bit(alpha_bit);
            self.alpha_auth_bits.push(bit);
            proof {
                assert(self.alpha_auth_bits@.subrange(0, a0.len() as int) =~= a0);
            }
            i = i + 1;
        }
        let mut j: usize = 0;
        while j < m
            invariant
                j <= m,
                n == self.n,
                m == self.m,
                self.chunking_factor == cf0,
                self.delta_gb == dgb0,
                self.delta_ev == dev0,
                self.bits_ok(),
                self.alpha_auth_bits@.len() == a0.len() + n,
                self.alpha_auth_bits@.subrange(0, a0.len() as int) == a0,
                self.beta_auth_bits@.len() == b0.len() + j,
                self.beta_auth_bits@.subrange(0, b0.len() as int) == b0,
                self.correlated_auth_bits@ == c0,
            decreases m - j,
        {
            let beta_bit = chacha_next_bool(&mut self.rng);
            let bit = self.gen_auth_bit(beta_bit);
            self.beta_auth_bits.push(bit);
            proof {
                assert(self.beta_auth_bits@.subrange(0, b0.len() as int) =~= b0);
            }
            j = j + 1;
        }
        let mut j: usize = 0;
        while j < m
            invariant
                j <= m,
                n == self.n,
                m == self.m,
                self.chunking_factor == cf0,
                self.delta_gb == dgb0,
                self.delta_ev == dev0,
                n * m <= usize::MAX,
                self.bits_ok(),
                self.alpha_auth_bits@.len() == a0.len() + n,
                self.alpha_auth_bits@.subrange(0, a0.len() as int) == a0,
                self.beta_auth_bits@.len() == b0.len() + m,
                self.beta_auth_bits@.subrange(0, b0.len() as int) == b0,
                self.correlated_auth_bits@.len() == c0.len() + j * n,
                self.correlated_auth_bits@.subrange(0, c0.len() as int) == c0,
                forall|ii: int, jj: int| 0 <= ii < n && 0 <= jj < j ==>
                    (#[trigger] self.correlated_auth_bits@[c0.len() + jj * n + ii]).full_bit_spec()
                        == (self.alpha_auth_bits@[ii].full_bit_spec() && self.beta_auth_bits@[jj].full_bit_spec()),
            decreases m - j,
        {
            let mut i: usize = 0;
            while i < n
                invariant
                    i <= n,
                    j < m,
                    n == self.n,
                    m == self.m,
                    self.chunking_factor == cf0,
                    self.delta_gb == dgb0,
                    self.delta_ev == dev0,
                    n * m <= usize::MAX,
                    self.bits_ok(),
                    self.alpha_auth_bits@.len() == a0.len() + n,
                    self.alpha_auth_bits@.subrange(0, a0.len() as int) == a0,
                    self.beta_auth_bits@.len() == b0.len() + m,
                    self.beta_auth_bits@.subrange(0, b0.len() as int) == b0,
                    self.correlated_auth_bits@.len() == c0.len() + j * n + i,
                    self.correlated_auth_bits@.subrange(0, c0.len() as int) == c0,
                    forall|ii: int, jj: int| 0 <= ii < n && 0 <= jj < j ==>
                        (#[trigger] self.correlated_auth_bits@[c0.len() + jj * n + ii]).full_bit_spec()
                            == (self.alpha_auth_bits@[ii].full_bit_spec() && self.beta_auth_bits@[jj].full_bit_spec()),
                    forall|ii: int| 0 <= ii < i ==>
                        (#[trigger] self.correlated_auth_bits@[c0.len() + j * n + ii]).full_bit_spec()
                            == (self.alpha_auth_bits@[ii].full_bit_spec() && self.beta_auth_bits@[j as int].full_bit_spec()),
                decreases n - i,
            {
                let x = self.alpha_auth_bits[i].full_bit() && self.beta_auth_bits[j].full_bit();
                let bit = self.gen_auth_bit(x);
                let ghost before = self.correlated_auth_bits@;
                self.correlated_auth_bits.push(bit);
                proof {
                    assert(self.correlated_auth_bits@.subrange(0, c0.len() as int) =~= c0);
                    assert forall|ii: int, jj: int| 0 <= ii < n && 0 <= jj < j implies
                        (#[trigger] self.correlated_auth_bits@[c0.len() + jj * n + ii]).full_bit_spec()
                            == (self.alpha_auth_bits@[ii].full_bit_spec() && self.beta_auth_bits@[jj].full_bit_spec()) by {
                        assert(jj * n + ii < j * n) by (nonlinear_arith)
                            requires
                                0 <= ii < n,
                                jj < j,
                        ;
                        assert(self.correlated_auth_bits@[c0.len() + jj * n + ii] == before[c0.len() + jj * n + ii]);
                    }
                }
                i = i + 1;
            }
            proof {
                assert((j + 1) * n == j * n + n) by (nonlinear_arith);
                assert((j + 1) * n <= m * n) by (nonlinear_arith)
                    requires
                        j < m,
                ;
            }
            j = j + 1;
        }
        proof {
            assert(m * n == n * m) by (nonlinear_arith);
        }
    }

    /// Splits the dealer's output between the parties and lowers every
    /// category to its Block-form sharings (`_dev` under `Δ_ev`, `_dgb` under
    /// `Δ_gb`). No γ is dealt here.
    pub fn into_gen_eval(self) -> (r: (TensorFpreGen, TensorFpreEval))
        ensures
            r.0.n == self.n,
            r.0.m == self.m,
            r.1.n == self.n,
            r.1.m == self.m,
            r.0.chunking_factor == self.chunking_factor,
            r.1.chunking_factor == self.chunking_factor,
            r.0.delta_gb == self.delta_gb,
            r.1.delta_ev == self.delta_ev,
            r.0.alpha_auth_bit_shares@ == gen_shares(self.alpha_auth_bits@),
            r.1.alpha_auth_bit_shares@ == eval_shares(self.alpha_auth_bits@),
            r.0.beta_auth_bit_shares@ == gen_shares(self.beta_auth_bits@),
            r.1.beta_auth_bit_shares@ == eval_shares(self.beta_auth_bits@),
            r.0.correlated_auth_bit_shares@ == gen_shares(self.correlated_auth_bits@),
            r.1.correlated_auth_bit_shares@ == eval_shares(self.correlated_auth_bits@),
            lowered_ok(r.0.alpha_auth_bit_shares@, r.1.alpha_auth_bit_shares@, r.0.alpha_dev@, r.0.alpha_dgb@,
                r.1.alpha_dev@, r.1.alpha_dgb@, self.delta_gb@, self.delta_ev@),
            lowered_ok(r.0.beta_auth_bit_shares@, r.1.beta_auth_bit_shares@, r.0.beta_dev@, r.0.beta_dgb@,
                r.1.beta_dev@, r.1.beta_dgb@, self.delta_gb@, self.delta_ev@),
            lowered_ok(r.0.correlated_auth_bit_shares@, r.1.correlated_auth_bit_shares@, r.0.correlated_dev@,
                r.0.correlated_dgb@, r.1.correlated_dev@, r.1.correlated_dgb@, self.delta_gb@, self.delta_ev@),
            r.0.gamma_auth_bit_shares@.len() == 0,
            r.1.gamma_auth_bit_shares@.len() == 0,
            r.0.gamma_dev@.len() == 0,
            r.0.gamma_dgb@.len() == 0,
            r.1.gamma_dev@.len() == 0,
            r.1.gamma_dgb@.len() == 0,
            self.ideal_ok() ==> fpre_valid(r.0, r.1),
    {
        let alpha_gen_shares = split_gen(&self.alpha_auth_bits);
        let alpha_eval_shares = split_eval(&self.alpha_auth_bits);
        let beta_gen_shares = split_gen(&self.beta_auth_bits);
        let beta_eval_shares = split_eval(&self.beta_auth_bits);
        let correlated_gen_shares = split_gen(&self.correlated_auth_bits);
        let correlated_eval_shares = split_eval(&self.correlated_auth_bits);
        let delta_gb = self.delta_gb;
        let delta_ev = self.delta_ev;
        let (alpha_eval_g, alpha_eval_e) = derive_sharing_blocks(&alpha_gen_shares, &alpha_eval_shares, &delta_ev);
        let (alpha_gen_e, alpha_gen_g) = derive_sharing_blocks(&alpha_eval_shares, &alpha_gen_shares, &delta_gb);
        let (beta_eval_g, beta_eval_e) = derive_sharing_blocks(&beta_gen_shares, &beta_eval_shares, &delta_ev);
        let (beta_gen_e, beta_gen_g) = derive_sharing_blocks(&beta_eval_shares, &beta_gen_shares, &delta_gb);
        let (correlated_eval_g, correlated_eval_e) = derive_sharing_blocks(
            &correlated_gen_shares,
            &correlated_eval_shares,
            &delta_ev,
        );
        let (correlated_gen_e, correlated_gen_g) = derive_sharing_blocks(
            &correlated_eval_shares,
            &correlated_gen_shares,
            &delta_gb,
        );
        let g = TensorFpreGen {
            n: self.n,
            m: self.m,
            chunking_factor: self.chunking_factor,
            delta_gb,
            alpha_auth_bit_shares: alpha_gen_shares,
            alpha_dev: alpha_eval_g,
            alpha_dgb: alpha_gen_g,
            beta_auth_bit_shares: beta_gen_shares,
            beta_dev: beta_eval_g,
            beta_dgb: beta_gen_g,
            correlated_auth_bit_shares: correlated_gen_shares,
            correlated_dev: correlated_eval_g,
            correlated_dgb: correlated_gen_g,
            gamma_auth_bit_shares: Vec::new(),
            gamma_dev: Vec::new(),
            gamma_dgb: Vec::new(),
        };
        let e = TensorFpreEval {
            n: self.n,
            m: self.m,
            chunking_factor: self.chunking_factor,
            delta_ev,
            alpha_auth_bit_shares: alpha_eval_shares,
            alpha_dev: alpha_eval_e,
            alpha_dgb: alpha_gen_e,
            beta_auth_bit_shares: beta_eval_shares,
            beta_dev: beta_eval_e,
            beta_dgb: beta_gen_e,
            correlated_auth_bit_shares: correlated_eval_shares,
            correlated_dev: correlated_eval_e,
            correlated_dgb: correlated_gen_e,
            gamma_auth_bit_shares: Vec::new(),
            gamma_dev: Vec::new(),
            gamma_dgb: Vec::new(),
        };
        proof {
            if self.ideal_ok() {
                let n = self.n as nat;
                let m = self.m as nat;
                assert forall|i: int, j: int| 0 <= i < n && 0 <= j < m implies
                    #[trigger] full_bit_at(g.correlated_auth_bit_shares@, e.correlated_auth_bit_shares@, j * n + i)
                        == (full_bit_at(g.alpha_auth_bit_shares@, e.alpha_auth_bit_shares@, i)
                            && full_bit_at(g.beta_auth_bit_shares@, e.beta_auth_bit_shares@, j)) by {
                    assert(self.correlated_auth_bits@[0 + j * self.n + i].full_bit_spec()
                        == (self.alpha_auth_bits@[i].full_bit_spec() && self.beta_auth_bits@[j].full_bit_spec()));
                    assert(0 <= j * n + i < n * m) by (nonlinear_arith)
                        requires
                            0 <= i < n,
                            0 <= j < m,
                    ;
                }
                assert(auth_pairs_ok(g.alpha_auth_bit_shares@, e.alpha_auth_bit_shares@, n, delta_gb@, delta_ev@));
                assert(auth_pairs_ok(g.beta_auth_bit_shares@, e.beta_auth_bit_shares@, m, delta_gb@, delta_ev@));
                assert(auth_pairs_ok(g.correlated_auth_bit_shares@, e.correlated_auth_bit_shares@, n * m, delta_gb@, delta_ev@));
            }
        }
        (g, e)
    }
}

/// The garbler's shares of a vector of authenticated bits.
fn split_gen(bits: &Vec<AuthBit>) -> (r: Vec<AuthBitShare>)
    ensures
        r@ == gen_shares(bits@),
{
    let mut r: Vec<AuthBitShare> = Vec::new();
    let mut i: usize = 0;
    while i < bits.len()
        invariant
            i <= bits@.len(),
            r@ == gen_shares(bits@).subrange(0, i as int),
        decreases bits@.len() - i,
    {
        r.push(bits[i].gen_share);
        i = i + 1;
        proof {
            assert(r@ =~= gen_shares(bits@).subrange(0, i as int));
        }
    }
    proof {
        assert(gen_shares(bits@).subrange(0, bits@.len() as int) =~= gen_shares(bits@));
    }
    r
}

/// The evaluator's shares of a vector of authenticated bits.
fn split_eval(bits: &Vec<AuthBit>) -> (r: Vec<AuthBitShare>)
    ensures
        r@ == eval_shares(bits@),
{
    let mut r: Vec<AuthBitShare> = Vec::new();
    let mut i: usize = 0;
    while i < bits.len()
        invariant
            i <= bits@.len(),
            r@ == eval_shares(bits@).subrange(0, i as int),
        decreases bits@.len() - i,
    {
        r.push(bits[i].eval_share);
        i = i + 1;
        proof {
            assert(r@ =~= eval_shares(bits@).subrange(0, i as int));
        }
    }
    proof {
        assert(eval_shares(bits@).subrange(0, bits@.len() as int) =~= eval_shares(bits@));
    }
    r
}

} // verus!
