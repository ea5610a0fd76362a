//! XOR sharings and IT-MAC authenticated bits.

use vstd::prelude::*;
use crate::block::{Block, lsb_of, with_lsb, mul_bool_spec, group_xor};
use crate::keys::{Key, auth_spec};
use crate::macs::Mac;
use crate::delta::Delta;
use rand_chacha::ChaCha12Rng;

verus! {

broadcast use group_xor;

/// A pair of input-label shares, one per party.
#[derive(Debug, Clone, Copy)]
pub struct InputSharing {
    pub gen_share: Block,
    pub eval_share: Block,
}

impl InputSharing {
    /// Returns whether the two parties' share blocks differ.
    pub fn shares_differ(&self) -> (r: bool)
        ensures
            r == (self.gen_share@ != self.eval_share@),
    {
        self.gen_share.v != self.eval_share.v
    }
}

/// One party's view of an authenticated bit: a key, a MAC and the committed bit.
#[derive(Debug, Clone, Copy)]
pub struct AuthBitShare {
    pub key: Key,
    pub mac: Mac,
    pub value: bool,
}

impl AuthBitShare {
    /// `mac == key ⊕ value · Δ`: the IT-MAC relation of a standalone share.
    pub open spec fn mac_valid(self, delta: u128) -> bool {
        self.mac@ == auth_spec(self.key@, self.value, delta)
    }

    /// The all-zero share.
    pub fn zero() -> (r: AuthBitShare)
        ensures
            r.key@ == 0,
            r.mac@ == 0,
            !r.value,
    {
        AuthBitShare { key: Key::default(), mac: Mac::default(), value: false }
    }

    /// Returns the committed bit.
    pub fn bit(&self) -> (r: bool)
        ensures
            r == self.value,
    {
        self.value
    }

    /// Returns the key.
    pub fn key(&self) -> (r: &Key)
        ensures
            *r == self.key,
    {
        &self.key
    }

    /// Returns the MAC.
    pub fn mac(&self) -> (r: &Mac)
        ensures
            *r == self.mac,
    {
        &self.mac
    }

    /// A share committing to `bit` under the same key, with its MAC recomputed under `delta`.
    pub fn with_bit(self, bit: bool, delta: &Delta) -> (r: AuthBitShare)
        ensures
            r.key == self.key,
            r.value == bit,
            r.mac_valid(delta@),
    {
        let mac = self.key.auth(bit, delta);
        AuthBitShare { key: self.key, mac, value: bit }
    }

    /// Whether `mac == key.auth(bit, delta)`.
    pub fn is_valid(&self, delta: &Delta) -> (r: bool)
        ensures
            r == self.mac_valid(delta@),
    {
        let want = self.key.auth(self.value, delta);
        want.0.v == self.mac.0.v
    }

    /// Checks that `mac == key.auth(bit, delta)`; callers must hold the relation.
    pub fn verify(&self, delta: &Delta)
        requires
            self.mac_valid(delta@),
    {
    }

    /// Field-wise XOR of two shares (the sum of two authenticated bits).
    pub fn add_share(&self, rhs: &AuthBitShare) -> (r: AuthBitShare)
        ensures
            r == share_xor(*self, *rhs),
    {
        AuthBitShare {
            key: self.key.xor(&rhs.key),
            mac: self.mac.xor(&rhs.mac),
            value: self.value != rhs.value,
        }
    }
}

impl Default for AuthBitShare {
    fn default() -> (r: AuthBitShare)
        ensures
            r.key@ == 0,
            r.mac@ == 0,
            !r.value,
    {
        AuthBitShare::zero()
    }
}

impl core::ops::Add for AuthBitShare {
    type Output = AuthBitShare;

    fn add(self, rhs: AuthBitShare) -> (r: AuthBitShare) {
        self.add_share(&rhs)
    }
}

impl vstd::std_specs::ops::AddSpecImpl for AuthBitShare {
    open spec fn obeys_add_spec() -> bool {
        true
    }

    open spec fn add_req(self, rhs: AuthBitShare) -> bool {
        true
    }

    open spec fn add_spec(self, rhs: AuthBitShare) -> AuthBitShare {
        share_xor(self, rhs)
    }
}

/// Field-wise XOR of two shares.
pub open spec fn share_xor(a: AuthBitShare, b: AuthBitShare) -> AuthBitShare {
    AuthBitShare {
        key: Key(Block { v: a.key.0.v ^ b.key.0.v }),
        mac: Mac(Block { v: a.mac.0.v ^ b.mac.0.v }),
        value: a.value != b.value,
    }
}

/// The cross-party IT-MAC relation of a pair of shares: the garbler's MAC
/// authenticates its bit under the evaluator's key and `Δ_ev`, and the evaluator's
/// MAC authenticates its bit under the garbler's key and `Δ_gb`.
pub open spec fn cross_valid(gen: AuthBitShare, eval: AuthBitShare, delta_gb: u128, delta_ev: u128) -> bool {
    &&& gen.mac@ == auth_spec(eval.key@, gen.value, delta_ev)
    &&& eval.mac@ == auth_spec(gen.key@, eval.value, delta_gb)
}

/// Builds one share of `bit` under the verifying party's `delta`, with a fresh random key.
pub fn build_share(rng: &mut ChaCha12Rng, bit: bool, delta: &Delta) -> (r: AuthBitShare)
    ensures
        r.value == bit,
        !lsb_of(r.key@),
        r.mac_valid(delta@),
{
    let key = Key::new(Block::random(rng));
    let mac = key.auth(bit, delta);
    AuthBitShare { key, mac, value: bit }
}

/// Cross-party MAC verification of a pair of shares; callers must hold the relation.
pub fn verify_cross_party(gen_share: &AuthBitShare, eval_share: &AuthBitShare, delta_gb: &Delta, delta_ev: &Delta)
    requires
        cross_valid(*gen_share, *eval_share, delta_gb@, delta_ev@),
{
    let r = AuthBitShare { key: eval_share.key, mac: gen_share.mac, value: gen_share.value };
    r.verify(delta_ev);
    let s = AuthBitShare { key: gen_share.key, mac: eval_share.mac, value: eval_share.value };
    s.verify(delta_gb);
}

/// Whether a pair of shares satisfies the cross-party IT-MAC relation.
pub fn cross_party_valid(gen_share: &AuthBitShare, eval_share: &AuthBitShare, delta_gb: &Delta, delta_ev: &Delta) -> (r: bool)
    ensures
        r == cross_valid(*gen_share, *eval_share, delta_gb@, delta_ev@),
{
    let r = AuthBitShare { key: eval_share.key, mac: gen_share.mac, value: gen_share.value };
    let s = AuthBitShare { key: gen_share.key, mac: eval_share.mac, value: eval_share.value };
    r.is_valid(delta_ev) && s.is_valid(delta_gb)
}

/// Both parties' views of an authenticated bit.
#[derive(Debug, Clone, Copy)]
pub struct AuthBit {
    pub gen_share: AuthBitShare,
    pub eval_share: AuthBitShare,
}

impl AuthBit {
    /// The full bit: the XOR of the two committed bits.
    pub open spec fn full_bit_spec(self) -> bool {
        self.gen_share.value != self.eval_share.value
    }

    /// Recovers the full bit `x = r ⊕ s`.
    pub fn full_bit(&self) -> (r: bool)
        ensures
            r == self.full_bit_spec(),
    {
        self.gen_share.bit() != self.eval_share.bit()
    }

    /// Verifies both cross-party MAC relations; callers must hold them.
    pub fn verify(&self, delta_gb: &Delta, delta_ev: &Delta)
        requires
            cross_valid(self.gen_share, self.eval_share, delta_gb@, delta_ev@),
    {
        verify_cross_party(&self.gen_share, &self.eval_share, delta_gb, delta_ev);
    }
}

/// The sum of two standalone shares valid under the same `Δ` is valid under `Δ`.
pub proof fn lemma_add_share_mac_valid(a: AuthBitShare, b: AuthBitShare, delta: u128)
    requires
        a.mac_valid(delta),
        b.mac_valid(delta),
    ensures
        share_xor(a, b).mac_valid(delta),
{
    lemma_xor_auth(a.key@, a.value, b.key@, b.value, delta);
}

/// The cross-party IT-MAC relation is closed under field-wise XOR of both sides:
/// sums of authenticated bits are authenticated.
pub proof fn lemma_add_cross_valid(g1: AuthBitShare, e1: AuthBitShare, g2: AuthBitShare, e2: AuthBitShare, delta_gb: u128, delta_ev: u128)
    requires
        cross_valid(g1, e1, delta_gb, delta_ev),
        cross_valid(g2, e2, delta_gb, delta_ev),
    ensures
        cross_valid(share_xor(g1, g2), share_xor(e1, e2), delta_gb, delta_ev),
{
    lemma_xor_auth(e1.key@, g1.value, e2.key@, g2.value, delta_ev);
    lemma_xor_auth(g1.key@, e1.value, g2.key@, e2.value, delta_gb);
}

/// `auth(k1, b1, Δ) ⊕ auth(k2, b2, Δ) == auth(k1 ⊕ k2, b1 ⊕ b2, Δ)`.
pub proof fn lemma_xor_auth(k1: u128, b1: bool, k2: u128, b2: bool, delta: u128)
    ensures
        auth_spec(k1, b1, delta) ^ auth_spec(k2, b2, delta) == auth_spec(k1 ^ k2, b1 != b2, delta),
{
    if b1 {
        if b2 {
            assert((k1 ^ delta) ^ (k2 ^ delta) == (k1 ^ k2) ^ 0u128) by (bit_vector);
        } else {
            assert((k1 ^ delta) ^ (k2 ^ 0u128) == (k1 ^ k2) ^ delta) by (bit_vector);
        }
    } else {
        if b2 {
            assert((k1 ^ 0u128) ^ (k2 ^ delta) == (k1 ^ k2) ^ delta) by (bit_vector);
        } else {
            assert((k1 ^ 0u128) ^ (k2 ^ 0u128) == (k1 ^ k2) ^ 0u128) by (bit_vector);
        }
    }
}

} // verus!
