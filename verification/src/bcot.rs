//! Ideal boolean correlated OT: an in-process functionality that hands the
//! sender a fresh key `K` (pointer bit 0) per choice bit `b` and the receiver
//! `K ⊕ b·Δ`.

use vstd::prelude::*;
use crate::block::{Block, lsb_of};
use crate::delta::Delta;
use crate::keys::{Key, auth_spec};
use crate::macs::Mac;
use crate::sharing::AuthBitShare;
use crate::random::chacha_from_seed;
use rand_chacha::ChaCha12Rng;

verus! {

/// The ideal bCOT with two global keys: transfers that `A` sends are
/// correlated under `delta_b`, transfers that `B` sends under `delta_a`.
/// `delta_b` has pointer bit 1 and `delta_a` pointer bit 0.
pub struct IdealBCot {
    pub delta_a: Delta,
    pub delta_b: Delta,
    pub rng: ChaCha12Rng,
}

/// The output of one batch of transfers: the sender's keys, the receiver's
/// MACs, and the receiver's choice bits.
pub struct BcotOutput {
    pub sender_keys: Vec<Key>,
    pub receiver_macs: Vec<Mac>,
    pub choices: Vec<bool>,
}

/// A batch for `choices` correlated under `delta`: one key per choice, each with
/// pointer bit 0, and the receiver's MAC `K ⊕ b·Δ` of each choice bit.
pub open spec fn batch_ok(out: BcotOutput, choices: Seq<bool>, delta: u128) -> bool {
    &&& out.sender_keys@.len() == choices.len()
    &&& out.receiver_macs@.len() == choices.len()
    &&& out.choices@ == choices
    &&& forall|i: int| 0 <= i < choices.len() ==> !lsb_of((#[trigger] out.sender_keys@[i])@)
    &&& forall|i: int| 0 <= i < choices.len() ==>
        (#[trigger] out.receiver_macs@[i])@ == auth_spec(out.sender_keys@[i]@, choices[i], delta)
}

impl IdealBCot {
    /// A bCOT whose keys are drawn from `seed_a` (`delta_a`) and `seed_b`
    /// (`delta_b`), and whose transfer keys come from a generator seeded with
    /// `seed_a ⊕ seed_b`.
    pub fn new(seed_a: u64, seed_b: u64) -> (r: IdealBCot)
        ensures
            !lsb_of(r.delta_a@),
            lsb_of(r.delta_b@),
    {
        let mut rng_a = chacha_from_seed(seed_a);
        let mut rng_b = chacha_from_seed(seed_b);
        let delta_a = Delta::random_ev(&mut rng_a);
        let delta_b = Delta::random_gb(&mut rng_b);
        let rng = chacha_from_seed(seed_a ^ seed_b);
        IdealBCot { delta_a, delta_b, rng }
    }

    /// One batch of transfers under `delta`.
    fn transfer(&mut self, choices: &[bool], delta: &Delta) -> (r: BcotOutput)
        ensures
            final(self).delta_a == old(self).delta_a,
            final(self).delta_b == old(self).delta_b,
            batch_ok(r, choices@, delta@),
    {
        let mut sender_keys: Vec<Key> = Vec::with_capacity(choices.len());
        let mut receiver_macs: Vec<Mac> = Vec::with_capacity(choices.len());
        let mut choice_copy: Vec<bool> = Vec::with_capacity(choices.len());
        let mut i: usize = 0;
        while i < choices.len()
            invariant
                i <= choices@.len(),
                self.delta_a == old(self).delta_a,
                self.delta_b == old(self).delta_b,
                sender_keys@.len() == i,
                receiver_macs@.len() == i,
                choice_copy@ == choices@.subrange(0, i as int),
                forall|k: int| 0 <= k < i ==> !lsb_of((#[trigger] sender_keys@[k])@),
                forall|k: int| 0 <= k < i ==>
                    (#[trigger] receiver_macs@[k])@ == auth_spec(sender_keys@[k]@, choices@[k], delta@),
            decreases choices@.len() - i,
        {
            let b = choices[i];
            let mut k0_block = Block::random(&mut self.rng);
            k0_block.set_lsb(false);
            let k0 = Key::new(k0_block);
            let mac = k0.auth(b, delta);
            sender_keys.push(k0);
            receiver_macs.push(mac);
            choice_copy.push(b);
            i = i + 1;
        }
        proof {
            assert(choice_copy@ =~= choices@);
        }
        BcotOutput { sender_keys, receiver_macs, choices: choice_copy }
    }

    /// `A` sends, `B` receives with choice bits `choices`: `B`'s MACs are
    /// `K ⊕ b·delta_b`.
    pub fn transfer_a_to_b(&mut self, choices: &[bool]) -> (r: BcotOutput)
        ensures
            final(self).delta_a == old(self).delta_a,
            final(self).delta_b == old(self).delta_b,
            batch_ok(r, choices@, old(self).delta_b@),
    {
        let delta = self.delta_b;
        self.transfer(choices, &delta)
    }

    /// `B` sends, `A` receives with choice bits `choices`: `A`'s MACs are
    /// `K ⊕ b·delta_a`.
    pub fn transfer_b_to_a(&mut self, choices: &[bool]) -> (r: BcotOutput)
        ensures
            final(self).delta_a == old(self).delta_a,
            final(self).delta_b == old(self).delta_b,
            batch_ok(r, choices@, old(self).delta_a@),
    {
        let delta = self.delta_a;
        self.transfer(choices, &delta)
    }

    /// The batch as shares in which the sender holds the key: share `i` is
    /// `(sender_keys[i], receiver_macs[i], choices[i])`, over the common length
    /// of the three vectors.
    pub fn output_to_auth_bit_shares_a_holds_key(output: &BcotOutput) -> (r: Vec<AuthBitShare>)
        ensures
            r@.len() == min_len(output.sender_keys@.len(), output.receiver_macs@.len(), output.choices@.len()),
            forall|i: int| 0 <= i < r@.len() ==> (#[trigger] r@[i]) == (AuthBitShare {
                key: output.sender_keys@[i],
                mac: output.receiver_macs@[i],
                value: output.choices@[i],
            }),
    {
        let mut len = output.sender_keys.len();
        if output.receiver_macs.len() < len {
            len = output.receiver_macs.len();
        }
        if output.choices.len() < len {
            len = output.choices.len();
        }
        let mut r: Vec<AuthBitShare> = Vec::with_capacity(len);
        let mut i: usize = 0;
        while i < len
            invariant
                i <= len,
                len == min_len(output.sender_keys@.len(), output.receiver_macs@.len(), output.choices@.len()),
                r@.len() == i,
                forall|k: int| 0 <= k < i ==> (#[trigger] r@[k]) == (AuthBitShare {
                    key: output.sender_keys@[k],
                    mac: output.receiver_macs@[k],
                    value: output.choices@[k],
                }),
            decreases len - i,
        {
            r.push(AuthBitShare { key: output.sender_keys[i], mac: output.receiver_macs[i], value: output.choices[i] });
            i = i + 1;
        }
        r
    }
}

/// The least of three lengths.
pub open spec fn min_len(a: nat, b: nat, c: nat) -> nat {
    let ab = if a <= b { a } else { b };
    if ab <= c { ab } else { c }
}

} // verus!
