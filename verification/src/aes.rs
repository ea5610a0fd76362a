//! Fixed-key AES and the hash functions built on it (the tweakable circular
//! correlation-robust hash `tccr` and the correlation-robust hash `cr`).

use vstd::prelude::*;
use crate::block::Block;
use aes::Aes128;
use aes::cipher::{BlockEncrypt, KeyInit};
use aes::cipher::generic_array::GenericArray;

verus! {

/// AES-128 encryption of `block` under `key`, both taken as little-endian
/// 16-byte strings.
pub uninterp spec fn aes128_encrypt_spec(key: u128, block: u128) -> u128;

/// Calls `Aes128::new` and `BlockEncrypt::encrypt_block` of the `aes` crate: the
/// result is the AES-128 encryption of `block` under `key`, a function of the two
/// arguments alone.
#[verifier::external_body]
fn aes128_encrypt(key: u128, block: u128) -> (r: u128)
    ensures
        r == aes128_encrypt_spec(key, block),
{
    let cipher = Aes128::new(&GenericArray::from(key.to_le_bytes()));
    let mut b = GenericArray::from(block.to_le_bytes());
    cipher.encrypt_block(&mut b);
    u128::from_le_bytes(b.into())
}

/// The fixed AES key of the hash functions.
pub const FIXED_KEY: u128 = 0x2a45_2a45_2a45_2a45_2a45_2a45_2a45_2a45u128;

/// The fixed-key permutation `π(x)`.
pub open spec fn pi(key: u128, x: u128) -> u128 {
    aes128_encrypt_spec(key, x)
}

/// `tccr(i, x) = π(π(x) ⊕ i) ⊕ π(x)`.
pub open spec fn tccr_spec(key: u128, tweak: u128, x: u128) -> u128 {
    pi(key, pi(key, x) ^ tweak) ^ pi(key, x)
}

/// `cr(x) = π(x) ⊕ x`.
pub open spec fn cr_spec(key: u128, x: u128) -> u128 {
    pi(key, x) ^ x
}

/// Fixed-key AES hasher.
#[derive(Clone, Copy, Debug)]
pub struct FixedKeyAes {
    pub key: u128,
}

impl FixedKeyAes {
    pub open spec fn key_spec(&self) -> u128 {
        self.key
    }

    /// The hasher under the library's fixed key.
    pub fn new() -> (r: FixedKeyAes)
        ensures
            r.key_spec() == FIXED_KEY,
    {
        FixedKeyAes { key: FIXED_KEY }
    }

    /// The hasher under `key`.
    pub fn with_key(key: u128) -> (r: FixedKeyAes)
        ensures
            r.key_spec() == key,
    {
        FixedKeyAes { key }
    }

    /// Encrypts one block.
    pub fn encrypt(&self, x: Block) -> (r: Block)
        ensures
            r@ == pi(self.key_spec(), x@),
    {
        Block::from_u128(aes128_encrypt(self.key, x.to_u128()))
    }

    /// Tweakable circular correlation-robust hash.
    pub fn tccr(&self, tweak: Block, x: Block) -> (r: Block)
        ensures
            r@ == tccr_spec(self.key_spec(), tweak@, x@),
    {
        let h1 = aes128_encrypt(self.key, x.to_u128());
        let h2 = aes128_encrypt(self.key, h1 ^ tweak.to_u128());
        Block::from_u128(h2 ^ h1)
    }

    /// `tccr` over paired slices of tweaks and blocks, in place.
    pub fn tccr_many(&self, tweaks: &[Block], blocks: &mut Vec<Block>)
        requires
            tweaks@.len() == old(blocks)@.len(),
        ensures
            final(blocks)@.len() == old(blocks)@.len(),
            forall|i: int| 0 <= i < tweaks@.len() ==>
                (#[trigger] final(blocks)@[i])@ == tccr_spec(self.key_spec(), tweaks@[i]@, old(blocks)@[i]@),
    {
        let n = blocks.len();
        let mut i: usize = 0;
        while i < n
            invariant
                n == tweaks@.len(),
                blocks@.len() == n,
                i <= n,
                forall|k: int| 0 <= k < i ==>
                    (#[trigger] blocks@[k])@ == tccr_spec(self.key_spec(), tweaks@[k]@, old(blocks)@[k]@),
                forall|k: int| i <= k < n ==> #[trigger] blocks@[k] == old(blocks)@[k],
            decreases n - i,
        {
            let h = self.tccr(tweaks[i], blocks[i]);
            blocks.set(i, h);
            i = i + 1;
        }
    }

    /// Correlation-robust hash.
    pub fn cr(&self, x: Block) -> (r: Block)
        ensures
            r@ == cr_spec(self.key_spec(), x@),
    {
        let h = aes128_encrypt(self.key, x.to_u128());
        Block::from_u128(h ^ x.to_u128())
    }
}

} // verus!
