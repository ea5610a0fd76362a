//! MAC keys.

use vstd::prelude::*;
use crate::block::{Block, lsb_of, with_lsb, mul_bool_spec, le_byte, le_value, group_xor};
use crate::delta::Delta;
use crate::macs::Mac;
use rand_chacha::ChaCha12Rng;

verus! {

broadcast use group_xor;

/// `key ⊕ bit · Δ`: the MAC of `bit` under `key` and `Δ`.
pub open spec fn auth_spec(key: u128, bit: bool, delta: u128) -> u128 {
    key ^ mul_bool_spec(delta, bit)
}

/// MAC key.
#[derive(Clone, Copy, Debug, PartialEq, Eq, Structural)]
pub struct Key(pub Block);

impl View for Key {
    type V = u128;

    open spec fn view(&self) -> u128 {
        self.0@
    }
}

impl Default for Key {
    fn default() -> (r: Key)
        ensures
            r@ == 0,
    {
        Key(Block::zero())
    }
}

impl Key {
    /// A key from `block` with its pointer bit cleared (`lsb == 0` invariant of keys).
    pub fn new(block: Block) -> (r: Key)
        ensures
            r@ == with_lsb(block@, false),
            !lsb_of(r@),
    {
        let mut block = block;
        block.set_lsb(false);
        Key(block)
    }

    /// Returns the pointer bit.
    pub fn pointer(&self) -> (r: bool)
        ensures
            r == lsb_of(self@),
    {
        self.0.lsb()
    }

    /// Sets the pointer bit.
    pub fn set_pointer(&mut self, bit: bool)
        ensures
            final(self)@ == with_lsb(old(self)@, bit),
    {
        self.0.set_lsb(bit);
    }

    /// Adjusts the truth value of the corresponding MAC: XORs in `adjust · Δ`
    /// and clears the pointer bit.
    pub fn adjust(&mut self, adjust: bool, delta: &Delta)
        ensures
            final(self)@ == with_lsb(old(self)@ ^ mul_bool_spec(delta@, adjust), false),
    {
        let d = delta.mul_bool(adjust);
        self.0 = self.0.xor(&d);
        self.0.set_lsb(false);
    }

    /// Returns the MAC of `bit` under this key and `delta`.
    pub fn auth(&self, bit: bool, delta: &Delta) -> (r: Mac)
        ensures
            r@ == auth_spec(self@, bit, delta@),
    {
        let d = delta.mul_bool(bit);
        Mac::new(self.0.xor(&d))
    }

    /// Returns the key block.
    pub fn as_block(&self) -> (r: &Block)
        ensures
            r@ == self@,
    {
        &self.0
    }

    /// The blocks of a slice of keys.
    pub fn as_blocks(slice: &[Key]) -> (r: Vec<Block>)
        ensures
            r@.len() == slice@.len(),
            forall|i: int| 0 <= i < slice@.len() ==> (#[trigger] r@[i])@ == slice@[i]@,
    {
        let mut out: Vec<Block> = Vec::new();
        let mut i: usize = 0;
        while i < slice.len()
            invariant
                i <= slice@.len(),
                out@.len() == i,
                forall|k: int| 0 <= k < i ==> (#[trigger] out@[k])@ == slice@[k]@,
            decreases slice@.len() - i,
        {
            out.push(slice[i].0);
            i = i + 1;
        }
        out
    }

    /// Keys holding the given blocks, unchanged.
    pub fn from_blocks(blocks: Vec<Block>) -> (r: Vec<Key>)
        ensures
            r@.len() == blocks@.len(),
            forall|i: int| 0 <= i < blocks@.len() ==> (#[trigger] r@[i])@ == blocks@[i]@,
    {
        let mut out: Vec<Key> = Vec::new();
        let mut i: usize = 0;
        while i < blocks.len()
            invariant
                i <= blocks@.len(),
                out@.len() == i,
                forall|k: int| 0 <= k < i ==> (#[trigger] out@[k])@ == blocks@[k]@,
            decreases blocks@.len() - i,
        {
            out.push(Key(blocks[i]));
            i = i + 1;
        }
        out
    }

    /// The blocks of a vector of keys.
    pub fn into_blocks(keys: Vec<Key>) -> (r: Vec<Block>)
        ensures
            r@.len() == keys@.len(),
            forall|i: int| 0 <= i < keys@.len() ==> (#[trigger] r@[i])@ == keys@[i]@,
    {
        Self::as_blocks(keys.as_slice())
    }

    /// A random key (pointer bit 0).
    pub fn random(rng: &mut ChaCha12Rng) -> (r: Key)
        ensures
            !lsb_of(r@),
    {
        Self::new(Block::random(rng))
    }

    /// XOR of two keys.
    pub fn xor(&self, rhs: &Key) -> (r: Key)
        ensures
            r@ == self@ ^ rhs@,
    {
        Key(self.0.xor(&rhs.0))
    }
}

impl From<Key> for Block {
    fn from(key: Key) -> (r: Block) {
        key.0
    }
}

impl vstd::std_specs::convert::FromSpecImpl<Key> for Block {
    open spec fn obeys_from_spec() -> bool {
        true
    }

    open spec fn from_spec(key: Key) -> Block {
        key.0
    }
}

impl From<Block> for Key {
    fn from(block: Block) -> (r: Key) {
        Key(block)
    }
}

impl vstd::std_specs::convert::FromSpecImpl<Block> for Key {
    open spec fn obeys_from_spec() -> bool {
        true
    }

    open spec fn from_spec(block: Block) -> Key {
        Key(block)
    }
}

impl From<[u8; 16]> for Key {
    fn from(bytes: [u8; 16]) -> (r: Key) {
        Key(Block::new(bytes))
    }
}

impl vstd::std_specs::convert::FromSpecImpl<[u8; 16]> for Key {
    open spec fn obeys_from_spec() -> bool {
        true
    }

    open spec fn from_spec(bytes: [u8; 16]) -> Key {
        Key(Block { v: le_value(bytes@) as u128 })
    }
}

impl core::ops::Add for Key {
    type Output = Key;

    fn add(self, rhs: Key) -> (r: Key) {
        Key(self.0.xor(&rhs.0))
    }
}

impl vstd::std_specs::ops::AddSpecImpl for Key {
    open spec fn obeys_add_spec() -> bool {
        true
    }

    open spec fn add_req(self, rhs: Key) -> bool {
        true
    }

    open spec fn add_spec(self, rhs: Key) -> Key {
        Key(Block { v: self.0.v ^ rhs.0.v })
    }
}

impl core::ops::BitXor for Key {
    type Output = Key;

    fn bitxor(self, rhs: Key) -> (r: Key) {
        Key(self.0.xor(&rhs.0))
    }
}

impl vstd::std_specs::ops::BitXorSpecImpl for Key {
    open spec fn obeys_bitxor_spec() -> bool {
        true
    }

    open spec fn bitxor_req(self, rhs: Key) -> bool {
        true
    }

    open spec fn bitxor_spec(self, rhs: Key) -> Key {
        Key(Block { v: self.0.v ^ rhs.0.v })
    }
}

impl core::ops::BitXorAssign for Key {
    fn bitxor_assign(&mut self, rhs: Key)
        ensures
            final(self)@ == old(self)@ ^ rhs@,
    {
        self.0 = self.0.xor(&rhs.0);
    }
}

} // verus!
