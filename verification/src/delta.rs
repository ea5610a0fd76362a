//! Global correlation keys (`Δ`).

use vstd::prelude::*;
use crate::block::{Block, lsb_of, with_lsb, mul_bool_spec, le_byte, le_value, group_xor};
use rand_chacha::ChaCha12Rng;

verus! {

broadcast use group_xor;

/// A global correlation key `Δ`; its least significant bit is the pointer bit.
#[derive(Clone, Copy, Debug, PartialEq, Eq, Structural)]
pub struct Delta(pub Block);

impl View for Delta {
    type V = u128;

    open spec fn view(&self) -> u128 {
        self.0@
    }
}

impl Delta {
    /// Creates a new Delta, setting the pointer bit to 1.
    pub fn new(value: Block) -> (r: Delta)
        ensures
            r@ == with_lsb(value@, true),
    {
        let mut value = value;
        value.set_lsb(true);
        Delta(value)
    }

    /// Returns the pointer bit.
    pub fn lsb(&self) -> (r: bool)
        ensures
            r == lsb_of(self@),
    {
        self.0.lsb()
    }

    /// Sets the pointer bit.
    pub fn set_lsb(self, value: bool) -> (r: Delta)
        ensures
            r@ == with_lsb(self@, value),
    {
        let mut s = self;
        s.0.set_lsb(value);
        s
    }

    /// A random `Δ_gb` (the garbler's key; pointer bit 1).
    pub fn random_gb(rng: &mut ChaCha12Rng) -> (r: Delta)
        ensures
            lsb_of(r@),
    {
        Self::new(Block::random(rng))
    }

    /// A `Δ` with an explicit pointer bit.
    pub fn new_with_lsb(value: Block, lsb_value: bool) -> (r: Delta)
        ensures
            r@ == with_lsb(value@, lsb_value),
    {
        let mut value = value;
        value.set_lsb(lsb_value);
        Delta(value)
    }

    /// A random `Δ_ev` (the evaluator's key; pointer bit 0).
    pub fn random_ev(rng: &mut ChaCha12Rng) -> (r: Delta)
        ensures
            !lsb_of(r@),
    {
        Self::new_with_lsb(Block::random(rng), false)
    }

    /// `value · Δ`.
    pub fn mul_bool(self, value: bool) -> (r: Block)
        ensures
            r@ == mul_bool_spec(self@, value),
    {
        if value {
            self.0
        } else {
            Block::zero()
        }
    }

    /// Returns the inner block.
    pub fn as_block(&self) -> (r: &Block)
        ensures
            r@ == self@,
    {
        &self.0
    }

    /// Returns the inner block.
    pub fn into_inner(self) -> (r: Block)
        ensures
            r@ == self@,
    {
        self.0
    }
}

impl From<Delta> for Block {
    fn from(val: Delta) -> (r: Block) {
        val.0
    }
}

impl vstd::std_specs::convert::FromSpecImpl<Delta> for Block {
    open spec fn obeys_from_spec() -> bool {
        true
    }

    open spec fn from_spec(val: Delta) -> Block {
        val.0
    }
}

impl core::ops::BitXor<Block> for Delta {
    type Output = Block;

    fn bitxor(self, rhs: Block) -> (r: Block) {
        self.0.xor(&rhs)
    }
}

impl vstd::std_specs::ops::BitXorSpecImpl<Block> for Delta {
    open spec fn obeys_bitxor_spec() -> bool {
        true
    }

    open spec fn bitxor_req(self, rhs: Block) -> bool {
        true
    }

    open spec fn bitxor_spec(self, rhs: Block) -> Block {
        Block { v: self.0.v ^ rhs.v }
    }
}

impl core::ops::BitXor<Delta> for Block {
    type Output = Block;

    fn bitxor(self, rhs: Delta) -> (r: Block) {
        self.xor(&rhs.0)
    }
}

impl vstd::std_specs::ops::BitXorSpecImpl<Delta> for Block {
    open spec fn obeys_bitxor_spec() -> bool {
        true
    }

    open spec fn bitxor_req(self, rhs: Delta) -> bool {
        true
    }

    open spec fn bitxor_spec(self, rhs: Delta) -> Block {
        Block { v: self.v ^ rhs.0.v }
    }
}

impl core::ops::BitXorAssign<Delta> for Block {
    fn bitxor_assign(&mut self, rhs: Delta)
        ensures
            final(self)@ == old(self)@ ^ rhs@,
    {
        self.v = self.v ^ rhs.0.v;
    }
}

} // verus!
