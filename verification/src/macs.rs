//! MACs of authenticated bits.

use vstd::prelude::*;
use crate::block::{Block, lsb_of, with_lsb, mul_bool_spec, le_byte, le_value, group_xor};

verus! {

broadcast use group_xor;

/// MAC.
#[derive(Clone, Copy, Debug, PartialEq, Eq, Structural)]
pub struct Mac(pub Block);

impl View for Mac {
    type V = u128;

    open spec fn view(&self) -> u128 {
        self.0@
    }
}

impl Default for Mac {
    fn default() -> (r: Mac)
        ensures
            r@ == 0,
    {
        Mac(Block::zero())
    }
}

impl Mac {
    /// Creates a new MAC.
    pub fn new(block: Block) -> (r: Mac)
        ensures
            r@ == block@,
    {
        Mac(block)
    }

    /// Returns the pointer bit.
    pub fn pointer(&self) -> (r: bool)
        ensures
            r == lsb_of(self@),
    {
        self.0.lsb()
    }

    /// Sets the pointer bit.
    pub fn set_pointer(&mut self, bit: bool)
        ensures
            final(self)@ == with_lsb(old(self)@, bit),
    {
        self.0.set_lsb(bit);
    }

    /// Returns the MAC encoded as bytes.
    pub fn as_bytes(&self) -> (r: [u8; 16])
        ensures
            forall|i: int| 0 <= i < 16 ==> #[trigger] r@[i] == le_byte(self@, i),
    {
        self.0.as_bytes()
    }

    /// Returns the MAC block.
    pub fn as_block(&self) -> (r: &Block)
        ensures
            r@ == self@,
    {
        &self.0
    }

    /// The blocks of a slice of MACs.
    pub fn as_blocks(slice: &[Mac]) -> (r: Vec<Block>)
        ensures
            r@.len() == slice@.len(),
            forall|i: int| 0 <= i < slice@.len() ==> (#[trigger] r@[i])@ == slice@[i]@,
    {
        let mut out: Vec<Block> = Vec::new();
        let mut i: usize = 0;
        while i < slice.len()
            invariant
                i <= slice@.len(),
                out@.len() == i,
                forall|k: int| 0 <= k < i ==> (#[trigger] out@[k])@ == slice@[k]@,
            decreases slice@.len() - i,
        {
            out.push(slice[i].0);
            i = i + 1;
        }
        out
    }

    /// XOR of two MACs.
    pub fn xor(&self, rhs: &Mac) -> (r: Mac)
        ensures
            r@ == self@ ^ rhs@,
    {
        Mac(self.0.xor(&rhs.0))
    }
}

impl From<Mac> for Block {
    fn from(mac: Mac) -> (r: Block) {
        mac.0
    }
}

impl vstd::std_specs::convert::FromSpecImpl<Mac> for Block {
    open spec fn obeys_from_spec() -> bool {
        true
    }

    open spec fn from_spec(mac: Mac) -> Block {
        mac.0
    }
}

impl From<Block> for Mac {
    fn from(block: Block) -> (r: Mac) {
        Mac(block)
    }
}

impl vstd::std_specs::convert::FromSpecImpl<Block> for Mac {
    open spec fn obeys_from_spec() -> bool {
        true
    }

    open spec fn from_spec(block: Block) -> Mac {
        Mac(block)
    }
}

impl core::ops::Add for Mac {
    type Output = Mac;

    fn add(self, rhs: Mac) -> (r: Mac) {
        Mac(self.0.xor(&rhs.0))
    }
}

impl vstd::std_specs::ops::AddSpecImpl for Mac {
    open spec fn obeys_add_spec() -> bool {
        true
    }

    open spec fn add_req(self, rhs: Mac) -> bool {
        true
    }

    open spec fn add_spec(self, rhs: Mac) -> Mac {
        Mac(Block { v: self.0.v ^ rhs.0.v })
    }
}

} // verus!
