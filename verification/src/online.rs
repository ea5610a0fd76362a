//! Online-phase consistency checks over both parties' share blocks.

use vstd::prelude::*;
use crate::block::Block;
use crate::aes::{FixedKeyAes, FIXED_KEY, cr_spec};
use crate::xor_sum::block_vals;

verus! {

/// Block-form CheckZero: passes exactly when the two share vectors have the
/// same length and agree at every index (each per-index XOR is zero).
pub fn block_check_zero(gb_blocks: &[Block], ev_blocks: &[Block]) -> (r: bool)
    ensures
        r == (gb_blocks@ == ev_blocks@),
{
    if gb_blocks.len() != ev_blocks.len() {
        return false;
    }
    let mut i: usize = 0;
    while i < gb_blocks.len()
        invariant
            i <= gb_blocks@.len(),
            gb_blocks@.len() == ev_blocks@.len(),
            forall|k: int| 0 <= k < i ==> gb_blocks@[k] == ev_blocks@[k],
        decreases gb_blocks@.len() - i,
    {
        if gb_blocks[i].v != ev_blocks[i].v {
            return false;
        }
        i = i + 1;
    }
    proof {
        assert(gb_blocks@ =~= ev_blocks@);
    }
    true
}

/// The digest chain `h_0 = 0`, `h_{i+1} = cr(h_i ⊕ b_i)` over the values `s`.
pub open spec fn hash_chain(key: u128, s: Seq<u128>) -> u128
    decreases s.len(),
{
    if s.len() == 0 {
        0
    } else {
        cr_spec(key, hash_chain(key, s.drop_last()) ^ s.last())
    }
}

/// The digest of a CheckZero share vector under the fixed-key correlation-robust
/// hash; the empty vector digests to zero.
pub fn block_hash_check_zero(blocks: &[Block]) -> (r: Block)
    ensures
        r@ == hash_chain(FIXED_KEY, block_vals(blocks@)),
        blocks@.len() == 0 ==> r@ == 0,
        blocks@.len() == 1 ==> r@ == cr_spec(FIXED_KEY, blocks@[0]@),
        blocks@.len() > 0 ==> r@ == cr_spec(FIXED_KEY, hash_chain(FIXED_KEY, block_vals(blocks@.drop_last()))
            ^ blocks@.last()@),
{
    let cipher = FixedKeyAes::new();
    let mut h = Block::zero();
    let mut i: usize = 0;
    while i < blocks.len()
        invariant
            i <= blocks@.len(),
            cipher.key_spec() == FIXED_KEY,
            h@ == hash_chain(FIXED_KEY, block_vals(blocks@).subrange(0, i as int)),
        decreases blocks@.len() - i,
    {
        proof {
            assert(block_vals(blocks@).subrange(0, i + 1).drop_last() =~= block_vals(blocks@).subrange(0, i as int));
        }
        h = cipher.cr(h.xor(&blocks[i]));
        i = i + 1;
    }
    proof {
        assert(block_vals(blocks@).subrange(0, blocks@.len() as int) =~= block_vals(blocks@));
        if blocks@.len() > 0 {
            lemma_check_digest_push(blocks@.drop_last(), blocks@.last());
            assert(blocks@.drop_last().push(blocks@.last()) =~= blocks@);
        }
        if blocks@.len() == 1 {
            lemma_check_digest_single(blocks@[0]);
            assert(blocks@ =~= seq![blocks@[0]]);
        }
    }
    h
}

/// The digest of the empty vector is zero.
pub proof fn lemma_check_digest_empty()
    ensures
        hash_chain(FIXED_KEY, block_vals(Seq::<Block>::empty())) == 0,
{
    assert(block_vals(Seq::<Block>::empty()).len() == 0);
}

/// Appending a block `b` to a vector whose digest is `h` gives the digest
/// `cr(h ⊕ b)`: every block, the first included, is hashed into the chain.
pub proof fn lemma_check_digest_push(blocks: Seq<Block>, b: Block)
    ensures
        hash_chain(FIXED_KEY, block_vals(blocks.push(b))) == cr_spec(FIXED_KEY, hash_chain(FIXED_KEY,
            block_vals(blocks)) ^ b@),
{
    let s = block_vals(blocks.push(b));
    assert(s.len() > 0);
    assert(s.drop_last() =~= block_vals(blocks));
    assert(s.last() == b@);
}

/// A one-block vector digests to `cr(b)` of its block.
pub proof fn lemma_check_digest_single(b: Block)
    ensures
        hash_chain(FIXED_KEY, block_vals(seq![b])) == cr_spec(FIXED_KEY, b@),
{
    lemma_check_digest_empty();
    lemma_check_digest_push(Seq::<Block>::empty(), b);
    assert(Seq::<Block>::empty().push(b) =~= seq![b]);
    crate::block::lemma_xor_zero(b@);
}

} // verus!
