//! XOR-sums of sequences of 128-bit values, with the algebra the GGM-tree
//! proofs need.

use vstd::prelude::*;
use crate::block::{Block, group_xor, lemma_xor_regroup, lemma_xor_laws};

verus! {

broadcast use group_xor;

/// XOR of all the values of `s` (zero for the empty sequence).
pub open spec fn xor_all(s: Seq<u128>) -> u128
    decreases s.len(),
{
    if s.len() == 0 {
        0
    } else {
        s[0] ^ xor_all(s.drop_first())
    }
}

/// The values of a sequence of blocks.
pub open spec fn block_vals(s: Seq<Block>) -> Seq<u128> {
    Seq::new(s.len(), |i: int| s[i]@)
}

/// Appending a value XORs it into the sum.
pub proof fn lemma_xor_all_push(s: Seq<u128>, a: u128)
    ensures
        xor_all(s.push(a)) == xor_all(s) ^ a,
    decreases s.len(),
{
    if s.len() == 0 {
        assert(s.push(a).drop_first() =~= Seq::<u128>::empty());
        assert(xor_all(s.push(a).drop_first()) == 0);
        assert(xor_all(s.push(a)) == a ^ 0u128);
        assert(xor_all(s) == 0);
        assert(0u128 ^ a == a);
    } else {
        assert(s.push(a).drop_first() =~= s.drop_first().push(a));
        lemma_xor_all_push(s.drop_first(), a);
        lemma_xor_laws(s[0], xor_all(s.drop_first()), a);
    }
}

/// The sum over `s[lo..hi]` extended on the left by `s[lo - 1]`.
pub proof fn lemma_xor_all_prepend(s: Seq<u128>, lo: int, hi: int)
    requires
        0 < lo <= hi <= s.len(),
    ensures
        xor_all(s.subrange(lo - 1, hi)) == s[lo - 1] ^ xor_all(s.subrange(lo, hi)),
{
    assert(s.subrange(lo - 1, hi).drop_first() =~= s.subrange(lo, hi));
}

/// The sum over `s[0..i + 1]` is the sum over `s[0..i]` XOR `s[i]`.
pub proof fn lemma_xor_all_prefix_step(s: Seq<u128>, i: int)
    requires
        0 <= i < s.len(),
    ensures
        xor_all(s.subrange(0, i + 1)) == xor_all(s.subrange(0, i)) ^ s[i],
{
    assert(s.subrange(0, i + 1) =~= s.subrange(0, i).push(s[i]));
    lemma_xor_all_push(s.subrange(0, i), s[i]);
}

/// Replacing one value changes the sum by the XOR of the old and the new value.
pub proof fn lemma_xor_all_update(s: Seq<u128>, p: int, v: u128)
    requires
        0 <= p < s.len(),
    ensures
        xor_all(s.update(p, v)) == xor_all(s) ^ s[p] ^ v,
    decreases s.len(),
{
    if p == 0 {
        assert(s.update(p, v).drop_first() =~= s.drop_first());
        lemma_xor_regroup(s[0], xor_all(s.drop_first()), 0, v);
    } else {
        assert(s.update(p, v).drop_first() =~= s.drop_first().update(p - 1, v));
        lemma_xor_all_update(s.drop_first(), p - 1, v);
        lemma_xor_regroup(s[0], xor_all(s.drop_first()), s[p], v);
    }
}

/// Two sequences that agree everywhere have the same sum.
pub proof fn lemma_xor_all_ext(s: Seq<u128>, t: Seq<u128>)
    requires
        s.len() == t.len(),
        forall|i: int| 0 <= i < s.len() ==> s[i] == t[i],
    ensures
        xor_all(s) == xor_all(t),
{
    assert(s =~= t);
}

/// The sum of the pointwise XOR of two sequences is the XOR of their sums.
pub proof fn lemma_xor_all_pointwise(s: Seq<u128>, t: Seq<u128>, u: Seq<u128>)
    requires
        s.len() == t.len(),
        u.len() == s.len(),
        forall|i: int| 0 <= i < s.len() ==> #[trigger] u[i] == s[i] ^ t[i],
    ensures
        xor_all(u) == xor_all(s) ^ xor_all(t),
    decreases s.len(),
{
    if s.len() > 0 {
        lemma_xor_all_pointwise(s.drop_first(), t.drop_first(), u.drop_first());
        assert(u[0] == s[0] ^ t[0]);
        lemma_xor_regroup(s[0], t[0], xor_all(s.drop_first()), xor_all(t.drop_first()));
    }
}

/// A sequence of zeros sums to zero.
pub proof fn lemma_xor_all_zeros(s: Seq<u128>)
    requires
        forall|i: int| 0 <= i < s.len() ==> s[i] == 0,
    ensures
        xor_all(s) == 0,
    decreases s.len(),
{
    if s.len() > 0 {
        lemma_xor_all_zeros(s.drop_first());
    }
}

/// The sum of a sequence that is zero except at `p` is `s[p]`.
pub proof fn lemma_xor_all_single(s: Seq<u128>, p: int)
    requires
        0 <= p < s.len(),
        forall|i: int| 0 <= i < s.len() && i != p ==> s[i] == 0,
    ensures
        xor_all(s) == s[p],
{
    lemma_xor_all_zeros(s.update(p, 0));
    lemma_xor_all_update(s.update(p, 0), p, s[p]);
    assert(s.update(p, 0).update(p, s[p]) =~= s);
    assert((0u128 ^ 0u128) ^ s[p] == s[p]) by {
        lemma_xor_regroup(0, 0, 0, s[p]);
    }
}

} // verus!
