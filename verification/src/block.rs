//! 128-bit blocks: the labels, keys, MACs and global offsets of the garbling
//! schemes are all blocks, combined with XOR.

use vstd::prelude::*;
use vstd::arithmetic::power::*;
use crate::random::{chacha_next_bytes, thread_next_bytes};
use rand_chacha::ChaCha12Rng;

verus! {

/// Least significant bit of a 128-bit value (the "pointer bit").
pub open spec fn lsb_of(v: u128) -> bool {
    v & 1u128 == 1u128
}

/// `v` with its least significant bit forced to `b`.
pub open spec fn with_lsb(v: u128, b: bool) -> u128 {
    if b {
        v | 1u128
    } else {
        v & 0xffff_ffff_ffff_ffff_ffff_ffff_ffff_fffeu128
    }
}

/// `b · d`: `d` when `b` holds, zero otherwise.
pub open spec fn mul_bool_spec(d: u128, b: bool) -> u128 {
    if b { d } else { 0u128 }
}

/// Little-endian value of a byte sequence.
pub open spec fn le_value(s: Seq<u8>) -> nat
    decreases s.len(),
{
    if s.len() == 0 {
        0
    } else {
        s[0] as nat + 256 * le_value(s.drop_first())
    }
}

/// Byte `i` of the little-endian encoding of `v`.
pub open spec fn le_byte(v: u128, i: int) -> u8 {
    (((v as nat) / (pow(256, i as nat) as nat)) % 256) as u8
}

pub broadcast proof fn lemma_lsb_xor(a: u128, b: u128)
    ensures
        #[trigger] lsb_of(a ^ b) == (lsb_of(a) != lsb_of(b)),
{
    assert((a ^ b) & 1u128 == 1u128 <==> ((a & 1u128 == 1u128) != (b & 1u128 == 1u128)))
        by (bit_vector);
}

pub broadcast proof fn lemma_with_lsb(v: u128, b: bool)
    ensures
        #[trigger] lsb_of(with_lsb(v, b)) == b,
        with_lsb(with_lsb(v, b), b) == with_lsb(v, b),
{
    assert((v | 1u128) & 1u128 == 1u128) by (bit_vector);
    assert(!((v & 0xffff_ffff_ffff_ffff_ffff_ffff_ffff_fffeu128) & 1u128 == 1u128)) by (bit_vector);
    assert((v | 1u128) | 1u128 == v | 1u128) by (bit_vector);
    assert((v & 0xffff_ffff_ffff_ffff_ffff_ffff_ffff_fffeu128)
        & 0xffff_ffff_ffff_ffff_ffff_ffff_ffff_fffeu128
        == v & 0xffff_ffff_ffff_ffff_ffff_ffff_ffff_fffeu128) by (bit_vector);
}

/// XOR is associative and commutative.
pub proof fn lemma_xor_laws(a: u128, b: u128, c: u128)
    ensures
        ((a ^ b) ^ c) == a ^ (b ^ c),
        (a ^ b) == b ^ a,
{
    assert((a ^ b) ^ c == a ^ (b ^ c)) by (bit_vector);
    assert(a ^ b == b ^ a) by (bit_vector);
}

/// Zero is the identity of XOR.
pub broadcast proof fn lemma_xor_zero(a: u128)
    ensures
        #[trigger] (a ^ 0u128) == a,
        #[trigger] (0u128 ^ a) == a,
{
    assert(a ^ 0u128 == a) by (bit_vector);
    assert(0u128 ^ a == a) by (bit_vector);
}

/// Every value is its own XOR inverse.
pub broadcast proof fn lemma_xor_self(a: u128)
    ensures
        #[trigger] (a ^ a) == 0u128,
{
    assert(a ^ a == 0u128) by (bit_vector);
}

/// Regrouping of a four-term XOR.
pub proof fn lemma_xor_regroup(a: u128, b: u128, c: u128, d: u128)
    ensures
        a ^ ((b ^ c) ^ d) == ((a ^ b) ^ c) ^ d,
        (a ^ b) ^ (c ^ d) == (a ^ c) ^ (b ^ d),
        ((a ^ b) ^ a) ^ d == d ^ b,
{
    assert(a ^ ((b ^ c) ^ d) == ((a ^ b) ^ c) ^ d) by (bit_vector);
    assert((a ^ b) ^ (c ^ d) == (a ^ c) ^ (b ^ d)) by (bit_vector);
    assert(((a ^ b) ^ a) ^ d == d ^ b) by (bit_vector);
}

/// The XOR identities of one step of the GGM tree reconstruction.
pub proof fn lemma_xor_ggm_step(x: u128, a: u128, r: u128, m: u128, p: u128, d: u128)
    ensures
        ((x ^ a) ^ ((x ^ r) ^ 0u128)) ^ (a ^ m) == r ^ m,
        (r ^ d) ^ (p ^ d) == r ^ p,
        (r ^ 0u128) ^ (p ^ d) == (r ^ p) ^ d,
        (p ^ d) ^ d == p,
{
    assert(((x ^ a) ^ ((x ^ r) ^ 0u128)) ^ (a ^ m) == r ^ m) by (bit_vector);
    assert((r ^ d) ^ (p ^ d) == r ^ p) by (bit_vector);
    assert((r ^ 0u128) ^ (p ^ d) == (r ^ p) ^ d) by (bit_vector);
    assert((p ^ d) ^ d == p) by (bit_vector);
}

/// The XOR identities of the leaf-expansion correctness argument.
pub proof fn lemma_xor_leaf(g: u128, x: u128, l: u128, yg: u128, ye: u128)
    ensures
        g ^ (((g ^ l) ^ 0u128) ^ ((((x ^ l) ^ 0u128) ^ (x ^ yg)) ^ ye)) == yg ^ ye,
        g ^ (((g ^ 0u128) ^ 0u128) ^ 0u128) == 0u128,
{
    assert(g ^ (((g ^ l) ^ 0u128) ^ ((((x ^ l) ^ 0u128) ^ (x ^ yg)) ^ ye)) == yg ^ ye) by (bit_vector);
    assert(g ^ (((g ^ 0u128) ^ 0u128) ^ 0u128) == 0u128) by (bit_vector);
}

/// `p·d ⊕ q·d == (p ⊕ q)·d`.
pub proof fn lemma_mul_bool_xor(d: u128, p: bool, q: bool)
    ensures
        mul_bool_spec(d, p) ^ mul_bool_spec(d, q) == mul_bool_spec(d, p != q),
{
    lemma_xor_zero(d);
    lemma_xor_zero(0);
    lemma_xor_self(d);
}

/// The pointer bit of `b·d` is `b` and the pointer bit of `d`.
pub proof fn lemma_lsb_mul_bool(d: u128, b: bool)
    ensures
        lsb_of(mul_bool_spec(d, b)) == (b && lsb_of(d)),
{
    assert(!lsb_of(0u128)) by (bit_vector);
}

/// Regrouping of the two three-term shares of a gate output.
pub proof fn lemma_xor_regroup6(a: u128, b: u128, c: u128, d: u128, e: u128, f: u128)
    ensures
        (a ^ (b ^ c)) ^ (d ^ (e ^ f)) == (a ^ d) ^ ((b ^ e) ^ (c ^ f)),
{
    assert((a ^ (b ^ c)) ^ (d ^ (e ^ f)) == (a ^ d) ^ ((b ^ e) ^ (c ^ f))) by (bit_vector);
}

/// Two masked labels differ by the XOR of what their labels and their
/// masks differ by.
pub proof fn lemma_xor_masked(el: u128, x: u128, gd: u128, ed: u128, a: u128, s: u128)
    requires
        gd ^ ed == a,
    ensures
        (el ^ ed) ^ s == (((el ^ x) ^ gd) ^ s) ^ (x ^ a),
{
    assert((el ^ ed) ^ s == (((el ^ x) ^ gd) ^ s) ^ (x ^ a)) by (bit_vector)
        requires
            gd ^ ed == a,
    ;
}

pub broadcast group group_xor {
    lemma_xor_zero,
    lemma_xor_self,
    lemma_lsb_xor,
    lemma_with_lsb,
}

/// A 128-bit block.
#[derive(Clone, Copy, Debug, PartialEq, Eq, Structural, Hash)]
pub struct Block {
    pub v: u128,
}

impl View for Block {
    type V = u128;

    open spec fn view(&self) -> u128 {
        self.v
    }
}

impl Default for Block {
    fn default() -> (r: Self)
        ensures
            r@ == 0,
    {
        Block { v: 0 }
    }
}

impl Block {
    /// The all-zero block.
    pub fn zero() -> (r: Block)
        ensures
            r@ == 0,
    {
        Block { v: 0 }
    }

    /// The block whose little-endian bytes are `bytes`.
    pub fn new(bytes: [u8; 16]) -> (r: Block)
        ensures
            r@ as nat == le_value(bytes@),
    {
        let mut v: u128 = 0;
        let mut i: usize = 16;
        proof {
            lemma_pow0(256);
            assert(bytes@.subrange(16, 16) =~= Seq::<u8>::empty());
        }
        while i > 0
            invariant
                i <= 16,
                v as nat == le_value(bytes@.subrange(i as int, 16)),
                (v as nat) < pow(256, (16 - i) as nat),
            decreases i,
        {
            i = i - 1;
            proof {
                let s = bytes@.subrange(i as int, 16);
                assert(s.drop_first() =~= bytes@.subrange(i + 1, 16));
                lemma_pow_adds(256, 1, (16 - i - 1) as nat);
                lemma_pow1(256);
                lemma_pow256_16();
                lemma_pow_increases(256, (16 - i) as nat, 16);
                assert(v * 256 + bytes@[i as int] < pow(256, (16 - i) as nat))
                    by (nonlinear_arith)
                    requires
                        v < pow(256, (16 - i - 1) as nat),
                        bytes@[i as int] < 256,
                        pow(256, (16 - i) as nat)
                            == 256 * pow(256, (16 - i - 1) as nat),
                ;
            }
            v = v * 256 + bytes[i] as u128;
        }
        proof {
            assert(bytes@.subrange(0, 16) =~= bytes@);
        }
        Block { v }
    }

    /// The little-endian bytes of the block.
    pub fn to_bytes(&self) -> (r: [u8; 16])
        ensures
            forall|i: int| 0 <= i < 16 ==> #[trigger] r@[i] == le_byte(self@, i),
    {
        let mut out: [u8; 16] = [0u8; 16];
        let mut rest: u128 = self.v;
        let mut i: usize = 0;
        proof {
            lemma_pow0(256);
        }
        while i < 16
            invariant
                i <= 16,
                (rest as nat) == (self@ as nat) / (pow(256, i as nat) as nat),
                forall|k: int| 0 <= k < i ==> #[trigger] out@[k] == le_byte(self@, k),
            decreases 16 - i,
        {
            proof {
                lemma_pow_positive(256, i as nat);
                lemma_pow_adds(256, i as nat, 1);
                lemma_pow1(256);
                vstd::arithmetic::div_mod::lemma_div_denominator(
                    self@ as int,
                    pow(256, i as nat),
                    256,
                );
            }
            out[i] = (rest % 256) as u8;
            rest = rest / 256;
            i = i + 1;
        }
        out
    }

    /// Alias of [`Block::to_bytes`].
    pub fn as_bytes(&self) -> (r: [u8; 16])
        ensures
            forall|i: int| 0 <= i < 16 ==> #[trigger] r@[i] == le_byte(self@, i),
    {
        self.to_bytes()
    }

    /// Returns the pointer bit (least significant bit).
    pub fn lsb(&self) -> (r: bool)
        ensures
            r == lsb_of(self@),
    {
        self.v & 1 == 1
    }

    /// Sets the pointer bit.
    pub fn set_lsb(&mut self, bit: bool)
        ensures
            final(self)@ == with_lsb(old(self)@, bit),
    {
        if bit {
            self.v = self.v | 1;
        } else {
            self.v = self.v & 0xffff_ffff_ffff_ffff_ffff_ffff_ffff_fffe;
        }
    }

    /// XOR of two blocks.
    pub fn xor(&self, other: &Block) -> (r: Block)
        ensures
            r@ == self@ ^ other@,
    {
        Block { v: self.v ^ other.v }
    }

    /// `self` when `b` holds, the zero block otherwise.
    pub fn mul_bool(&self, b: bool) -> (r: Block)
        ensures
            r@ == mul_bool_spec(self@, b),
    {
        if b {
            *self
        } else {
            Block { v: 0 }
        }
    }

    /// A block drawn from a seeded generator.
    pub fn random(rng: &mut ChaCha12Rng) -> (r: Block) {
        Block::new(chacha_next_bytes(rng))
    }

    /// A block drawn from the thread-local generator.
    pub fn random_from_thread() -> (r: Block) {
        Block::new(thread_next_bytes())
    }

    /// The block holding `v`.
    pub fn from_u128(v: u128) -> (r: Block)
        ensures
            r@ == v,
    {
        Block { v }
    }

    /// The value held by the block.
    pub fn to_u128(&self) -> (r: u128)
        ensures
            r == self@,
    {
        self.v
    }
}

pub proof fn lemma_pow256_16()
    ensures
        pow(256, 16) == 0x1_0000_0000_0000_0000_0000_0000_0000_0000int,
{
    lemma_pow1(256);
    lemma_pow_adds(256, 1, 1);
    assert(pow(256, 2) == 0x1_0000);
    lemma_pow_adds(256, 2, 2);
    assert(pow(256, 4) == 0x1_0000_0000);
    lemma_pow_adds(256, 4, 4);
    assert(pow(256, 8) == 0x1_0000_0000_0000_0000);
    lemma_pow_adds(256, 8, 8);
}

/// The little-endian value of bytes `lo .. hi` of `v` is `v / 256^lo` reduced
/// to those bytes.
proof fn lemma_le_value_bytes(v: u128, lo: nat, hi: nat)
    requires
        lo <= hi <= 16,
    ensures
        le_value(Seq::new((hi - lo) as nat, |i: int| le_byte(v, lo + i))) == ((v as nat) / (pow(256, lo) as nat)) % (
            pow(256, (hi - lo) as nat) as nat),
    decreases hi - lo,
{
    let s = Seq::new((hi - lo) as nat, |i: int| le_byte(v, lo + i));
    lemma_pow_positive(256, lo);
    lemma_pow_positive(256, (hi - lo) as nat);
    if lo == hi {
        lemma_pow0(256);
        assert(s.len() == 0);
    } else {
        let q = (v as nat) / (pow(256, lo) as nat);
        lemma_le_value_bytes(v, lo + 1, hi);
        assert(s.drop_first() =~= Seq::new((hi - (lo + 1)) as nat, |i: int| le_byte(v, (lo + 1) + i)));
        lemma_pow_adds(256, lo, 1);
        lemma_pow1(256);
        vstd::arithmetic::div_mod::lemma_div_denominator(v as int, pow(256, lo), 256);
        lemma_pow_adds(256, 1, (hi - lo - 1) as nat);
        lemma_pow_positive(256, (hi - lo - 1) as nat);
        let r = pow(256, (hi - lo - 1) as nat);
        vstd::arithmetic::div_mod::lemma_breakdown(q as int, 256, r);
        assert(s[0] as nat == q % 256);
    }
}

/// Reading back the little-endian bytes of a block gives the block: the bytes
/// of [`Block::to_bytes`] are those [`Block::new`] reads.
pub proof fn lemma_bytes_roundtrip(v: u128)
    ensures
        le_value(Seq::new(16, |i: int| le_byte(v, i))) == v,
{
    lemma_le_value_bytes(v, 0, 16);
    lemma_pow0(256);
    lemma_pow256_16();
    assert(Seq::new(16, |i: int| le_byte(v, 0 + i)) =~= Seq::new(16, |i: int| le_byte(v, i)));
    assert((v as nat) / 1 == v as nat);
    vstd::arithmetic::div_mod::lemma_small_mod(v as nat, pow(256, 16) as nat);
}

impl From<u128> for Block {
    fn from(v: u128) -> (r: Block) {
        Block { v }
    }
}

impl vstd::std_specs::convert::FromSpecImpl<u128> for Block {
    open spec fn obeys_from_spec() -> bool {
        true
    }

    open spec fn from_spec(v: u128) -> Block {
        Block { v }
    }
}

impl From<[u8; 16]> for Block {
    fn from(bytes: [u8; 16]) -> (r: Block) {
        Block::new(bytes)
    }
}

impl vstd::std_specs::convert::FromSpecImpl<[u8; 16]> for Block {
    open spec fn obeys_from_spec() -> bool {
        true
    }

    open spec fn from_spec(bytes: [u8; 16]) -> Block {
        Block { v: le_value(bytes@) as u128 }
    }
}

impl core::ops::BitXor for Block {
    type Output = Block;

    fn bitxor(self, rhs: Block) -> (r: Block) {
        Block { v: self.v ^ rhs.v }
    }
}

impl vstd::std_specs::ops::BitXorSpecImpl for Block {
    open spec fn obeys_bitxor_spec() -> bool {
        true
    }

    open spec fn bitxor_req(self, rhs: Block) -> bool {
        true
    }

    open spec fn bitxor_spec(self, rhs: Block) -> Block {
        Block { v: self.v ^ rhs.v }
    }
}

impl core::ops::BitXorAssign for Block {
    fn bitxor_assign(&mut self, rhs: Block)
        ensures
            final(self)@ == old(self)@ ^ rhs@,
    {
        self.v = self.v ^ rhs.v;
    }
}

} // verus!
