//! The text form of a matrix: one line per row, each element as the 32 hex
//! digits of its 16 little-endian bytes (high nibble first) and a space.

use vstd::prelude::*;
use vstd::string::StringExecFns;
use crate::matrix::{TypedMatrix, MatrixElement};
use crate::block::Block;
use crate::keys::Key;

verus! {

/// The lowercase hex digit of `d < 16`.
pub open spec fn hex_char(d: u8) -> char {
    if d == 0 { '0' }
    else if d == 1 { '1' }
    else if d == 2 { '2' }
    else if d == 3 { '3' }
    else if d == 4 { '4' }
    else if d == 5 { '5' }
    else if d == 6 { '6' }
    else if d == 7 { '7' }
    else if d == 8 { '8' }
    else if d == 9 { '9' }
    else if d == 10 { 'a' }
    else if d == 11 { 'b' }
    else if d == 12 { 'c' }
    else if d == 13 { 'd' }
    else if d == 14 { 'e' }
    else { 'f' }
}

/// The shift that brings digit `k` (of 32) of a value's text to the bottom:
/// byte `k / 2`, its high nibble for even `k`.
pub open spec fn digit_shift(k: int) -> int {
    8 * (k / 2) + if k % 2 == 0 { 4int } else { 0int }
}

/// Digit `k` of the text of `v`.
pub open spec fn digit_of(v: u128, k: int) -> u8 {
    ((v >> (digit_shift(k) as u128)) & 0xf) as u8
}

/// The 32 hex digits of `v`.
pub open spec fn value_text(v: u128) -> Seq<char> {
    Seq::new(32, |k: int| hex_char(digit_of(v, k)))
}

/// Row `i` of a matrix's text, up to column `c`.
pub open spec fn row_text<T: MatrixElement>(mx: TypedMatrix<T>, i: int, c: int) -> Seq<char>
    decreases c,
{
    if c <= 0 {
        Seq::empty()
    } else {
        row_text(mx, i, c - 1) + value_text(mx.val(i, c - 1)) + seq![' ']
    }
}

/// A matrix's text up to row `r`.
pub open spec fn matrix_text<T: MatrixElement>(mx: TypedMatrix<T>, r: int) -> Seq<char>
    decreases r,
{
    if r <= 0 {
        Seq::empty()
    } else {
        matrix_text(mx, r - 1) + row_text(mx, r - 1, mx.ncols() as int) + seq!['\n']
    }
}

/// The one-character string of hex digit `d`.
fn hex_str(d: u8) -> (r: &'static str)
    requires
        d < 16,
    ensures
        r@ == seq![hex_char(d)],
{
    proof {
        reveal_strlit("0");
        reveal_strlit("1");
        reveal_strlit("2");
        reveal_strlit("3");
        reveal_strlit("4");
        reveal_strlit("5");
        reveal_strlit("6");
        reveal_strlit("7");
        reveal_strlit("8");
        reveal_strlit("9");
        reveal_strlit("a");
        reveal_strlit("b");
        reveal_strlit("c");
        reveal_strlit("d");
        reveal_strlit("e");
        reveal_strlit("f");
    }
    if d == 0 { "0" }
    else if d == 1 { "1" }
    else if d == 2 { "2" }
    else if d == 3 { "3" }
    else if d == 4 { "4" }
    else if d == 5 { "5" }
    else if d == 6 { "6" }
    else if d == 7 { "7" }
    else if d == 8 { "8" }
    else if d == 9 { "9" }
    else if d == 10 { "a" }
    else if d == 11 { "b" }
    else if d == 12 { "c" }
    else if d == 13 { "d" }
    else if d == 14 { "e" }
    else { "f" }
}

/// Appends the text of `v` to `s`.
fn append_value(s: &mut String, v: u128)
    ensures
        final(s)@ == old(s)@ + value_text(v),
{
    let mut k: usize = 0;
    while k < 32
        invariant
            k <= 32,
            s@ == old(s)@ + value_text(v).subrange(0, k as int),
        decreases 32 - k,
    {
        let shift: u128 = (8 * (k / 2) + if k % 2 == 0 { 4usize } else { 0usize }) as u128;
        let d: u8 = ((v >> shift) & 0xf) as u8;
        proof {
            assert(shift == digit_shift(k as int));
            assert(d == digit_of(v, k as int));
            assert(((v >> shift) & 0xf) < 16) by (bit_vector);
        }
        s.append(hex_str(d));
        proof {
            assert(value_text(v).subrange(0, k + 1) =~= value_text(v).subrange(0, k as int) + seq![hex_char(d)]);
        }
        k = k + 1;
    }
    proof {
        assert(value_text(v).subrange(0, 32) =~= value_text(v));
    }
}

impl<T: MatrixElement> TypedMatrix<T> {
    /// The matrix as text: row by row, each element's 32 hex digits followed by
    /// a space, each row ended by a newline.
    pub fn to_display_string(&self) -> (r: String)
        requires
            self.wf(),
        ensures
            r@ == matrix_text(*self, self.nrows() as int),
    {
        let mut s = String::new();
        let rows = self.rows();
        let cols = self.cols();
        let mut i: usize = 0;
        while i < rows
            invariant
                i <= rows,
                rows == self.nrows(),
                cols == self.ncols(),
                self.wf(),
                s@ == matrix_text(*self, i as int),
            decreases rows - i,
        {
            let ghost start = s@;
            let mut j: usize = 0;
            while j < cols
                invariant
                    j <= cols,
                    i < rows,
                    rows == self.nrows(),
                    cols == self.ncols(),
                    self.wf(),
                    s@ == start + row_text(*self, i as int, j as int),
                decreases cols - j,
            {
                let v = self.get(i, j).to_block().to_u128();
                append_value(&mut s, v);
                proof {
                    reveal_strlit(" ");
                }
                s.append(" ");
                proof {
                    assert(s@ =~= start + row_text(*self, i as int, (j + 1) as int));
                }
                j = j + 1;
            }
            proof {
                reveal_strlit("\n");
            }
            s.append("\n");
            proof {
                assert(s@ =~= matrix_text(*self, (i + 1) as int));
            }
            i = i + 1;
        }
        s
    }
}

impl Block {
    /// The block as text: its 32 hex digits.
    pub fn to_display_string(&self) -> (r: String)
        ensures
            r@ == value_text(self@),
    {
        let mut s = String::new();
        append_value(&mut s, self.to_u128());
        proof {
            assert(s@ =~= value_text(self@));
        }
        s
    }
}

impl Key {
    /// The key as text: the 32 hex digits of its block.
    pub fn to_display_string(&self) -> (r: String)
        ensures
            r@ == value_text(self@),
    {
        self.as_block().to_display_string()
    }
}

} // verus!
