//! Column-major matrices of blocks or keys, and views into them.

use vstd::prelude::*;
use crate::block::{Block, lsb_of, with_lsb, mul_bool_spec, group_xor};
use crate::keys::Key;
use crate::delta::Delta;

verus! {

broadcast use group_xor;

/// Elements of a [`TypedMatrix`]: 128-bit values combined with XOR.
pub trait MatrixElement: Copy + Sized {
    /// The 128-bit value of the element.
    spec fn value(self) -> u128;

    /// The element holding `v`.
    spec fn of_value(v: u128) -> Self;

    /// `of_value` and `value` are inverse.
    proof fn lemma_value_of_value(v: u128)
        ensures
            Self::of_value(v).value() == v;

    /// The zero element.
    fn zero_elem() -> (r: Self)
        ensures
            r == Self::of_value(0),
            r.value() == 0;

    /// The element holding the value of `b`.
    fn from_block(b: Block) -> (r: Self)
        ensures
            r == Self::of_value(b@),
            r.value() == b@;

    /// The block holding the value of the element.
    fn to_block(&self) -> (r: Block)
        ensures
            r@ == self.value();

    /// XOR of two elements.
    fn xor_elem(&self, rhs: &Self) -> (r: Self)
        ensures
            r == Self::of_value(self.value() ^ rhs.value()),
            r.value() == self.value() ^ rhs.value();
}

impl MatrixElement for Block {
    open spec fn value(self) -> u128 {
        self@
    }

    open spec fn of_value(v: u128) -> Block {
        Block { v }
    }

    proof fn lemma_value_of_value(v: u128) {
    }

    fn zero_elem() -> (r: Block) {
        Block::zero()
    }

    fn from_block(b: Block) -> (r: Block) {
        b
    }

    fn to_block(&self) -> (r: Block) {
        *self
    }

    fn xor_elem(&self, rhs: &Block) -> (r: Block) {
        self.xor(rhs)
    }
}

impl MatrixElement for Key {
    open spec fn value(self) -> u128 {
        self@
    }

    open spec fn of_value(v: u128) -> Key {
        Key(Block { v })
    }

    proof fn lemma_value_of_value(v: u128) {
    }

    fn zero_elem() -> (r: Key) {
        Key(Block::zero())
    }

    fn from_block(b: Block) -> (r: Key) {
        Key(b)
    }

    fn to_block(&self) -> (r: Block) {
        self.0
    }

    fn xor_elem(&self, rhs: &Key) -> (r: Key) {
        self.xor(rhs)
    }
}

/// `j · rows + i` lies below `rows · cols` for an in-bounds `(i, j)`.
pub proof fn lemma_flat_bound(i: int, j: int, rows: int, cols: int)
    requires
        0 <= i < rows,
        0 <= j < cols,
    ensures
        0 <= j * rows + i < rows * cols,
{
    assert(j * rows + i < rows * cols) by (nonlinear_arith)
        requires
            0 <= i < rows,
            0 <= j < cols,
    ;
    assert(0 <= j * rows) by (nonlinear_arith)
        requires
            0 <= j,
            0 <= rows,
    ;
}

/// Column-major indices of distinct in-bounds positions are distinct.
pub proof fn lemma_flat_injective(i1: int, j1: int, i2: int, j2: int, rows: int)
    requires
        0 <= i1 < rows,
        0 <= i2 < rows,
        0 <= j1,
        0 <= j2,
        j1 * rows + i1 == j2 * rows + i2,
    ensures
        i1 == i2,
        j1 == j2,
{
    if j1 < j2 {
        assert(j1 * rows + i1 < j2 * rows + i2) by (nonlinear_arith)
            requires
                j1 < j2,
                0 <= i1 < rows,
                0 <= i2,
        ;
    } else if j2 < j1 {
        assert(j2 * rows + i2 < j1 * rows + i1) by (nonlinear_arith)
            requires
                j2 < j1,
                0 <= i2 < rows,
                0 <= i1,
        ;
    }
}

/// A dense column-major matrix.
#[derive(Debug, Clone)]
pub struct TypedMatrix<T> {
    rows: usize,
    cols: usize,
    elements: Vec<T>,
}

/// Matrix of keys.
pub type KeyMatrix = TypedMatrix<Key>;

/// Matrix of blocks.
pub type BlockMatrix = TypedMatrix<Block>;

impl<T> TypedMatrix<T> {
    /// Number of rows.
    pub closed spec fn nrows(&self) -> nat {
        self.rows as nat
    }

    /// Number of columns.
    pub closed spec fn ncols(&self) -> nat {
        self.cols as nat
    }

    /// The elements, column-major.
    pub closed spec fn elems(&self) -> Seq<T> {
        self.elements@
    }

    /// The element buffer holds exactly `rows · cols` elements.
    pub open spec fn wf(&self) -> bool {
        &&& self.elems().len() == self.nrows() * self.ncols()
        &&& self.nrows() * self.ncols() <= usize::MAX
        &&& self.nrows() <= usize::MAX
        &&& self.ncols() <= usize::MAX
    }

    /// A `rows × cols` matrix over the column-major `elements`.
    pub(crate) fn from_elements(rows: usize, cols: usize, elements: Vec<T>) -> (r: Self)
        requires
            elements@.len() == rows * cols,
            rows * cols <= usize::MAX,
        ensures
            r.wf(),
            r.nrows() == rows,
            r.ncols() == cols,
            r.elems() == elements@,
    {
        TypedMatrix { rows, cols, elements }
    }

    /// The element at row `i`, column `j`.
    pub open spec fn at(&self, i: int, j: int) -> T {
        self.elems()[j * self.nrows() + i]
    }
}

impl<T: MatrixElement> TypedMatrix<T> {
    /// The value at row `i`, column `j`.
    pub open spec fn val(&self, i: int, j: int) -> u128 {
        self.at(i, j).value()
    }

    /// Every entry is zero.
    pub open spec fn is_zero(&self) -> bool {
        forall|i: int, j: int| 0 <= i < self.nrows() && 0 <= j < self.ncols() ==> #[trigger] self.val(i, j) == 0
    }

    /// A `rows × cols` matrix of zero elements.
    pub fn new(rows: usize, cols: usize) -> (r: Self)
        requires
            rows * cols <= usize::MAX,
        ensures
            r.wf(),
            r.nrows() == rows,
            r.ncols() == cols,
            forall|k: int| 0 <= k < rows * cols ==> #[trigger] r.elems()[k] == T::of_value(0),
            r.is_zero(),
    {
        let r = Self::constant(rows, cols, T::zero_elem());
        proof {
            T::lemma_value_of_value(0);
            assert forall|i: int, j: int| 0 <= i < r.nrows() && 0 <= j < r.ncols() implies #[trigger] r.val(i, j) == 0 by {
                lemma_flat_bound(i, j, rows as int, cols as int);
            }
        }
        r
    }

    /// A column vector of `rows` zero elements.
    pub fn column_vector(rows: usize) -> (r: Self)
        ensures
            r.wf(),
            r.nrows() == rows,
            r.ncols() == 1,
            forall|k: int| 0 <= k < rows ==> #[trigger] r.elems()[k] == T::of_value(0),
    {
        Self::constant(rows, 1, T::zero_elem())
    }

    /// A `rows × cols` matrix holding `val` everywhere.
    pub fn constant(rows: usize, cols: usize, val: T) -> (r: Self)
        requires
            rows * cols <= usize::MAX,
        ensures
            r.wf(),
            r.nrows() == rows,
            r.ncols() == cols,
            forall|k: int| 0 <= k < rows * cols ==> #[trigger] r.elems()[k] == val,
    {
        let n = rows * cols;
        let mut elements: Vec<T> = Vec::new();
        let mut k: usize = 0;
        while k < n
            invariant
                k <= n,
                elements@.len() == k,
                forall|t: int| 0 <= t < k ==> #[trigger] elements@[t] == val,
            decreases n - k,
        {
            elements.push(val);
            k = k + 1;
        }
        TypedMatrix { rows, cols, elements }
    }

    /// An element-for-element copy.
    pub fn duplicate(&self) -> (r: Self)
        ensures
            r.nrows() == self.nrows(),
            r.ncols() == self.ncols(),
            r.elems() == self.elems(),
    {
        let mut elements: Vec<T> = Vec::with_capacity(self.elements.len());
        let mut k: usize = 0;
        while k < self.elements.len()
            invariant
                k <= self.elems().len(),
                elements@ == self.elems().subrange(0, k as int),
            decreases self.elems().len() - k,
        {
            elements.push(self.elements[k]);
            k = k + 1;
        }
        proof {
            assert(self.elems().subrange(0, self.elems().len() as int) =~= self.elems());
        }
        TypedMatrix { rows: self.rows, cols: self.cols, elements }
    }

    /// A matrix whose elements are drawn from the thread-local generator.
    pub fn random(rows: usize, cols: usize) -> (r: Self)
        requires
            rows * cols <= usize::MAX,
        ensures
            r.wf(),
            r.nrows() == rows,
            r.ncols() == cols,
    {
        let n = rows * cols;
        let mut elements: Vec<T> = Vec::new();
        let mut k: usize = 0;
        while k < n
            invariant
                k <= n,
                elements@.len() == k,
            decreases n - k,
        {
            elements.push(T::from_block(Block::random_from_thread()));
            k = k + 1;
        }
        TypedMatrix { rows, cols, elements }
    }

    /// A matrix of random elements whose pointer bits are all 0.
    pub fn random_zeros(rows: usize, cols: usize) -> (r: Self)
        requires
            rows * cols <= usize::MAX,
        ensures
            r.wf(),
            r.nrows() == rows,
            r.ncols() == cols,
            forall|k: int| 0 <= k < rows * cols ==> !lsb_of(#[trigger] r.elems()[k].value()),
    {
        let n = rows * cols;
        let mut elements: Vec<T> = Vec::new();
        let mut k: usize = 0;
        while k < n
            invariant
                k <= n,
                elements@.len() == k,
                forall|t: int| 0 <= t < k ==> !lsb_of(#[trigger] elements@[t].value()),
            decreases n - k,
        {
            let mut b = Block::random_from_thread();
            b.set_lsb(false);
            elements.push(T::from_block(b));
            k = k + 1;
        }
        TypedMatrix { rows, cols, elements }
    }

    /// Number of rows.
    pub fn rows(&self) -> (r: usize)
        ensures
            r == self.nrows(),
    {
        self.rows
    }

    /// Number of columns.
    pub fn cols(&self) -> (r: usize)
        ensures
            r == self.ncols(),
    {
        self.cols
    }

    /// The element buffer, column-major.
    pub fn elements_slice(&self) -> (r: &[T])
        ensures
            r@ == self.elems(),
    {
        self.elements.as_slice()
    }

    /// Converts a 2D index to the 1D column-major index `j · rows + i`.
    pub fn flat_index(&self, i: usize, j: usize) -> (r: usize)
        requires
            j * self.nrows() + i <= usize::MAX,
        ensures
            r == j * self.nrows() + i,
    {
        j * self.rows + i
    }

    /// The element at row `i`, column `j`.
    pub fn get(&self, i: usize, j: usize) -> (r: T)
        requires
            self.wf(),
            i < self.nrows(),
            j < self.ncols(),
        ensures
            r == self.at(i as int, j as int),
    {
        proof {
            lemma_flat_bound(i as int, j as int, self.rows as int, self.cols as int);
        }
        self.elements[j * self.rows + i]
    }

    /// Writes the element at row `i`, column `j`.
    pub fn set(&mut self, i: usize, j: usize, v: T)
        requires
            old(self).wf(),
            i < old(self).nrows(),
            j < old(self).ncols(),
        ensures
            final(self).wf(),
            final(self).nrows() == old(self).nrows(),
            final(self).ncols() == old(self).ncols(),
            final(self).elems() == old(self).elems().update(j * old(self).nrows() + i, v),
    {
        proof {
            lemma_flat_bound(i as int, j as int, self.rows as int, self.cols as int);
        }
        let idx = j * self.rows + i;
        self.elements.set(idx, v);
    }

    /// The element at position `i` of a column vector.
    pub fn get_vec(&self, i: usize) -> (r: T)
        requires
            self.wf(),
            i < self.elems().len(),
        ensures
            r == self.elems()[i as int],
    {
        self.elements[i]
    }

    /// Writes position `i` of the element buffer.
    pub fn set_vec(&mut self, i: usize, v: T)
        requires
            old(self).wf(),
            i < old(self).elems().len(),
        ensures
            final(self).wf(),
            final(self).nrows() == old(self).nrows(),
            final(self).ncols() == old(self).ncols(),
            final(self).elems() == old(self).elems().update(i as int, v),
    {
        self.elements.set(i, v);
    }

    /// XORs `v` into the element at row `i`, column `j`.
    pub fn xor_at(&mut self, i: usize, j: usize, v: T)
        requires
            old(self).wf(),
            i < old(self).nrows(),
            j < old(self).ncols(),
        ensures
            final(self).wf(),
            final(self).nrows() == old(self).nrows(),
            final(self).ncols() == old(self).ncols(),
            final(self).elems() == old(self).elems().update(
                j * old(self).nrows() + i,
                T::of_value(old(self).val(i as int, j as int) ^ v.value()),
            ),
            forall|r: int, c: int| 0 <= r < old(self).nrows() && 0 <= c < old(self).ncols() ==>
                #[trigger] final(self).val(r, c) == if r == i && c == j {
                    old(self).val(r, c) ^ v.value()
                } else {
                    old(self).val(r, c)
                },
    {
        let cur = self.get(i, j);
        let ghost before = *self;
        self.set(i, j, cur.xor_elem(&v));
        proof {
            T::lemma_value_of_value(before.val(i as int, j as int) ^ v.value());
            assert forall|r: int, c: int| 0 <= r < before.nrows() && 0 <= c < before.ncols() implies
                #[trigger] self.val(r, c) == if r == i && c == j {
                    before.val(r, c) ^ v.value()
                } else {
                    before.val(r, c)
                } by {
                lemma_flat_bound(r, c, before.nrows() as int, before.ncols() as int);
                lemma_flat_bound(i as int, j as int, before.nrows() as int, before.ncols() as int);
                if c * before.nrows() + r == j * before.nrows() + i {
                    lemma_flat_injective(r, c, i as int, j as int, before.nrows() as int);
                }
            }
        }
    }

    /// Element-wise XOR of two matrices of the same shape.
    pub fn xor_matrix(&self, rhs: &Self) -> (r: Self)
        requires
            self.wf(),
            rhs.wf(),
            self.nrows() == rhs.nrows(),
            self.ncols() == rhs.ncols(),
        ensures
            r.wf(),
            r.nrows() == self.nrows(),
            r.ncols() == self.ncols(),
            forall|k: int| 0 <= k < self.elems().len() ==> #[trigger] r.elems()[k]
                == T::of_value(self.elems()[k].value() ^ rhs.elems()[k].value()),
    {
        let n = self.elements.len();
        let mut elements: Vec<T> = Vec::new();
        let mut k: usize = 0;
        while k < n
            invariant
                n == self.elems().len(),
                n == rhs.elems().len(),
                k <= n,
                elements@.len() == k,
                forall|t: int| 0 <= t < k ==> #[trigger] elements@[t]
                    == T::of_value(self.elems()[t].value() ^ rhs.elems()[t].value()),
            decreases n - k,
        {
            elements.push(self.elements[k].xor_elem(&rhs.elements[k]));
            k = k + 1;
        }
        TypedMatrix { rows: self.rows, cols: self.cols, elements }
    }

    /// XORs `rhs` into `self`, element-wise over the common prefix of the buffers.
    pub fn xor_assign_matrix(&mut self, rhs: &Self)
        ensures
            final(self).nrows() == old(self).nrows(),
            final(self).ncols() == old(self).ncols(),
            final(self).elems().len() == old(self).elems().len(),
            forall|k: int| 0 <= k < old(self).elems().len() ==> #[trigger] final(self).elems()[k]
                == if k < rhs.elems().len() {
                    T::of_value(old(self).elems()[k].value() ^ rhs.elems()[k].value())
                } else {
                    old(self).elems()[k]
                },
    {
        let n = if self.elements.len() < rhs.elements.len() {
            self.elements.len()
        } else {
            rhs.elements.len()
        };
        let mut k: usize = 0;
        while k < n
            invariant
                n <= self.elements@.len(),
                n <= rhs.elems().len(),
                n == if old(self).elems().len() < rhs.elems().len() { old(self).elems().len() } else { rhs.elems().len() },
                self.rows == old(self).nrows(),
                self.cols == old(self).ncols(),
                self.elements@.len() == old(self).elems().len(),
                k <= n,
                forall|t: int| 0 <= t < k ==> #[trigger] self.elements@[t]
                    == T::of_value(old(self).elems()[t].value() ^ rhs.elems()[t].value()),
                forall|t: int| k <= t < self.elements@.len() ==> #[trigger] self.elements@[t] == old(self).elems()[t],
            decreases n - k,
        {
            let v = self.elements[k].xor_elem(&rhs.elements[k]);
            self.elements.set(k, v);
            k = k + 1;
        }
    }

    /// An immutable view of the whole matrix.
    pub fn as_view(&self) -> (r: MatrixViewRef<'_, T>)
        requires
            self.wf(),
        ensures
            r.wf(),
            r.data@ == self.elems(),
            r.total_rows == self.nrows(),
            r.total_cols == self.ncols(),
            r.view_start == 0,
            r.view_rows == self.nrows(),
            r.view_cols == self.ncols(),
            !r.transpose,
    {
        MatrixViewRef::new(self.elements.as_slice(), self.rows, self.cols)
    }

    /// Calls `f` on a mutable view of `rows` rows of the matrix starting at row
    /// `offset`.
    pub fn with_subrows_mut<F, R>(&mut self, offset: usize, rows: usize, f: F) -> (r: R)
        where F: FnOnce(&mut MatrixViewMut<'_, T>) -> R,
        requires
            old(self).wf(),
            forall|v: &mut MatrixViewMut<'_, T>|
                {
                    &&& v.data@ == old(self).elems()
                    &&& v.total_rows == old(self).nrows()
                    &&& v.total_cols == old(self).ncols()
                    &&& v.view_start == offset
                    &&& v.view_rows == rows
                    &&& v.view_cols == old(self).ncols()
                    &&& !v.transpose
                } ==> #[trigger] f.requires((v,)),
        ensures
            final(self).nrows() == old(self).nrows(),
            final(self).ncols() == old(self).ncols(),
            exists|v: &mut MatrixViewMut<'_, T>| {
                &&& v.data@ == old(self).elems()
                &&& v.total_rows == old(self).nrows()
                &&& v.total_cols == old(self).ncols()
                &&& v.view_start == offset
                &&& v.view_rows == rows
                &&& v.view_cols == old(self).ncols()
                &&& !v.transpose
                &&& final(self).elems() == final(v.data)@
                &&& f.ensures((v,), r)
            },
    {
        let mut view = self.as_view_mut();
        let ghost pre = view;
        let r = view.with_subrows(offset, rows, f);
        proof {
            assert(final(view.data)@ == final(pre.data)@);
            assert(view.data@ == final(view.data)@);
        }
        r
    }

    /// A mutable view of the whole matrix: writes through it are writes to the
    /// matrix's elements.
    pub fn as_view_mut(&mut self) -> (r: MatrixViewMut<'_, T>)
        requires
            old(self).wf(),
        ensures
            r.wf(),
            r.data@ == old(self).elems(),
            final(r.data)@ == final(self).elems(),
            final(self).nrows() == old(self).nrows(),
            final(self).ncols() == old(self).ncols(),
            r.total_rows == old(self).nrows(),
            r.total_cols == old(self).ncols(),
            r.view_start == 0,
            r.view_rows == old(self).nrows(),
            r.view_cols == old(self).ncols(),
            !r.transpose,
    {
        let rows = self.rows;
        let cols = self.cols;
        MatrixViewMut::new(self.elements.as_mut_slice(), rows, cols)
    }
}

impl TypedMatrix<Block> {
    /// The column vector holding `v`.
    pub(crate) fn from_column(v: &[Block]) -> (r: Self)
        ensures
            r.wf(),
            r.nrows() == v@.len(),
            r.ncols() == 1,
            r.elems() == v@,
    {
        let mut elements: Vec<Block> = Vec::new();
        let mut k: usize = 0;
        while k < v.len()
            invariant
                k <= v@.len(),
                elements@ == v@.subrange(0, k as int),
            decreases v@.len() - k,
        {
            elements.push(v[k]);
            k = k + 1;
            proof {
                assert(elements@ =~= v@.subrange(0, k as int));
            }
        }
        proof {
            assert(v@.subrange(0, v@.len() as int) =~= v@);
        }
        TypedMatrix { rows: v.len(), cols: 1, elements }
    }

    /// The matrix whose entry `(i, j)` is `Δ` when the pointer bits of `self[i]`
    /// and `other[j]` are both set, zero otherwise.
    pub fn color_cross_product(&self, other: &Self, delta: Delta) -> (r: Self)
        requires
            self.wf(),
            other.wf(),
            self.ncols() == 1,
            other.ncols() == 1,
            self.nrows() * other.nrows() <= usize::MAX,
        ensures
            r.wf(),
            r.nrows() == self.nrows(),
            r.ncols() == other.nrows(),
            forall|i: int, j: int| 0 <= i < self.nrows() && 0 <= j < other.nrows() ==>
                #[trigger] r.val(i, j) == mul_bool_spec(delta@, lsb_of(self.elems()[i]@) && lsb_of(other.elems()[j]@)),
    {
        let mut out = Self::new(self.rows, other.rows);
        let mut j: usize = 0;
        while j < other.rows
            invariant
                self.wf(),
                other.wf(),
                self.ncols() == 1,
                other.ncols() == 1,
                out.wf(),
                out.nrows() == self.nrows(),
                out.ncols() == other.nrows(),
                j <= other.nrows(),
                forall|i: int, jj: int| 0 <= i < self.nrows() && 0 <= jj < j ==>
                    #[trigger] out.val(i, jj) == mul_bool_spec(delta@, lsb_of(self.elems()[i]@) && lsb_of(other.elems()[jj]@)),
            decreases other.nrows() - j,
        {
            let mut i: usize = 0;
            while i < self.rows
                invariant
                    self.wf(),
                    other.wf(),
                    self.ncols() == 1,
                    other.ncols() == 1,
                    out.wf(),
                    out.nrows() == self.nrows(),
                    out.ncols() == other.nrows(),
                    j < other.nrows(),
                    i <= self.nrows(),
                    forall|ii: int, jj: int| 0 <= ii < self.nrows() && 0 <= jj < j ==>
                        #[trigger] out.val(ii, jj) == mul_bool_spec(delta@, lsb_of(self.elems()[ii]@) && lsb_of(other.elems()[jj]@)),
                    forall|ii: int| 0 <= ii < i ==>
                        #[trigger] out.val(ii, j as int) == mul_bool_spec(delta@, lsb_of(self.elems()[ii]@) && lsb_of(other.elems()[j as int]@)),
                decreases self.nrows() - i,
            {
                let a = self.elements[i].lsb();
                let b = other.elements[j].lsb();
                let v = delta.mul_bool(a && b);
                let ghost before = out;
                out.set(i, j, v);
                proof {
                    assert forall|ii: int, jj: int| 0 <= ii < self.nrows() && 0 <= jj < other.nrows()
                        && !(ii == i && jj == j) implies #[trigger] out.val(ii, jj) == before.val(ii, jj) by {
                        lemma_flat_bound(ii, jj, out.nrows() as int, out.ncols() as int);
                        lemma_flat_bound(i as int, j as int, out.nrows() as int, out.ncols() as int);
                        if jj * out.nrows() + ii == j * out.nrows() + i {
                            lemma_flat_injective(ii, jj, i as int, j as int, out.nrows() as int);
                        }
                    }
                    lemma_flat_bound(i as int, j as int, out.nrows() as int, out.ncols() as int);
                }
                i = i + 1;
            }
            j = j + 1;
        }
        out
    }
}

/// Packs bits into an integer, `b[0]` least significant.
pub open spec fn pack_bits(b: Seq<bool>) -> nat
    decreases b.len(),
{
    if b.len() == 0 {
        0
    } else {
        (if b[0] { 1nat } else { 0nat }) + 2 * pack_bits(b.drop_first())
    }
}

/// The number of values of a `usize`.
pub open spec fn usize_modulus() -> nat {
    usize::MAX as nat + 1
}

/// One step of the packing fold: doubling the accumulator and adding a bit, both
/// modulo the `usize` range, keeps it equal to the packed value modulo that range.
pub proof fn lemma_shift_or_step(acc: usize, bit: bool, p: nat)
    requires
        acc as nat == p % usize_modulus(),
    ensures
        vstd::wrapping::usize_specs::wrapping_add(
            vstd::wrapping::usize_specs::wrapping_mul(acc, 2),
            if bit { 1usize } else { 0usize },
        ) as nat == ((if bit { 1nat } else { 0nat }) + 2 * p) % usize_modulus(),
{
    let b: int = if bit { 1 } else { 0 };
    let md: int = usize_modulus() as int;
    let t: int = (acc as int * 2) % md;
    vstd::arithmetic::div_mod::lemma_mod_bound(acc as int * 2, md);
    vstd::arithmetic::div_mod::lemma_mul_mod_noop_right(2, p as int, md);
    vstd::arithmetic::div_mod::lemma_add_mod_noop(2 * (p as int), b, md);
    vstd::arithmetic::div_mod::lemma_small_mod(b as nat, md as nat);
    assert((2 * (p as int)) % md == t) by {
        vstd::arithmetic::div_mod::lemma_mul_mod_noop_right(2, acc as int, md);
    }
    if t + b < md {
        vstd::arithmetic::div_mod::lemma_small_mod((t + b) as nat, md as nat);
    } else {
        vstd::arithmetic::div_mod::lemma_mod_sub_multiples_vanish(t + b - md, md);
        vstd::arithmetic::div_mod::lemma_small_mod((t + b - md) as nat, md as nat);
    }
}

/// The pointer bits of the first `k` elements of a sequence.
pub open spec fn lsb_bits<T: MatrixElement>(s: Seq<T>, k: int) -> Seq<bool> {
    Seq::new(k as nat, |i: int| lsb_of(s[i].value()))
}

/// Packs the pointer bits of the first `rows` elements of `elems`.
fn pack_lsbs<T: MatrixElement>(elems: &[T], rows: usize) -> (r: usize)
    requires
        rows <= elems@.len(),
    ensures
        r as nat == pack_bits(lsb_bits(elems@, rows as int)) % usize_modulus(),
{
    let mut acc: usize = 0;
    let mut i: usize = rows;
    while i > 0
        invariant
            i <= rows <= elems@.len(),
            acc as nat == pack_bits(lsb_bits(elems@, rows as int).subrange(i as int, rows as int)) % usize_modulus(),
        decreases i,
    {
        i = i - 1;
        let bit = elems[i].to_block().lsb();
        proof {
            let s = lsb_bits(elems@, rows as int).subrange(i as int, rows as int);
            assert(s.drop_first() =~= lsb_bits(elems@, rows as int).subrange(i + 1, rows as int));
            lemma_shift_or_step(acc, bit, pack_bits(s.drop_first()));
        }
        acc = acc.wrapping_mul(2).wrapping_add(if bit { 1usize } else { 0usize });
    }
    proof {
        assert(lsb_bits(elems@, rows as int).subrange(0, rows as int) =~= lsb_bits(elems@, rows as int));
    }
    acc
}

impl<T: MatrixElement> core::ops::BitXorAssign for TypedMatrix<T> {
    /// XORs `rhs` into `self` element-wise over the common prefix of the buffers.
    fn bitxor_assign(&mut self, rhs: TypedMatrix<T>)
        ensures
            final(self).nrows() == old(self).nrows(),
            final(self).ncols() == old(self).ncols(),
            final(self).elems().len() == old(self).elems().len(),
            forall|k: int| 0 <= k < old(self).elems().len() ==> #[trigger] final(self).elems()[k]
                == if k < rhs.elems().len() {
                    T::of_value(old(self).elems()[k].value() ^ rhs.elems()[k].value())
                } else {
                    old(self).elems()[k]
                },
    {
        self.xor_assign_matrix(&rhs);
    }
}

/// Packs `bits`, bit 0 least significant (modulo the width of a `usize`).
pub(crate) fn pack_bool_bits(bits: &[bool]) -> (r: usize)
    ensures
        r as nat == pack_bits(bits@) % usize_modulus(),
{
    let mut acc: usize = 0;
    let mut i: usize = bits.len();
    proof {
        assert(bits@.subrange(i as int, bits@.len() as int).len() == 0);
        assert(pack_bits(bits@.subrange(i as int, bits@.len() as int)) == 0);
        vstd::arithmetic::div_mod::lemma_small_mod(0, usize_modulus());
    }
    while i > 0
        invariant
            i <= bits@.len(),
            acc as nat == pack_bits(bits@.subrange(i as int, bits@.len() as int)) % usize_modulus(),
        decreases i,
    {
        i = i - 1;
        let bit = bits[i];
        proof {
            let s = bits@.subrange(i as int, bits@.len() as int);
            assert(s.drop_first() =~= bits@.subrange(i + 1, bits@.len() as int));
            lemma_shift_or_step(acc, bit, pack_bits(s.drop_first()));
        }
        acc = acc.wrapping_mul(2).wrapping_add(if bit { 1usize } else { 0usize });
    }
    proof {
        assert(bits@.subrange(0, bits@.len() as int) =~= bits@);
    }
    acc
}

impl TypedMatrix<Block> {
    /// Packs the pointer bits of the rows of the first column, row 0 least significant.
    pub fn get_clear_value(&self) -> (r: usize)
        requires
            self.wf(),
            self.ncols() >= 1 || self.nrows() == 0,
        ensures
            r as nat == pack_bits(lsb_bits(self.elems(), self.nrows() as int)) % usize_modulus(),
    {
        proof {
            assert(self.nrows() <= self.nrows() * self.ncols()) by (nonlinear_arith)
                requires
                    self.ncols() >= 1 || self.nrows() == 0,
            ;
        }
        pack_lsbs(self.elements.as_slice(), self.rows)
    }
}

impl TypedMatrix<Key> {
    /// Packs the pointer bits of the rows of the first column, row 0 least significant.
    pub fn get_clear_value(&self) -> (r: usize)
        requires
            self.wf(),
            self.ncols() >= 1 || self.nrows() == 0,
        ensures
            r as nat == pack_bits(lsb_bits(self.elems(), self.nrows() as int)) % usize_modulus(),
    {
        proof {
            assert(self.nrows() <= self.nrows() * self.ncols()) by (nonlinear_arith)
                requires
                    self.ncols() >= 1 || self.nrows() == 0,
            ;
        }
        pack_lsbs(self.elements.as_slice(), self.rows)
    }
}

/// Immutable view into a matrix with support for subviews and transposition.
pub struct MatrixViewRef<'a, T> {
    pub data: &'a [T],
    pub total_rows: usize,
    pub total_cols: usize,
    pub view_start: usize,
    pub view_rows: usize,
    pub view_cols: usize,
    pub transpose: bool,
}

impl<'a, T> MatrixViewRef<'a, T> {
    /// Index of `(i, j)` of the view in the data buffer.
    pub open spec fn index_of(&self, i: int, j: int) -> int {
        if self.transpose {
            self.view_start + i * self.total_rows + j
        } else {
            self.view_start + j * self.total_rows + i
        }
    }

    /// Every position of the view lies in the data buffer.
    pub open spec fn wf(&self) -> bool {
        forall|i: int, j: int| 0 <= i < self.rows_spec() && 0 <= j < self.cols_spec()
            ==> 0 <= #[trigger] self.index_of(i, j) < self.data@.len()
    }

    pub open spec fn rows_spec(&self) -> int {
        if self.transpose { self.view_cols as int } else { self.view_rows as int }
    }

    pub open spec fn cols_spec(&self) -> int {
        if self.transpose { self.view_rows as int } else { self.view_cols as int }
    }

    /// The view of `data` as a `total_rows × total_cols` matrix.
    pub fn new(data: &'a [T], total_rows: usize, total_cols: usize) -> (r: Self)
        requires
            data@.len() == total_rows * total_cols,
        ensures
            r.wf(),
            r.data == data,
            r.total_rows == total_rows,
            r.total_cols == total_cols,
            r.view_start == 0,
            r.view_rows == total_rows,
            r.view_cols == total_cols,
            !r.transpose,
    {
        let r = MatrixViewRef {
            data,
            total_rows,
            total_cols,
            view_start: 0,
            view_rows: total_rows,
            view_cols: total_cols,
            transpose: false,
        };
        proof {
            assert forall|i: int, j: int| 0 <= i < r.rows_spec() && 0 <= j < r.cols_spec()
                implies 0 <= #[trigger] r.index_of(i, j) < r.data@.len() by {
                lemma_flat_bound(i, j, total_rows as int, total_cols as int);
            }
        }
        r
    }

    /// The transposed view.
    pub fn transpose(&self) -> (r: Self)
        ensures
            r.data == self.data,
            r.total_rows == self.total_rows,
            r.total_cols == self.total_cols,
            r.view_start == self.view_start,
            r.view_rows == self.view_cols,
            r.view_cols == self.view_rows,
            r.transpose == !self.transpose,
    {
        MatrixViewRef {
            data: self.data,
            total_rows: self.total_rows,
            total_cols: self.total_cols,
            view_start: self.view_start,
            view_rows: self.view_cols,
            view_cols: self.view_rows,
            transpose: !self.transpose,
        }
    }

    /// The view shifted by `row_offset` rows and `col_offset` columns of the
    /// underlying buffer.
    pub open spec fn shifted(&self, row_offset: int, col_offset: int) -> Self {
        MatrixViewRef {
            data: self.data,
            total_rows: self.total_rows,
            total_cols: self.total_cols,
            view_start: (self.view_start + col_offset * self.total_rows + row_offset) as usize,
            view_rows: self.view_rows,
            view_cols: self.view_cols,
            transpose: self.transpose,
        }
    }

    /// The view shifted by `row_offset` rows and `col_offset` columns: entry
    /// `(i, j)` of the result is entry `(i + row_offset, j + col_offset)` of
    /// this view (of a transposed view, `(i + col_offset, j + row_offset)`).
    pub fn shift(&self, row_offset: usize, col_offset: usize) -> (r: Self)
        requires
            self.view_start + col_offset * self.total_rows + row_offset <= usize::MAX,
        ensures
            r == self.shifted(row_offset as int, col_offset as int),
            r.data == self.data,
            r.total_rows == self.total_rows,
            r.total_cols == self.total_cols,
            r.view_start == self.view_start + col_offset * self.total_rows + row_offset,
            r.view_rows == self.view_rows,
            r.view_cols == self.view_cols,
            r.transpose == self.transpose,
            !self.transpose ==> forall|i: int, j: int| #[trigger] r.index_of(i, j) == self.index_of(
                i + row_offset,
                j + col_offset,
            ),
            self.transpose ==> forall|i: int, j: int| #[trigger] r.index_of(i, j) == self.index_of(
                i + col_offset,
                j + row_offset,
            ),
    {
        let r = MatrixViewRef {
            data: self.data,
            total_rows: self.total_rows,
            total_cols: self.total_cols,
            view_start: self.view_start + col_offset * self.total_rows + row_offset,
            view_rows: self.view_rows,
            view_cols: self.view_cols,
            transpose: self.transpose,
        };
        proof {
            let tr = self.total_rows as int;
            let co = col_offset as int;
            assert forall|i: int, j: int| #[trigger] r.index_of(i, j) == (if self.transpose {
                self.index_of(i + co, j + row_offset)
            } else {
                self.index_of(i + row_offset, j + co)
            }) by {
                vstd::arithmetic::mul::lemma_mul_is_distributive_add_other_way(tr, j, co);
                vstd::arithmetic::mul::lemma_mul_is_distributive_add_other_way(tr, i, co);
            }
        }
        r
    }

    /// Two shifts compose: shifting by `(a, b)` and then by `(c, d)` gives the
    /// view that shifting by `(a + c, b + d)` gives.
    pub proof fn lemma_shift_compose(&self, a: int, b: int, c: int, d: int)
        requires
            0 <= self.view_start + b * self.total_rows + a <= usize::MAX,
        ensures
            self.shifted(a, b).shifted(c, d) == self.shifted(a + c, b + d),
    {
        let tr = self.total_rows as int;
        vstd::arithmetic::mul::lemma_mul_is_distributive_add_other_way(tr, b, d);
    }

    /// The view resized to `rows × cols`.
    pub fn resize(&self, rows: usize, cols: usize) -> (r: Self)
        ensures
            r.data == self.data,
            r.total_rows == self.total_rows,
            r.total_cols == self.total_cols,
            r.view_start == self.view_start,
            r.view_rows == rows,
            r.view_cols == cols,
            r.transpose == self.transpose,
    {
        MatrixViewRef {
            data: self.data,
            total_rows: self.total_rows,
            total_cols: self.total_cols,
            view_start: self.view_start,
            view_rows: rows,
            view_cols: cols,
            transpose: self.transpose,
        }
    }

    /// The subview of `rows` rows starting `offset` rows down.
    pub open spec fn subrows_spec(&self, offset: usize, rows: usize) -> Self {
        MatrixViewRef {
            data: self.data,
            total_rows: self.total_rows,
            total_cols: self.total_cols,
            view_start: (self.view_start + offset) as usize,
            view_rows: rows,
            view_cols: self.view_cols,
            transpose: self.transpose,
        }
    }

    /// Calls `f` on the subview of `rows` rows starting `offset` rows down.
    pub fn with_subrows<F, R>(&self, offset: usize, rows: usize, f: F) -> (r: R)
        where F: FnOnce(&MatrixViewRef<'a, T>) -> R,
        requires
            self.view_start + offset <= usize::MAX,
            f.requires((&self.subrows_spec(offset, rows),)),
        ensures
            f.ensures((&self.subrows_spec(offset, rows),), r),
    {
        let sub = MatrixViewRef {
            data: self.data,
            total_rows: self.total_rows,
            total_cols: self.total_cols,
            view_start: self.view_start + offset,
            view_rows: rows,
            view_cols: self.view_cols,
            transpose: self.transpose,
        };
        f(&sub)
    }

    /// Number of rows of the view.
    pub fn rows(&self) -> (r: usize)
        ensures
            r == self.rows_spec(),
    {
        if self.transpose { self.view_cols } else { self.view_rows }
    }

    /// Number of columns of the view.
    pub fn cols(&self) -> (r: usize)
        ensures
            r == self.cols_spec(),
    {
        if self.transpose { self.view_rows } else { self.view_cols }
    }

    /// Length of a column-vector view.
    pub fn len(&self) -> (r: usize)
        requires
            self.view_cols == 1,
        ensures
            r == self.view_rows,
    {
        self.view_rows
    }

    /// The element at `(i, j)` of the view: any position that falls inside the
    /// data buffer, inside the view's shape or not.
    pub fn get(&self, i: usize, j: usize) -> (r: &T)
        requires
            self.index_of(i as int, j as int) < self.data@.len(),
        ensures
            *r == self.data@[self.index_of(i as int, j as int)],
    {
        let len = self.data.len();
        assert(0 <= i * self.total_rows) by (nonlinear_arith);
        assert(0 <= j * self.total_rows) by (nonlinear_arith);
        let idx = if self.transpose {
            self.view_start + i * self.total_rows + j
        } else {
            self.view_start + j * self.total_rows + i
        };
        assert(idx == self.index_of(i as int, j as int));
        &self.data[idx]
    }

    /// Element `i` of a column-vector view.
    pub fn get_vec(&self, i: usize) -> (r: &T)
        requires
            self.view_start + i < self.data@.len(),
        ensures
            *r == self.data@[self.view_start + i],
    {
        let len = self.data.len();
        &self.data[self.view_start + i]
    }
}

impl<'a> MatrixViewRef<'a, Block> {
    /// The values of a column-vector view.
    pub open spec fn vec_vals(&self) -> Seq<u128> {
        Seq::new(self.view_rows as nat, |j: int| self.data@[self.view_start + j]@)
    }

    /// The rows of a column-vector view lie in the data buffer.
    pub open spec fn vec_ok(&self) -> bool {
        self.view_start + self.view_rows <= self.data@.len()
    }
}


/// Mutable view into a matrix with support for subviews and transposition.
pub struct MatrixViewMut<'a, T> {
    pub data: &'a mut [T],
    pub total_rows: usize,
    pub total_cols: usize,
    pub view_start: usize,
    pub view_rows: usize,
    pub view_cols: usize,
    pub transpose: bool,
}

impl<'a, T> MatrixViewMut<'a, T> {
    /// Index of `(i, j)` of the view in the data buffer.
    pub open spec fn index_of(&self, i: int, j: int) -> int {
        if self.transpose {
            self.view_start + i * self.total_rows + j
        } else {
            self.view_start + j * self.total_rows + i
        }
    }

    /// Every position of the view lies in the data buffer.
    pub open spec fn wf(&self) -> bool {
        forall|i: int, j: int| 0 <= i < self.rows_spec() && 0 <= j < self.cols_spec()
            ==> 0 <= #[trigger] self.index_of(i, j) < self.data@.len()
    }

    pub open spec fn rows_spec(&self) -> int {
        if self.transpose { self.view_cols as int } else { self.view_rows as int }
    }

    pub open spec fn cols_spec(&self) -> int {
        if self.transpose { self.view_rows as int } else { self.view_cols as int }
    }

    /// The shape fields of two views agree.
    pub open spec fn same_shape(&self, other: &Self) -> bool {
        &&& self.total_rows == other.total_rows
        &&& self.total_cols == other.total_cols
        &&& self.view_start == other.view_start
        &&& self.view_rows == other.view_rows
        &&& self.view_cols == other.view_cols
        &&& self.transpose == other.transpose
    }

    /// The view of `data` as a `total_rows × total_cols` matrix; writes through
    /// the view are writes to `data`.
    pub fn new(data: &'a mut [T], total_rows: usize, total_cols: usize) -> (r: Self)
        requires
            old(data)@.len() == total_rows * total_cols,
        ensures
            r.wf(),
            r.data@ == old(data)@,
            final(r.data)@ == final(data)@,
            r.total_rows == total_rows,
            r.total_cols == total_cols,
            r.view_start == 0,
            r.view_rows == total_rows,
            r.view_cols == total_cols,
            !r.transpose,
    {
        let r = MatrixViewMut {
            data,
            total_rows,
            total_cols,
            view_start: 0,
            view_rows: total_rows,
            view_cols: total_cols,
            transpose: false,
        };
        proof {
            assert forall|i: int, j: int| 0 <= i < r.rows_spec() && 0 <= j < r.cols_spec()
                implies 0 <= #[trigger] r.index_of(i, j) < r.data@.len() by {
                lemma_flat_bound(i, j, total_rows as int, total_cols as int);
            }
        }
        r
    }

    /// The view with its transposition flipped (its row and column counts
    /// trade places).
    pub fn transpose(self) -> (r: Self)
        ensures
            r.data@ == old(self.data)@,
            final(r.data)@ == final(self.data)@,
            r.total_rows == self.total_rows,
            r.total_cols == self.total_cols,
            r.view_start == self.view_start,
            r.view_rows == self.view_rows,
            r.view_cols == self.view_cols,
            r.transpose == !self.transpose,
    {
        MatrixViewMut {
            data: self.data,
            total_rows: self.total_rows,
            total_cols: self.total_cols,
            view_start: self.view_start,
            view_rows: self.view_rows,
            view_cols: self.view_cols,
            transpose: !self.transpose,
        }
    }

    /// Shifts the view by `row_offset` rows and `col_offset` columns.
    pub fn shift(&mut self, row_offset: usize, col_offset: usize)
        requires
            old(self).view_start + col_offset * old(self).total_rows + row_offset <= usize::MAX,
        ensures
            final(self).data@ == old(self).data@,
            final(final(self).data)@ == final(old(self).data)@,
            final(self).total_rows == old(self).total_rows,
            final(self).total_cols == old(self).total_cols,
            final(self).view_start == old(self).view_start + col_offset * old(self).total_rows + row_offset,
            final(self).view_rows == old(self).view_rows,
            final(self).view_cols == old(self).view_cols,
            final(self).transpose == old(self).transpose,
    {
        assert(0 <= col_offset * self.total_rows) by (nonlinear_arith);
        self.view_start = self.view_start + col_offset * self.total_rows + row_offset;
    }

    /// Resizes the view to `rows × cols`.
    pub fn resize(&mut self, rows: usize, cols: usize)
        ensures
            final(self).data@ == old(self).data@,
            final(final(self).data)@ == final(old(self).data)@,
            final(self).total_rows == old(self).total_rows,
            final(self).total_cols == old(self).total_cols,
            final(self).view_start == old(self).view_start,
            final(self).view_rows == rows,
            final(self).view_cols == cols,
            final(self).transpose == old(self).transpose,
    {
        self.view_rows = rows;
        self.view_cols = cols;
    }

    /// Number of rows of the view.
    pub fn rows(&self) -> (r: usize)
        ensures
            r == self.rows_spec(),
    {
        if self.transpose { self.view_cols } else { self.view_rows }
    }

    /// Number of columns of the view.
    pub fn cols(&self) -> (r: usize)
        ensures
            r == self.cols_spec(),
    {
        if self.transpose { self.view_rows } else { self.view_cols }
    }

    /// Length of a column-vector view.
    pub fn len(&self) -> (r: usize)
        requires
            self.view_cols == 1,
        ensures
            r == self.view_rows,
    {
        self.view_rows
    }

    /// Calls `f` on the subview of `rows` rows starting `offset` rows down.
    pub fn with_subrows<F, R>(&mut self, offset: usize, rows: usize, f: F) -> (r: R)
        where F: FnOnce(&mut MatrixViewMut<'_, T>) -> R,
        requires
            old(self).view_start + offset <= usize::MAX,
            forall|v: &mut MatrixViewMut<'_, T>|
                {
                    &&& v.data@ == old(self).data@
                    &&& v.total_rows == old(self).total_rows
                    &&& v.total_cols == old(self).total_cols
                    &&& v.view_start == old(self).view_start + offset
                    &&& v.view_rows == rows
                    &&& v.view_cols == old(self).view_cols
                    &&& v.transpose == old(self).transpose
                } ==> #[trigger] f.requires((v,)),
        ensures
            final(self).same_shape(&*old(self)),
            final(final(self).data)@ == final(old(self).data)@,
            exists|v: &mut MatrixViewMut<'_, T>| {
                &&& v.data@ == old(self).data@
                &&& v.total_rows == old(self).total_rows
                &&& v.total_cols == old(self).total_cols
                &&& v.view_start == old(self).view_start + offset
                &&& v.view_rows == rows
                &&& v.view_cols == old(self).view_cols
                &&& v.transpose == old(self).transpose
                &&& final(self).data@ == final(v.data)@
                &&& f.ensures((v,), r)
            },
    {
        let mut sub = MatrixViewMut {
            data: &mut *self.data,
            total_rows: self.total_rows,
            total_cols: self.total_cols,
            view_start: self.view_start + offset,
            view_rows: rows,
            view_cols: self.view_cols,
            transpose: self.transpose,
        };
        let ghost pre = sub;
        let r = f(&mut sub);
        proof {
            assert(exists|v: &mut MatrixViewMut<'_, T>| *v == pre && f.ensures((v,), r));
            assert(self.data@ == final(pre.data)@);
        }
        r
    }

    /// The buffer index of `(i, j)` of the view.
    fn flat(&self, i: usize, j: usize) -> (r: usize)
        requires
            self.wf(),
            i < self.rows_spec(),
            j < self.cols_spec(),
        ensures
            r == self.index_of(i as int, j as int),
            r < old(self.data)@.len(),
    {
        let len = self.data.len();
        assert(0 <= self.index_of(i as int, j as int) < self.data@.len());
        assert(0 <= i * self.total_rows) by (nonlinear_arith);
        assert(0 <= j * self.total_rows) by (nonlinear_arith);
        if self.transpose {
            self.view_start + i * self.total_rows + j
        } else {
            self.view_start + j * self.total_rows + i
        }
    }

    /// The element at `(i, j)` of the view.
    pub fn get(&self, i: usize, j: usize) -> (r: &T)
        requires
            self.wf(),
            i < self.rows_spec(),
            j < self.cols_spec(),
        ensures
            *r == old(self.data)@[self.index_of(i as int, j as int)],
    {
        let idx = self.flat(i, j);
        &self.data[idx]
    }

    /// Writes `v` at `(i, j)` of the view.
    pub fn set(&mut self, i: usize, j: usize, v: T)
        requires
            old(self).wf(),
            i < old(self).rows_spec(),
            j < old(self).cols_spec(),
        ensures
            final(self).data@ == old(self).data@.update(old(self).index_of(i as int, j as int), v),
            final(final(self).data)@ == final(old(self).data)@,
            final(self).same_shape(&*old(self)),
    {
        let idx = self.flat(i, j);
        self.data[idx] = v;
    }

    /// Element `i` of a column-vector view.
    pub fn get_vec(&self, i: usize) -> (r: &T)
        requires
            self.view_start + i < self.data@.len(),
        ensures
            *r == old(self.data)@[self.view_start + i],
    {
        let len = self.data.len();
        &self.data[self.view_start + i]
    }

    /// Writes `v` at element `i` of a column-vector view.
    pub fn set_vec(&mut self, i: usize, v: T)
        requires
            old(self).view_start + i < old(self).data@.len(),
        ensures
            final(self).data@ == old(self).data@.update(old(self).view_start + i, v),
            final(final(self).data)@ == final(old(self).data)@,
            final(self).same_shape(&*old(self)),
    {
        let len = self.data.len();
        let k = self.view_start + i;
        self.data[k] = v;
    }
}

} // verus!
