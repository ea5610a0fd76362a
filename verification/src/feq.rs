//! Ideal `F_eq`: the equality check of two block matrices.

use vstd::prelude::*;
use crate::matrix::BlockMatrix;

verus! {

/// The two matrices have the same shape and the same entries.
pub open spec fn same_matrix(l1: BlockMatrix, l2: BlockMatrix) -> bool {
    &&& l1.nrows() == l2.nrows()
    &&& l1.ncols() == l2.ncols()
    &&& forall|i: int, j: int| 0 <= i < l1.nrows() && 0 <= j < l1.ncols() ==> #[trigger] l1.val(i, j) == l2.val(i, j)
}

/// The outcome `F_eq` would give: whether the protocol may continue, that is
/// whether the two matrices are equal. A caller tests this before [`check`].
pub fn accepts(l1: &BlockMatrix, l2: &BlockMatrix) -> (r: bool)
    requires
        l1.wf(),
        l2.wf(),
    ensures
        r == same_matrix(*l1, *l2),
{
    if l1.rows() != l2.rows() || l1.cols() != l2.cols() {
        return false;
    }
    let mut j: usize = 0;
    while j < l1.cols()
        invariant
            j <= l1.ncols(),
            l1.wf(),
            l2.wf(),
            l1.nrows() == l2.nrows(),
            l1.ncols() == l2.ncols(),
            forall|ii: int, jj: int| 0 <= ii < l1.nrows() && 0 <= jj < j ==> #[trigger] l1.val(ii, jj) == l2.val(ii, jj),
        decreases l1.ncols() - j,
    {
        let mut i: usize = 0;
        while i < l1.rows()
            invariant
                i <= l1.nrows(),
                j < l1.ncols(),
                l1.wf(),
                l2.wf(),
                l1.nrows() == l2.nrows(),
                l1.ncols() == l2.ncols(),
                forall|ii: int, jj: int| 0 <= ii < l1.nrows() && 0 <= jj < j ==> #[trigger] l1.val(ii, jj) == l2.val(ii, jj),
                forall|ii: int| 0 <= ii < i ==> #[trigger] l1.val(ii, j as int) == l2.val(ii, j as int),
            decreases l1.nrows() - i,
        {
            let a = l1.get(i, j);
            let b = l2.get(i, j);
            if a != b {
                proof {
                    assert(l1.val(i as int, j as int) != l2.val(i as int, j as int));
                }
                return false;
            }
            i = i + 1;
        }
        proof {
            assert forall|ii: int, jj: int| 0 <= ii < l1.nrows() && 0 <= jj < j + 1 implies #[trigger] l1.val(ii, jj)
                == l2.val(ii, jj) by {
                if jj == j {
                    assert(l1.val(ii, j as int) == l2.val(ii, j as int));
                }
            }
        }
        j = j + 1;
    }
    true
}

/// The ideal `F_eq` check. The protocol continues only on equal matrices, so
/// equality of the shapes and of every entry is required of the caller.
pub fn check(l1: &BlockMatrix, l2: &BlockMatrix)
    requires
        l1.wf(),
        l2.wf(),
        l1.nrows() == l2.nrows(),
        l1.ncols() == l2.ncols(),
        forall|i: int, j: int| 0 <= i < l1.nrows() && 0 <= j < l1.ncols() ==> #[trigger] l1.val(i, j) == l2.val(i, j),
{
    let mut j: usize = 0;
    while j < l1.cols()
        invariant
            j <= l1.ncols(),
            l1.wf(),
            l2.wf(),
            l1.nrows() == l2.nrows(),
            l1.ncols() == l2.ncols(),
            forall|i: int, jj: int| 0 <= i < l1.nrows() && 0 <= jj < l1.ncols() ==> #[trigger] l1.val(i, jj) == l2.val(i, jj),
        decreases l1.ncols() - j,
    {
        let mut i: usize = 0;
        while i < l1.rows()
            invariant
                i <= l1.nrows(),
                j < l1.ncols(),
                l1.wf(),
                l2.wf(),
                l1.nrows() == l2.nrows(),
                l1.ncols() == l2.ncols(),
                forall|ii: int, jj: int| 0 <= ii < l1.nrows() && 0 <= jj < l1.ncols() ==> #[trigger] l1.val(ii, jj) == l2.val(ii, jj),
            decreases l1.nrows() - i,
        {
            let a = l1.get(i, j);
            let b = l2.get(i, j);
            assert(l1.val(i as int, j as int) == l2.val(i as int, j as int));
            assert(a@ == b@);
            i = i + 1;
        }
        j = j + 1;
    }
}

} // verus!
