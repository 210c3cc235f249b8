//! SG02CV: copy of the leading N x N block of one matrix into another.

use vstd::prelude::*;
use crate::matrix::{Mat, Remap, copy_remapped};

verus! {

/// Copies the leading N x N part of A into the leading N x N part of B (the
/// leading dimensions LDA and LDB play no part with this storage).
///
/// Returns 0 on success and -1, leaving B alone, when N > 0 and A or B has
/// fewer than N rows or columns.
pub fn sg02cv<T: Copy>(n: usize, a: &Mat<T>, _lda: usize, b: &mut Mat<T>, _ldb: usize) -> (info: i32)
    ensures
        info == (if n > 0 && (a.nr() < n || a.nc() < n || old(b).nr() < n || old(b).nc() < n) {
            -1int
        } else {
            0int
        }),
        final(b).nr() == old(b).nr(),
        final(b).nc() == old(b).nc(),
        forall|i: int, j: int|
            0 <= i < old(b).nr() && 0 <= j < old(b).nc() ==> #[trigger] final(b).at(i, j) == if info
                == 0 && i < n && j < n {
                a.at(i, j)
            } else {
                old(b).at(i, j)
            },
{
    if n == 0 {
        return 0;
    }
    if a.nrows() < n || a.ncols() < n || b.nrows() < n || b.ncols() < n {
        return -1;
    }
    copy_remapped(b, a, n, n, Remap::Same);
    0
}

} // verus!
