//! TB01YD: the special similarity transformation P*A*P, P*B, C*P, where P is
//! the reversal matrix (ones on the secondary diagonal).

use vstd::prelude::*;
use crate::matrix::{Mat, Remap, copy_remapped};

verus! {

/// The value TB01YD returns for matrices of the given shapes:
/// -5 when A is not square, -7 when B does not have N rows, -9 when C does
/// not have N columns, 0 otherwise.
pub open spec fn tb01yd_info(a_rows: nat, a_cols: nat, b_rows: nat, c_cols: nat) -> int {
    if a_cols != a_rows {
        -5
    } else if b_rows != a_rows {
        -7
    } else if c_cols != a_rows {
        -9
    } else {
        0
    }
}

/// The outcome of TB01YD on (a0, b0, c0): the value `info` it returns and
/// the matrices (a, b, c) it leaves. On success A becomes P*A*P, B becomes
/// P*B and C becomes C*P; on an illegal shape nothing changes.
pub open spec fn tb01yd_outcome<T>(
    a0: Mat<T>,
    b0: Mat<T>,
    c0: Mat<T>,
    a: Mat<T>,
    b: Mat<T>,
    c: Mat<T>,
    info: int,
) -> bool {
    let n = a0.nr() as int;
    &&& info == tb01yd_info(a0.nr(), a0.nc(), b0.nr(), c0.nc())
    &&& info != 0 ==> a == a0 && b == b0 && c == c0
    &&& a.nr() == a0.nr() && a.nc() == a0.nc()
    &&& b.nr() == b0.nr() && b.nc() == b0.nc()
    &&& c.nr() == c0.nr() && c.nc() == c0.nc()
    &&& info == 0 ==> forall|i: int, j: int|
        0 <= i < n && 0 <= j < n ==> #[trigger] a.at(i, j) == a0.at(n - 1 - i, n - 1 - j)
    &&& info == 0 ==> forall|i: int, k: int|
        0 <= i < n && 0 <= k < b0.nc() ==> #[trigger] b.at(i, k) == b0.at(n - 1 - i, k)
    &&& info == 0 ==> forall|k: int, j: int|
        0 <= k < c0.nr() && 0 <= j < n ==> #[trigger] c.at(k, j) == c0.at(k, n - 1 - j)
}

/// Applies A <- P*A*P, B <- P*B, C <- C*P in place, P the N x N reversal.
///
/// Returns 0 on success; on an illegal shape it returns the negated position
/// of the offending argument (see `tb01yd_info`) and changes nothing.
pub fn tb01yd<T: Copy>(a: &mut Mat<T>, b: &mut Mat<T>, c: &mut Mat<T>) -> (info: i32)
    ensures
        tb01yd_outcome(*old(a), *old(b), *old(c), *final(a), *final(b), *final(c), info as int),
{
    let n = a.nrows();
    let m = b.ncols();
    let p = c.nrows();
    if a.ncols() != n {
        return -5;
    }
    if b.nrows() != n {
        return -7;
    }
    if c.ncols() != n {
        return -9;
    }
    if n == 0 {
        return 0;
    }
    let ac = a.copy();
    copy_remapped(a, &ac, n, n, Remap::FlipBoth(n));
    let bc = b.copy();
    copy_remapped(b, &bc, n, m, Remap::FlipRows(n));
    let cc = c.copy();
    copy_remapped(c, &cc, p, n, Remap::FlipCols(n));
    0
}

/// P*(P*A*P)*P = A, P*(P*B) = B and (C*P)*P = C: applying TB01YD twice gives
/// back the matrices it started from, whatever their shapes.
pub proof fn lemma_tb01yd_involution<T>(
    a0: Mat<T>,
    b0: Mat<T>,
    c0: Mat<T>,
    a1: Mat<T>,
    b1: Mat<T>,
    c1: Mat<T>,
    info1: int,
    a2: Mat<T>,
    b2: Mat<T>,
    c2: Mat<T>,
    info2: int,
)
    requires
        tb01yd_outcome(a0, b0, c0, a1, b1, c1, info1),
        tb01yd_outcome(a1, b1, c1, a2, b2, c2, info2),
    ensures
        info2 == info1,
        a2.same(&a0),
        b2.same(&b0),
        c2.same(&c0),
{
    let n = a0.nr() as int;
    if info1 == 0 {
        assert forall|i: int, j: int| 0 <= i < a0.nr() && 0 <= j < a0.nc() implies #[trigger] a2.at(i, j)
            == a0.at(i, j) by {
            assert(a2.at(i, j) == a1.at(n - 1 - i, n - 1 - j));
        }
        assert forall|i: int, j: int| 0 <= i < b0.nr() && 0 <= j < b0.nc() implies #[trigger] b2.at(i, j)
            == b0.at(i, j) by {
            assert(b2.at(i, j) == b1.at(n - 1 - i, j));
        }
        assert forall|i: int, j: int| 0 <= i < c0.nr() && 0 <= j < c0.nc() implies #[trigger] c2.at(i, j)
            == c0.at(i, j) by {
            assert(c2.at(i, j) == c1.at(i, n - 1 - j));
        }
    }
}

} // verus!
