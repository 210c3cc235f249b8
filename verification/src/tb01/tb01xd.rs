//! TB01XD: the dual system (P*A'*P, P*C', B'*P, D') of a real state-space
//! system, P the reversal matrix.

use vstd::prelude::*;
use crate::matrix::{Mat, Remap, copy_remapped};

verus! {

/// Whether the direct transmission matrix D is present.
#[derive(Clone, Copy, PartialEq, Eq, Structural)]
pub enum JobD {
    /// D is present; on exit D is replaced by D'.
    Present,
    /// D is assumed zero (not referenced).
    Zero,
}

/// The value TB01XD returns for the given shapes (`d` is the shape of D when
/// one is passed): -6 when A is not square, -8 when B does not have N rows,
/// -10 when C does not have N columns, -14 when D is needed and missing or
/// not P x M, 0 otherwise.
pub open spec fn tb01xd_info(
    jobd: JobD,
    a_rows: nat,
    a_cols: nat,
    b_rows: nat,
    b_cols: nat,
    c_rows: nat,
    c_cols: nat,
    d: Option<(nat, nat)>,
) -> int {
    if a_cols != a_rows {
        -6
    } else if b_rows != a_rows {
        -8
    } else if c_cols != a_rows {
        -10
    } else if jobd == JobD::Present && match d {
        None => true,
        Some(s) => s.0 != c_rows || s.1 != b_cols,
    } {
        -14
    } else {
        0
    }
}

/// The matrix an optional reference points to.
pub open spec fn opt_value<T>(d: Option<&mut Mat<T>>) -> Option<Mat<T>> {
    match d {
        Some(m) => Some(*m),
        None => None,
    }
}

/// The shape of an optional matrix.
pub open spec fn shape_of<T>(d: Option<Mat<T>>) -> Option<(nat, nat)> {
    match d {
        Some(m) => Some((m.nr(), m.nc())),
        None => None,
    }
}

/// The dual transformation on matrices of the given shape: on success A
/// becomes P*A'*P, the leading min(P, M) columns of B take P*C', the leading
/// min(M, P) rows of C take B'*P and D (when present) is transposed; on an
/// illegal shape nothing changes.
pub open spec fn dual_outcome<T>(
    info: int,
    jobd_present: bool,
    a0: Mat<T>,
    b0: Mat<T>,
    c0: Mat<T>,
    d0: Option<Mat<T>>,
    a: Mat<T>,
    b: Mat<T>,
    c: Mat<T>,
    d: Option<Mat<T>>,
) -> bool {
    let n = a0.nr() as int;
    let m = b0.nc() as int;
    let p = c0.nr() as int;
    &&& a.nr() == a0.nr() && a.nc() == a0.nc()
    &&& b.nr() == b0.nr() && b.nc() == b0.nc()
    &&& c.nr() == c0.nr() && c.nc() == c0.nc()
    &&& shape_of(d) == shape_of(d0)
    &&& info != 0 ==> a == a0 && b == b0 && c == c0 && d == d0
    &&& info == 0 ==> a0.nc() == n && b0.nr() == n && c0.nc() == n
    &&& info == 0 && jobd_present ==> d0 is Some && (d0.unwrap().nr() == d0.unwrap().nc()
        || d0.unwrap().nr() == 0 || d0.unwrap().nc() == 0)
    &&& info == 0 ==> forall|i: int, j: int|
        0 <= i < n && 0 <= j < n ==> #[trigger] a.at(i, j) == a0.at(n - 1 - j, n - 1 - i)
    &&& info == 0 ==> forall|i: int, k: int|
        0 <= i < n && 0 <= k < m ==> #[trigger] b.at(i, k) == if k < p {
            c0.at(k, n - 1 - i)
        } else {
            b0.at(i, k)
        }
    &&& info == 0 ==> forall|k: int, j: int|
        0 <= k < p && 0 <= j < n ==> #[trigger] c.at(k, j) == if k < m {
            b0.at(n - 1 - j, k)
        } else {
            c0.at(k, j)
        }
    &&& info == 0 && jobd_present ==> forall|i: int, j: int|
        0 <= i < d0.unwrap().nr() && 0 <= j < d0.unwrap().nc() ==> #[trigger] d.unwrap().at(i, j) == d0.unwrap().at(j, i)
    &&& info == 0 && !jobd_present ==> d == d0
}

/// Transposes the square matrix `d` in place.
pub(crate) fn transpose_in_place<T: Copy>(d: &mut Mat<T>)
    requires
        old(d).nr() == old(d).nc(),
    ensures
        final(d).nr() == old(d).nr(),
        final(d).nc() == old(d).nc(),
        forall|i: int, j: int|
            0 <= i < old(d).nr() && 0 <= j < old(d).nc() ==> #[trigger] final(d).at(i, j) == old(
                d,
            ).at(j, i),
{
    let k = d.nrows();
    let dc = d.copy();
    copy_remapped(d, &dc, k, k, Remap::Transpose);
}

/// Applies the dual transformation A <- P*A'*P, B <- P*C', C <- B'*P and,
/// when `jobd` is `Present`, D <- D'.
///
/// B keeps its N x M shape and C its P x N shape: the leading min(M, P)
/// columns of B and rows of C receive the new values. D keeps its shape, so
/// it can only be transposed when it is square (or empty).
pub fn tb01xd<T: Copy>(
    jobd: JobD,
    a: &mut Mat<T>,
    b: &mut Mat<T>,
    c: &mut Mat<T>,
    d: Option<&mut Mat<T>>,
) -> (info: i32)
    requires
        old(a).nc() == old(a).nr() && old(b).nr() == old(a).nr() && old(c).nc() == old(a).nr() && jobd
            == JobD::Present && d is Some && d.unwrap().nr() == old(c).nr() && d.unwrap().nc() == old(b).nc()
            ==> old(c).nr() == old(b).nc() || old(b).nc() == 0 || old(c).nr() == 0,
    ensures
        info == tb01xd_info(
            jobd,
            old(a).nr(),
            old(a).nc(),
            old(b).nr(),
            old(b).nc(),
            old(c).nr(),
            old(c).nc(),
            shape_of(opt_value(d)),
        ),
        dual_outcome(
            info as int,
            jobd == JobD::Present,
            *old(a),
            *old(b),
            *old(c),
            opt_value(d),
            *final(a),
            *final(b),
            *final(c),
            if d is Some { Some(*final(d.unwrap())) } else { None },
        ),
{
    let n = a.nrows();
    let m = b.ncols();
    let p = c.nrows();
    if a.ncols() != n {
        return -6;
    }
    if b.nrows() != n {
        return -8;
    }
    if c.ncols() != n {
        return -10;
    }
    if jobd == JobD::Present {
        match d {
            Some(ref dd) => {
                if dd.nrows() != p || dd.ncols() != m {
                    return -14;
                }
            },
            None => {
                return -14;
            },
        }
    }
    if n == 0 {
        if jobd == JobD::Present {
            if let Some(dd) = d {
                if dd.nrows() == dd.ncols() {
                    transpose_in_place(dd);
                }
            }
        }
        return 0;
    }
    let ac = a.copy();
    copy_remapped(a, &ac, n, n, Remap::PerTranspose(n));
    let cc = c.copy();
    let bc = b.copy();
    let mp = if p < m {
        p
    } else {
        m
    };
    copy_remapped(b, &cc, n, mp, Remap::FlipRowsOfTranspose(n));
    copy_remapped(c, &bc, mp, n, Remap::FlipColsOfTranspose(n));
    if jobd == JobD::Present {
        if let Some(dd) = d {
            if dd.nrows() == dd.ncols() {
                transpose_in_place(dd);
            }
        }
    }
    0
}

/// The dual of the dual system is the system itself: applying the dual
/// transformation twice, each time with the shapes of the first call, gives
/// back A, B, C and D (for every shape of B and C, since the columns of B and
/// the rows of C that the first call leaves alone the second call leaves
/// alone too).
pub proof fn lemma_dual_involution<T>(
    info: int,
    jobd_present: bool,
    a0: Mat<T>,
    b0: Mat<T>,
    c0: Mat<T>,
    d0: Option<Mat<T>>,
    a1: Mat<T>,
    b1: Mat<T>,
    c1: Mat<T>,
    d1: Option<Mat<T>>,
    a2: Mat<T>,
    b2: Mat<T>,
    c2: Mat<T>,
    d2: Option<Mat<T>>,
)
    requires
        dual_outcome(info, jobd_present, a0, b0, c0, d0, a1, b1, c1, d1),
        dual_outcome(info, jobd_present, a1, b1, c1, d1, a2, b2, c2, d2),
    ensures
        a2.same(&a0),
        b2.same(&b0),
        c2.same(&c0),
        shape_of(d2) == shape_of(d0),
        d0 is Some ==> d2.unwrap().same(&d0.unwrap()),
{
    let n = a0.nr() as int;
    let m = b0.nc() as int;
    let p = c0.nr() as int;
    if info == 0 {
        assert forall|i: int, j: int| 0 <= i < a0.nr() && 0 <= j < a0.nc() implies #[trigger] a2.at(i, j)
            == a0.at(i, j) by {
            assert(a2.at(i, j) == a1.at(n - 1 - j, n - 1 - i));
        }
        assert forall|i: int, k: int| 0 <= i < b0.nr() && 0 <= k < b0.nc() implies #[trigger] b2.at(i, k)
            == b0.at(i, k) by {
            if k < p {
                assert(b2.at(i, k) == c1.at(k, n - 1 - i));
            }
        }
        assert forall|k: int, j: int| 0 <= k < c0.nr() && 0 <= j < c0.nc() implies #[trigger] c2.at(k, j)
            == c0.at(k, j) by {
            if k < m {
                assert(c2.at(k, j) == b1.at(n - 1 - j, k));
            }
        }
        if jobd_present {
            let e0 = d0.unwrap();
            assert forall|i: int, j: int| 0 <= i < e0.nr() && 0 <= j < e0.nc() implies #[trigger] d2.unwrap().at(
                i,
                j,
            ) == e0.at(i, j) by {
                assert(d2.unwrap().at(i, j) == d1.unwrap().at(j, i));
            }
        }
    }
}

} // verus!
