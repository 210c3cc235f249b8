//! TB01XZ: the dual system (P*A'*P, P*C', B'*P, D') of a state-space system;
//! the complex counterpart of TB01XD. The transformation only moves
//! entries, so it is written once for any entry type.

use vstd::prelude::*;
use crate::matrix::{Mat, Remap, copy_remapped};
use crate::tb01::tb01xd::{dual_outcome, opt_value, shape_of, transpose_in_place};

verus! {

/// Whether the direct transmission matrix D is present.
#[derive(Clone, Copy, PartialEq, Eq, Structural)]
pub enum JobD {
    Present,
    Zero,
}

/// The value TB01XZ returns for the given shapes: -6 when A is not square
/// or B, C do not fit it, -14 when D is needed and missing or not P x M,
/// 0 otherwise.
pub open spec fn tb01xz_info(
    jobd: JobD,
    a_rows: nat,
    a_cols: nat,
    b_rows: nat,
    b_cols: nat,
    c_rows: nat,
    c_cols: nat,
    d: Option<(nat, nat)>,
) -> int {
    if a_cols != a_rows || b_rows != a_rows || c_cols != a_rows {
        -6
    } else if jobd == JobD::Present && match d {
        None => true,
        Some(s) => s.0 != c_rows || s.1 != b_cols,
    } {
        -14
    } else {
        0
    }
}

/// Applies the dual transformation A <- P*A'*P, B <- P*C', C <- B'*P and,
/// when `jobd` is `Present`, D <- D' (shapes kept, as in TB01XD).
pub fn tb01xz<T: Copy>(
    jobd: JobD,
    a: &mut Mat<T>,
    b: &mut Mat<T>,
    c: &mut Mat<T>,
    d: Option<&mut Mat<T>>,
) -> (info: i32)
    requires
        old(a).nc() == old(a).nr() && old(b).nr() == old(a).nr() && old(c).nc() == old(a).nr() && jobd
            == JobD::Present && d is Some && d.unwrap().nr() == old(c).nr() && d.unwrap().nc() == old(b).nc()
            ==> old(c).nr() == old(b).nc() || old(b).nc() == 0 || old(c).nr() == 0,
    ensures
        info == tb01xz_info(
            jobd,
            old(a).nr(),
            old(a).nc(),
            old(b).nr(),
            old(b).nc(),
            old(c).nr(),
            old(c).nc(),
            shape_of(opt_value(d)),
        ),
        dual_outcome(
            info as int,
            jobd == JobD::Present,
            *old(a),
            *old(b),
            *old(c),
            opt_value(d),
            *final(a),
            *final(b),
            *final(c),
            if d is Some { Some(*final(d.unwrap())) } else { None },
        ),
{
    let n = a.nrows();
    let m = b.ncols();
    let p = c.nrows();
    if a.ncols() != n || b.nrows() != n || c.ncols() != n {
        return -6;
    }
    if jobd == JobD::Present && d.is_none() {
        return -14;
    }
    if let Some(ref dd) = d {
        if jobd == JobD::Present && (dd.nrows() != p || dd.ncols() != m) {
            return -14;
        }
    }
    if n == 0 {
        if jobd == JobD::Present {
            if let Some(dd) = d {
                if dd.nrows() == dd.ncols() {
                    transpose_in_place(dd);
                }
            }
        }
        return 0;
    }
    let ac = a.copy();
    copy_remapped(a, &ac, n, n, Remap::PerTranspose(n));
    let cc = c.copy();
    let bc = b.copy();
    let mp = if p < m {
        p
    } else {
        m
    };
    copy_remapped(b, &cc, n, mp, Remap::FlipRowsOfTranspose(n));
    copy_remapped(c, &bc, mp, n, Remap::FlipColsOfTranspose(n));
    if jobd == JobD::Present {
        if let Some(dd) = d {
            if dd.nrows() == dd.ncols() {
                transpose_in_place(dd);
            }
        }
    }
    0
}

} // verus!
