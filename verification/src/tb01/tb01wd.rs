//! TB01WD reduces A to real Schur form and applies the transformation to B and
//! C. This module holds the checks it makes on its arguments; the reduction
//! works in floating point.

use vstd::prelude::*;

verus! {

/// The checks TB01WD makes before the Schur reduction, in its order: -5 when
/// A is not square, -7 when B has not N rows or C not N columns, -10 when U
/// is not N x N, -11 when WR or WI is shorter than N; with N = 0 it returns
/// 0. `None` lets the reduction go on.
pub fn tb01wd_screen(
    a_rows: usize,
    a_cols: usize,
    b_rows: usize,
    c_cols: usize,
    u_rows: usize,
    u_cols: usize,
    wr_len: usize,
    wi_len: usize,
) -> (r: Option<i32>)
    ensures
        r == if a_cols != a_rows {
            Some(-5i32)
        } else if b_rows != a_rows || c_cols != a_rows {
            Some(-7i32)
        } else if u_rows != a_rows || u_cols != a_rows {
            Some(-10i32)
        } else if wr_len < a_rows || wi_len < a_rows {
            Some(-11i32)
        } else if a_rows == 0 {
            Some(0i32)
        } else {
            None
        },
{
    let n = a_rows;
    if a_cols != n {
        return Some(-5);
    }
    if b_rows != n || c_cols != n {
        return Some(-7);
    }
    if u_rows != n || u_cols != n {
        return Some(-10);
    }
    if wr_len < n || wi_len < n {
        return Some(-11);
    }
    if n == 0 {
        return Some(0);
    }
    None
}

} // verus!
