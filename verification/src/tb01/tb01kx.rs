//! TB01KX splits a real Schur matrix into two diagonal blocks (additive
//! spectral decomposition). This module holds the checks it makes on its
//! arguments; the decomposition works in floating point.

use vstd::prelude::*;

verus! {

/// The checks TB01KX makes before forming U, in its order: -5 when A is not
/// square or B, C do not fit it, -4 when NDIM exceeds N, -11 when U or V is
/// not N x N; with N = 0 it returns 0. `None` lets the decomposition go on.
pub fn tb01kx_screen(
    a_rows: usize,
    a_cols: usize,
    b_rows: usize,
    c_cols: usize,
    ndim: usize,
    u_rows: usize,
    u_cols: usize,
    v_rows: usize,
    v_cols: usize,
) -> (r: Option<i32>)
    ensures
        r == if a_cols != a_rows || b_rows != a_rows || c_cols != a_rows {
            Some(-5i32)
        } else if ndim > a_rows {
            Some(-4i32)
        } else if u_rows != a_rows || u_cols != a_rows || v_rows != a_rows || v_cols != a_rows {
            Some(-11i32)
        } else if a_rows == 0 {
            Some(0i32)
        } else {
            None
        },
{
    let n = a_rows;
    if a_cols != n || b_rows != n || c_cols != n {
        return Some(-5);
    }
    if ndim > n {
        return Some(-4);
    }
    if u_rows != n || u_cols != n || v_rows != n || v_cols != n {
        return Some(-11);
    }
    if n == 0 {
        return Some(0);
    }
    None
}

} // verus!
