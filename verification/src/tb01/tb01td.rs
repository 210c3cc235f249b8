//! TB01TD balances (A, B, C, D) by permutations and scalings. This module holds
//! the checks it makes on its arguments; the balancing works in floating point.

use vstd::prelude::*;

verus! {

/// The checks TB01TD makes before balancing, in its order: -4 when A is not
/// square or B, C, D do not fit it, -15 when SCSTAT, SCIN or SCOUT is too
/// short (N, M, P entries); with N = 0 it returns 0 (LOW = 0, IGH = N, the
/// scalings untouched). `None` lets the balancing go on.
pub fn tb01td_screen(
    a_rows: usize,
    a_cols: usize,
    b_rows: usize,
    b_cols: usize,
    c_rows: usize,
    c_cols: usize,
    d_rows: usize,
    d_cols: usize,
    scstat_len: usize,
    scin_len: usize,
    scout_len: usize,
) -> (r: Option<i32>)
    ensures
        r == if a_cols != a_rows || b_rows != a_rows || c_cols != a_rows || d_rows != c_rows || d_cols != b_cols {
            Some(-4i32)
        } else if scstat_len < a_rows || scin_len < b_cols || scout_len < c_rows {
            Some(-15i32)
        } else if a_rows == 0 {
            Some(0i32)
        } else {
            None
        },
{
    let n = a_rows;
    if a_cols != n || b_rows != n || c_cols != n || d_rows != c_rows || d_cols != b_cols {
        return Some(-4);
    }
    if scstat_len < n || scin_len < b_cols || scout_len < c_rows {
        return Some(-15);
    }
    if n == 0 {
        return Some(0);
    }
    None
}

} // verus!
