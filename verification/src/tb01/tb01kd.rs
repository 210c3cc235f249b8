//! TB01KD brings A to block-diagonal form with two blocks, the leading one
//! with its eigenvalues in a given domain. This module holds its option codes
//! and the checks it makes on its arguments; the reduction works in floating
//! point.

use vstd::prelude::*;

verus! {

#[derive(Clone, Copy, PartialEq, Eq, Structural)]
pub enum Dico {
    Continuous,
    Discrete,
}

#[derive(Clone, Copy, PartialEq, Eq, Structural)]
pub enum StDom {
    Stable,
    Unstable,
}

#[derive(Clone, Copy, PartialEq, Eq, Structural)]
pub enum JobA {
    Schur,
    General,
}


/// The checks TB01KD makes before the Schur reduction, in its order: -8 when
/// A is not square or B, C do not fit it, -16 when U is not N x N; with N = 0
/// it returns 0 (NDIM becomes 0). `None` lets the reduction go on.
pub fn tb01kd_screen(
    a_rows: usize,
    a_cols: usize,
    b_rows: usize,
    c_cols: usize,
    u_rows: usize,
    u_cols: usize,
) -> (r: Option<i32>)
    ensures
        r == if a_cols != a_rows || b_rows != a_rows || c_cols != a_rows {
            Some(-8i32)
        } else if u_rows != a_rows || u_cols != a_rows {
            Some(-16i32)
        } else if a_rows == 0 {
            Some(0i32)
        } else {
            None
        },
{
    let n = a_rows;
    if a_cols != n || b_rows != n || c_cols != n {
        return Some(-8);
    }
    if u_rows != n || u_cols != n {
        return Some(-16);
    }
    if n == 0 {
        return Some(0);
    }
    None
}

} // verus!
