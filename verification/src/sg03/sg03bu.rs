//! SG03BU computes the Cholesky factor of the solution of a generalized
//! d-stable discrete-time Lyapunov equation, for a pencil in generalized Schur
//! form, block by block (see `blocks`). This module holds the checks it makes
//! on its arguments; the solution works in floating point.

use vstd::prelude::*;

verus! {

/// The checks SG03BU makes before solving: with N = 0 it returns 0 (SCALE =
/// 1); -5 when A is not N x N, or E or B is not N x N. `None` lets it go on.
pub fn sg03bu_screen(a: (usize, usize), e: (usize, usize), b: (usize, usize)) -> (r: Option<i32>)
    ensures
        r == if a.0 == 0 {
            Some(0i32)
        } else if a.1 != a.0 || e.0 != a.0 || e.1 != a.0 || b.0 != a.0 || b.1 != a.0 {
            Some(-5i32)
        } else {
            None
        },
{
    let n = a.0;
    if n == 0 {
        return Some(0);
    }
    if a.1 != n || e.0 != n || e.1 != n || b.0 != n || b.1 != n {
        return Some(-5);
    }
    None
}

} // verus!
