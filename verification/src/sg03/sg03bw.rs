//! SG03BW solves the generalized Sylvester equation A'*X*C + E'*X*D = SCALE*Y
//! (or its transposed form). This module holds its option code and the checks
//! it makes on its arguments; the solution works in floating point.

use vstd::prelude::*;

verus! {

/// Transpose mode for the equation.
#[derive(Clone, Copy, PartialEq, Eq, Structural)]
pub enum Trans {
    /// Solve A'*X*C + E'*X*D = SCALE*Y
    NoTrans,
    /// Solve A*X*C' + E*X*D' = SCALE*Y
    Trans,
}


/// The checks SG03BW makes before solving, in its order (each shape is
/// (rows, columns), M = rows of A, N = rows of C): -3 unless N is 1 or 2;
/// -5 when A is not M x M, E not M x M, C not N x N, D not N x N or X not
/// M x N; with M = 0 it returns 0 (SCALE = 1). `None` lets it go on.
pub fn sg03bw_screen(
    a: (usize, usize),
    c: (usize, usize),
    e: (usize, usize),
    d: (usize, usize),
    x: (usize, usize),
) -> (r: Option<i32>)
    ensures
        r == if c.0 != 1 && c.0 != 2 {
            Some(-3i32)
        } else if a.1 != a.0 || e.0 != a.0 || e.1 != a.0 || c.1 != c.0 || d.0 != c.0 || d.1 != c.0 || x.0 != a.0
            || x.1 != c.0 {
            Some(-5i32)
        } else if a.0 == 0 {
            Some(0i32)
        } else {
            None
        },
{
    let m = a.0;
    let n = c.0;
    if n != 1 && n != 2 {
        return Some(-3);
    }
    if a.1 != m || e.0 != m || e.1 != m || c.1 != n || d.0 != n || d.1 != n || x.0 != m || x.1 != n {
        return Some(-5);
    }
    if m == 0 {
        return Some(0);
    }
    None
}

} // verus!
