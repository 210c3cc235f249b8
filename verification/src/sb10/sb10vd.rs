//! SB10VD computes the state feedback and output injection matrices of the H2
//! optimal controller. This module holds the checks it makes on its arguments;
//! the Riccati equations are solved in floating point.

use vstd::prelude::*;

verus! {

/// The checks SB10VD makes before solving the Riccati equations, in its
/// order (each shape is (rows, columns)): -7 when A is not N x N, -9 when B
/// is not N x M, -11 when C is not NP x N, -13 when F is not NCON x N, -15
/// when H is not N x NMEAS, -17 when X, -19 when Y is not N x N, -21 when
/// XYCOND has fewer than 2 entries; with N = 0 it returns 0. `None` lets it
/// go on. (Past the first three checks SB10VD forms M - NCON and NP - NMEAS,
/// so NCON <= M and NMEAS <= NP are needed there.)
pub fn sb10vd_screen(
    n: usize,
    m: usize,
    np: usize,
    ncon: usize,
    nmeas: usize,
    a: (usize, usize),
    b: (usize, usize),
    c: (usize, usize),
    f: (usize, usize),
    h: (usize, usize),
    x: (usize, usize),
    y: (usize, usize),
    xycond_len: usize,
) -> (r: Option<i32>)
    requires
        a.0 == n && a.1 == n && b.0 == n && b.1 == m && c.0 == np && c.1 == n ==> ncon <= m && nmeas <= np,
    ensures
        r == if a.0 != n || a.1 != n {
            Some(-7i32)
        } else if b.0 != n || b.1 != m {
            Some(-9i32)
        } else if c.0 != np || c.1 != n {
            Some(-11i32)
        } else if f.0 != ncon || f.1 != n {
            Some(-13i32)
        } else if h.0 != n || h.1 != nmeas {
            Some(-15i32)
        } else if x.0 != n || x.1 != n {
            Some(-17i32)
        } else if y.0 != n || y.1 != n {
            Some(-19i32)
        } else if xycond_len < 2 {
            Some(-21i32)
        } else if n == 0 {
            Some(0i32)
        } else {
            None
        },
{
    if a.0 != n || a.1 != n {
        return Some(-7);
    }
    if b.0 != n || b.1 != m {
        return Some(-9);
    }
    if c.0 != np || c.1 != n {
        return Some(-11);
    }
    if f.0 != ncon || f.1 != n {
        return Some(-13);
    }
    if h.0 != n || h.1 != nmeas {
        return Some(-15);
    }
    if x.0 != n || x.1 != n {
        return Some(-17);
    }
    if y.0 != n || y.1 != n {
        return Some(-19);
    }
    if xycond_len < 2 {
        return Some(-21);
    }
    if n == 0 {
        return Some(0);
    }
    None
}

} // verus!
