//! SB10WD forms the H2 optimal controller from the state feedback and output
//! injection matrices. This module holds the checks it makes on its arguments;
//! the matrices are computed in floating point.

use vstd::prelude::*;

verus! {

/// The checks SB10WD makes before forming the controller, in its order
/// (each shape is (rows, columns)): -7 when A is not N x N, -9 when B is not
/// N x M, -11 when C is not NP x N, -13 when D is not NP x M, -15 when F is
/// not NCON x N, -17 when H is not N x NMEAS, -21 when AK is not N x N, -23
/// when BK is not N x NMEAS, -25 when CK is not NCON x N, -27 when DK is not
/// NCON x NMEAS. `None` lets it go on. (Past the first four checks SB10WD
/// forms M - NCON and NP - NMEAS, so NCON <= M and NMEAS <= NP are needed
/// there.)
pub fn sb10wd_screen(
    n: usize,
    m: usize,
    np: usize,
    ncon: usize,
    nmeas: usize,
    a: (usize, usize),
    b: (usize, usize),
    c: (usize, usize),
    d: (usize, usize),
    f: (usize, usize),
    h: (usize, usize),
    ak: (usize, usize),
    bk: (usize, usize),
    ck: (usize, usize),
    dk: (usize, usize),
) -> (r: Option<i32>)
    requires
        a.0 == n && a.1 == n && b.0 == n && b.1 == m && c.0 == np && c.1 == n && d.0 == np && d.1 == m
            ==> ncon <= m && nmeas <= np,
    ensures
        r == if a.0 != n || a.1 != n {
            Some(-7i32)
        } else if b.0 != n || b.1 != m {
            Some(-9i32)
        } else if c.0 != np || c.1 != n {
            Some(-11i32)
        } else if d.0 != np || d.1 != m {
            Some(-13i32)
        } else if f.0 != ncon || f.1 != n {
            Some(-15i32)
        } else if h.0 != n || h.1 != nmeas {
            Some(-17i32)
        } else if ak.0 != n || ak.1 != n {
            Some(-21i32)
        } else if bk.0 != n || bk.1 != nmeas {
            Some(-23i32)
        } else if ck.0 != ncon || ck.1 != n {
            Some(-25i32)
        } else if dk.0 != ncon || dk.1 != nmeas {
            Some(-27i32)
        } else {
            None
        },
{
    if a.0 != n || a.1 != n {
        return Some(-7);
    }
    if b.0 != n || b.1 != m {
        return Some(-9);
    }
    if c.0 != np || c.1 != n {
        return Some(-11);
    }
    if d.0 != np || d.1 != m {
        return Some(-13);
    }
    if f.0 != ncon || f.1 != n {
        return Some(-15);
    }
    if h.0 != n || h.1 != nmeas {
        return Some(-17);
    }
    if ak.0 != n || ak.1 != n {
        return Some(-21);
    }
    if bk.0 != n || bk.1 != nmeas {
        return Some(-23);
    }
    if ck.0 != ncon || ck.1 != n {
        return Some(-25);
    }
    if dk.0 != ncon || dk.1 != nmeas {
        return Some(-27);
    }
    None
}

} // verus!
