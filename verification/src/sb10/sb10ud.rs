//! SB10UD normalizes the plant for H2 design, reducing D12 and D21 to unit
//! diagonal form. This module holds the checks it makes on its arguments; the
//! normalization works in floating point.

use vstd::prelude::*;

verus! {

/// The checks SB10UD makes before the normalization, in its order (each
/// shape is (rows, columns)): -7 when B is not N x M, -9 when C is not
/// NP x N, -11 when D is not NP x M, -5 when NCON > M, NMEAS > NP,
/// NP - NMEAS < NCON or M - NCON < NMEAS, -13 when TU is not NCON x NCON,
/// -15 when TY is not NMEAS x NMEAS, -17 when RCOND has fewer than 2
/// entries; with N = 0, NCON = 0 or NMEAS = 0 it returns 0 (TU, TY become
/// identities, RCOND ones). `None` lets the normalization go on.
pub fn sb10ud_screen(
    n: usize,
    m: usize,
    np: usize,
    ncon: usize,
    nmeas: usize,
    b: (usize, usize),
    c: (usize, usize),
    d: (usize, usize),
    tu: (usize, usize),
    ty: (usize, usize),
    rcond_len: usize,
) -> (r: Option<i32>)
    ensures
        r == if b.0 != n || b.1 != m {
            Some(-7i32)
        } else if c.0 != np || c.1 != n {
            Some(-9i32)
        } else if d.0 != np || d.1 != m {
            Some(-11i32)
        } else if ncon > m || nmeas > np || np - nmeas < ncon || m - ncon < nmeas {
            Some(-5i32)
        } else if tu.0 != ncon || tu.1 != ncon {
            Some(-13i32)
        } else if ty.0 != nmeas || ty.1 != nmeas {
            Some(-15i32)
        } else if rcond_len < 2 {
            Some(-17i32)
        } else if n == 0 || ncon == 0 || nmeas == 0 {
            Some(0i32)
        } else {
            None
        },
{
    if b.0 != n || b.1 != m {
        return Some(-7);
    }
    if c.0 != np || c.1 != n {
        return Some(-9);
    }
    if d.0 != np || d.1 != m {
        return Some(-11);
    }
    if ncon > m || nmeas > np || np - nmeas < ncon || m - ncon < nmeas {
        return Some(-5);
    }
    if tu.0 != ncon || tu.1 != ncon {
        return Some(-13);
    }
    if ty.0 != nmeas || ty.1 != nmeas {
        return Some(-15);
    }
    if rcond_len < 2 {
        return Some(-17);
    }
    if n == 0 || ncon == 0 || nmeas == 0 {
        return Some(0);
    }
    None
}

} // verus!
