//! SB10LD forms the closed-loop system of the plant P and the controller K.
//! This module holds the checks it makes on its arguments; the matrices are
//! computed in floating point.

use vstd::prelude::*;

verus! {

/// The checks SB10LD makes on the closed-loop matrices, in its order (each
/// shape is (rows, columns), M1 = M - NCON, NP1 = NP - NMEAS): -21 when AC
/// is not 2N x 2N, -23 when BC is not 2N x M1, -25 when CC is not NP1 x 2N,
/// -27 when DC is not NP1 x M1. `None` lets it go on.
pub fn sb10ld_screen(
    n: usize,
    m: usize,
    np: usize,
    ncon: usize,
    nmeas: usize,
    ac: (usize, usize),
    bc: (usize, usize),
    cc: (usize, usize),
    dc: (usize, usize),
) -> (r: Option<i32>)
    requires
        ncon <= m,
        nmeas <= np,
        2 * n <= usize::MAX,
    ensures
        r == if ac.0 != 2 * n || ac.1 != 2 * n {
            Some(-21i32)
        } else if bc.0 != 2 * n || bc.1 != m - ncon {
            Some(-23i32)
        } else if cc.0 != np - nmeas || cc.1 != 2 * n {
            Some(-25i32)
        } else if dc.0 != np - nmeas || dc.1 != m - ncon {
            Some(-27i32)
        } else {
            None
        },
{
    let m1 = m - ncon;
    let np1 = np - nmeas;
    let n2 = 2 * n;
    if ac.0 != n2 || ac.1 != n2 {
        return Some(-21);
    }
    if bc.0 != n2 || bc.1 != m1 {
        return Some(-23);
    }
    if cc.0 != np1 || cc.1 != n2 {
        return Some(-25);
    }
    if dc.0 != np1 || dc.1 != m1 {
        return Some(-27);
    }
    None
}

} // verus!
