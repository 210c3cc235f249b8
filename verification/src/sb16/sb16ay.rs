//! SB16AY computes the Cholesky factors of the frequency-weighted
//! controllability and observability Grammians for controller reduction. This
//! module holds its option codes and the checks it makes on its arguments; the
//! Grammians are computed in floating point.

use vstd::prelude::*;
use crate::sb16::workspace::{weighted_lwork, weighted_lwork_fits, weighted_lwork_exec, stein_lwork, stein_lwork_fits, stein_lwork_exec};

verus! {

/// Continuous ('C') or discrete ('D') time.
#[derive(Clone, Copy, PartialEq, Eq, Structural)]
pub enum Dico {
    Continuous,
    Discrete,
}

/// Controllability Grammian choice: 'S' standard Enns, 'E' stability-enhanced.
#[derive(Clone, Copy, PartialEq, Eq, Structural)]
pub enum Jobc {
    Standard,
    Enhanced,
}

/// Observability Grammian choice: 'S' standard Enns, 'E' stability-enhanced.
#[derive(Clone, Copy, PartialEq, Eq, Structural)]
pub enum Jobo {
    Standard,
    Enhanced,
}

/// Frequency weighting: 'N' none, 'O' left, 'I' right, 'P' both.
#[derive(Clone, Copy, PartialEq, Eq, Structural)]
pub enum Weight {
    NoWeight,
    Left,
    Right,
    Both,
}


/// AC is NC x NC, BC is NC x P, CC is M x NC, S and R are NCS x NCS.
pub open spec fn sb16ay_shapes_ok(
    m: usize,
    p: usize,
    nc: usize,
    ncs: usize,
    ac: (usize, usize),
    bc: (usize, usize),
    cc: (usize, usize),
    s: (usize, usize),
    r: (usize, usize),
) -> bool {
    ac.0 == nc && ac.1 == nc && bc.0 == nc && bc.1 == p && cc.0 == m && cc.1 == nc && s.0 == ncs && s.1 == ncs
        && r.0 == ncs && r.1 == ncs
}

/// SB16AY gets past its checks of shapes and orders.
pub open spec fn sb16ay_reaches_grammians(
    m: usize,
    p: usize,
    nc: usize,
    ncs: usize,
    ac: (usize, usize),
    bc: (usize, usize),
    cc: (usize, usize),
    s: (usize, usize),
    r: (usize, usize),
) -> bool {
    nc != 0 && ncs != 0 && ncs <= nc && sb16ay_shapes_ok(m, p, nc, ncs, ac, bc, cc, s, r)
}

/// The checks SB16AY makes before forming the Grammians, in its order (each
/// shape is (rows, columns)): with NC = 0 or NCS = 0 it returns 0; -10 when
/// NCS > NC; -1 when AC is not NC x NC, BC not NC x P, CC not M x NC, S or
/// R not NCS x NCS; with a frequency weight (not available) -27 when DWORK
/// is shorter than `weighted_lwork` (at least 1), else 1; for discrete time
/// -27 when DWORK is shorter than `stein_lwork(NCS)`. `None` lets it go on.
pub fn sb16ay_screen(
    dico: Dico,
    weight: Weight,
    n: usize,
    m: usize,
    p: usize,
    nc: usize,
    ncs: usize,
    ac: (usize, usize),
    bc: (usize, usize),
    cc: (usize, usize),
    s: (usize, usize),
    r: (usize, usize),
    dwork_len: usize,
) -> (res: Option<i32>)
    requires
        sb16ay_reaches_grammians(m, p, nc, ncs, ac, bc, cc, s, r) && weight != Weight::NoWeight
            ==> weighted_lwork_fits(n as int, m as int, p as int, nc as int),
        sb16ay_reaches_grammians(m, p, nc, ncs, ac, bc, cc, s, r) && weight == Weight::NoWeight && dico
            == Dico::Discrete ==> stein_lwork_fits(ncs as int),
    ensures
        res == if nc == 0 || ncs == 0 {
            Some(0i32)
        } else if ncs > nc {
            Some(-10i32)
        } else if !sb16ay_shapes_ok(m, p, nc, ncs, ac, bc, cc, s, r) {
            Some(-1i32)
        } else if weight != Weight::NoWeight {
            if dwork_len < weighted_lwork(n as int, m as int, p as int, nc as int) || dwork_len < 1 {
                Some(-27i32)
            } else {
                Some(1i32)
            }
        } else if dico == Dico::Discrete && dwork_len < stein_lwork(ncs as int) {
            Some(-27i32)
        } else {
            None
        },
{
    if nc == 0 || ncs == 0 {
        return Some(0);
    }
    if ncs > nc {
        return Some(-10);
    }
    if ac.0 != nc || ac.1 != nc || bc.0 != nc || bc.1 != p || cc.0 != m || cc.1 != nc || s.0 != ncs || s.1 != ncs
        || r.0 != ncs || r.1 != ncs {
        return Some(-1);
    }
    match weight {
        Weight::NoWeight => {},
        _ => {
            let lfreq = weighted_lwork_exec(n, m, p, nc);
            if dwork_len < lfreq || dwork_len < 1 {
                return Some(-27);
            }
            return Some(1);
        },
    }
    match dico {
        Dico::Discrete => {
            if dwork_len < stein_lwork_exec(ncs) {
                return Some(-27);
            }
        },
        Dico::Continuous => {},
    }
    None
}

} // verus!
