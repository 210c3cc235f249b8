//! SB16CY computes the Cholesky factors of the Grammians of the coprime
//! factors of a state-feedback controller. This module holds its option codes
//! and the checks it makes on its arguments; the Grammians are computed in
//! floating point.

use vstd::prelude::*;
use crate::sb16::workspace::{grammian_lwork, grammian_lwork_fits, grammian_lwork_exec, stein_lwork, stein_lwork_fits, stein_lwork_exec};

verus! {

/// Continuous ('C') or discrete ('D') time.
#[derive(Clone, Copy, PartialEq, Eq, Structural)]
pub enum Dico {
    Continuous,
    Discrete,
}

/// Left ('L') or right ('R') coprime factorization.
#[derive(Clone, Copy, PartialEq, Eq, Structural)]
pub enum Jobcf {
    Left,
    Right,
}


/// A is N x N, B is N x M, C is P x N, F is M x N, G is N x P, S and R are
/// N x N.
pub open spec fn sb16cy_shapes_ok(
    n: usize,
    m: usize,
    p: usize,
    a: (usize, usize),
    b: (usize, usize),
    c: (usize, usize),
    f: (usize, usize),
    g: (usize, usize),
    s: (usize, usize),
    r: (usize, usize),
) -> bool {
    a.0 == n && a.1 == n && b.0 == n && b.1 == m && c.0 == p && c.1 == n && f.0 == m && f.1 == n && g.0 == n
        && g.1 == p && s.0 == n && s.1 == n && r.0 == n && r.1 == n
}

/// The checks SB16CY makes before forming the Grammians, in its order (each
/// shape is (rows, columns)): with N = 0 it returns 0; -1 when A is not
/// N x N, B not N x M, C not P x N, F not M x N, G not N x P, S or R not
/// N x N; -2 when DWORK is shorter than `grammian_lwork(N, M, P)` or, for
/// discrete time, than `stein_lwork(N)`. `None` lets it go on.
pub fn sb16cy_screen(
    dico: Dico,
    n: usize,
    m: usize,
    p: usize,
    a: (usize, usize),
    b: (usize, usize),
    c: (usize, usize),
    f: (usize, usize),
    g: (usize, usize),
    s: (usize, usize),
    r: (usize, usize),
    dwork_len: usize,
) -> (res: Option<i32>)
    requires
        n != 0 && sb16cy_shapes_ok(n, m, p, a, b, c, f, g, s, r) ==> grammian_lwork_fits(n as int, m as int, p as int),
        n != 0 && sb16cy_shapes_ok(n, m, p, a, b, c, f, g, s, r) && dico == Dico::Discrete && dwork_len
            >= grammian_lwork(n as int, m as int, p as int) ==> stein_lwork_fits(n as int),
    ensures
        res == if n == 0 {
            Some(0i32)
        } else if !sb16cy_shapes_ok(n, m, p, a, b, c, f, g, s, r) {
            Some(-1i32)
        } else if dwork_len < grammian_lwork(n as int, m as int, p as int) {
            Some(-2i32)
        } else if dico == Dico::Discrete && dwork_len < stein_lwork(n as int) {
            Some(-2i32)
        } else {
            None
        },
{
    if n == 0 {
        return Some(0);
    }
    if a.0 != n || a.1 != n || b.0 != n || b.1 != m || c.0 != p || c.1 != n || f.0 != m || f.1 != n || g.0 != n
        || g.1 != p || s.0 != n || s.1 != n || r.0 != n || r.1 != n {
        return Some(-1);
    }
    if dwork_len < grammian_lwork_exec(n, m, p) {
        return Some(-2);
    }
    match dico {
        Dico::Discrete => {
            if dwork_len < stein_lwork_exec(n) {
                return Some(-2);
            }
        },
        Dico::Continuous => {},
    }
    None
}

} // verus!
