//! SG02ND: options of the optimal state feedback routine for descriptor
//! systems.

use vstd::prelude::*;

verus! {

/// Uplo: which triangle of R is stored.
#[derive(Clone, Copy, PartialEq, Eq, Structural)]
pub enum Uplo {
    Upper,
    Lower,
}

/// FACT: how R is given.
#[derive(Clone, Copy, PartialEq, Eq, Structural)]
pub enum Fact {
    /// R is full symmetric (one triangle stored).
    NotFactored,
    /// R = D'*D, array R contains P×M matrix D.
    FactoredD,
    /// R is Cholesky factor.
    Cholesky,
    /// R is UdU' or LdL' (indefinite).
    UdUorLdL,
}

/// JOB: what to compute.
#[derive(Clone, Copy, PartialEq, Eq, Structural)]
pub enum Job {
    /// K only.
    K,
    /// H and K.
    H,
    /// F if possible (F*C = H), else H and K.
    F,
    /// H and K when B,L transformed (SB02MT/SB02MX); R contains Cholesky of R+B'XB.
    D,
    /// F when B,L transformed.
    C,
}

/// JOBE: E general or identity.
#[derive(Clone, Copy, PartialEq, Eq, Structural)]
pub enum JobE {
    General,
    Identity,
}

/// JOBL: L zero or nonzero.
#[derive(Clone, Copy, PartialEq, Eq, Structural)]
pub enum JobL {
    Zero,
    Nonzero,
}

/// TRANS: op(W) = W or W'.
#[derive(Clone, Copy, PartialEq, Eq, Structural)]
pub enum Trans {
    NoTrans,
    Trans,
}


/// The DICO code of SG02ND names continuous time ('C' or 'c').
pub open spec fn is_continuous_code(dico: char) -> bool {
    dico == 'C' || dico == 'c'
}

/// The checks SG02ND makes before forming the gain, in its order (each
/// shape is (rows, columns)): with N = 0 or M = 0 it returns 0 (OUFACT
/// zeroed); -18 when B is not N x M, -22 when R is smaller than M x M, -28
/// when X is not N x N, -31 when K is smaller than M x N, -26 when L is
/// nonzero (JOBL = N) but missing or not N x M; for continuous time with a
/// general E, -2 when E is missing. `None` lets it go on.
pub fn sg02nd_screen(
    dico: char,
    jobe: JobE,
    jobl: JobL,
    n: usize,
    m: usize,
    b: (usize, usize),
    r: (usize, usize),
    x: (usize, usize),
    k: (usize, usize),
    l: Option<(usize, usize)>,
    e_given: bool,
) -> (res: Option<i32>)
    ensures
        res == if n == 0 || m == 0 {
            Some(0i32)
        } else if b.0 != n || b.1 != m {
            Some(-18i32)
        } else if r.0 < m || r.1 < m {
            Some(-22i32)
        } else if x.0 != n || x.1 != n {
            Some(-28i32)
        } else if k.0 < m || k.1 < n {
            Some(-31i32)
        } else if jobl == JobL::Nonzero && (l is None || l.unwrap().0 != n || l.unwrap().1 != m) {
            Some(-26i32)
        } else if is_continuous_code(dico) && jobe != JobE::Identity && !e_given {
            Some(-2i32)
        } else {
            None
        },
{
    if n == 0 || m == 0 {
        return Some(0);
    }
    if b.0 != n || b.1 != m {
        return Some(-18);
    }
    if r.0 < m || r.1 < m {
        return Some(-22);
    }
    if x.0 != n || x.1 != n {
        return Some(-28);
    }
    if k.0 < m || k.1 < n {
        return Some(-31);
    }
    match jobl {
        JobL::Nonzero => {
            match l {
                Some((lr, lc)) => {
                    if lr != n || lc != m {
                        return Some(-26);
                    }
                },
                None => {
                    return Some(-26);
                },
            }
        },
        JobL::Zero => {},
    }
    if dico == 'C' || dico == 'c' {
        match jobe {
            JobE::Identity => {},
            JobE::General => {
                if !e_given {
                    return Some(-2);
                }
            },
        }
    }
    None
}

} // verus!
