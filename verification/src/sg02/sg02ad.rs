//! SG02AD: options of the descriptor Riccati solver, the symmetric
//! completion of its stored triangles, and the ordering of the eigenvalues
//! of the extended pencil.

use vstd::prelude::*;
use crate::matrix::{Mat, is_symmetrized, symmetric_from_triangle};
use crate::select::{class_first_order, class_order};

verus! {

/// DICO: continuous or discrete.
#[derive(Clone, Copy, PartialEq, Eq, Structural)]
pub enum Dico {
    Continuous,
    Discrete,
}

/// JOBB: B and R given, or G = B*R^{-1}*B' given.
#[derive(Clone, Copy, PartialEq, Eq, Structural)]
pub enum Jobb {
    B,
    G,
}

/// UPLO: upper or lower triangle of symmetric matrices.
#[derive(Clone, Copy, PartialEq, Eq, Structural)]
pub enum Uplo {
    Upper,
    Lower,
}

/// SORT: stable or unstable eigenvalues first.
#[derive(Clone, Copy, PartialEq, Eq, Structural)]
pub enum Sort {
    StableFirst,
    UnstableFirst,
}

/// The full n x n symmetric matrix whose triangle `uplo` is that of `a`.
pub fn sym_full<T: Copy>(n: usize, a: &Mat<T>, uplo: Uplo) -> (f: Mat<T>)
    requires
        n <= a.nr(),
        n <= a.nc(),
    ensures
        is_symmetrized(f, n as nat, *a, uplo == Uplo::Upper),
{
    symmetric_from_triangle(n, a, uplo == Uplo::Upper)
}

/// The order in which the eigenvalues of the extended pencil are taken:
/// `stable[i]` tells whether eigenvalue i lies in the stability region;
/// the indices of the class that `sort` names come first, each class in
/// increasing order.
pub fn eigenvalue_order(stable: &Vec<bool>, sort: Sort) -> (order: Vec<usize>)
    ensures
        order@ == class_order(stable@, sort == Sort::StableFirst),
{
    class_first_order(stable, sort == Sort::StableFirst)
}


/// The checks SG02AD makes before building the extended pencil, in its
/// order (each shape is (rows, columns)): with N = 0 it returns 0; -10 when
/// A or E is not N x N, -17 when Q is not N x N, -22 when X is not N x N;
/// with B and R given (JOBB = B), 1 when M = 0 and -20 when R is missing.
/// `None` lets it go on.
pub fn sg02ad_screen(
    jobb: Jobb,
    n: usize,
    m: usize,
    a: (usize, usize),
    e: (usize, usize),
    q: (usize, usize),
    x: (usize, usize),
    r_given: bool,
) -> (res: Option<i32>)
    ensures
        res == if n == 0 {
            Some(0i32)
        } else if a.0 != n || a.1 != n || e.0 != n || e.1 != n {
            Some(-10i32)
        } else if q.0 != n || q.1 != n {
            Some(-17i32)
        } else if x.0 != n || x.1 != n {
            Some(-22i32)
        } else if jobb == Jobb::B && m == 0 {
            Some(1i32)
        } else if jobb == Jobb::B && !r_given {
            Some(-20i32)
        } else {
            None
        },
{
    if n == 0 {
        return Some(0);
    }
    if a.0 != n || a.1 != n || e.0 != n || e.1 != n {
        return Some(-10);
    }
    if q.0 != n || q.1 != n {
        return Some(-17);
    }
    if x.0 != n || x.1 != n {
        return Some(-22);
    }
    match jobb {
        Jobb::B => {
            if m == 0 {
                return Some(1);
            }
            if !r_given {
                return Some(-20);
            }
        },
        Jobb::G => {},
    }
    None
}

} // verus!
