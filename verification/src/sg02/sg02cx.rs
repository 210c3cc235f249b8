//! SG02CX: options of the Riccati line search and the symmetric completion
//! of its stored triangles.

use vstd::prelude::*;
use crate::matrix::{Mat, is_symmetrized, symmetric_from_triangle};

verus! {

/// JOBE: E general or identity.
#[derive(Clone, Copy, PartialEq, Eq, Structural)]
pub enum JobE {
    General,
    Identity,
}

/// FLAG: plus or minus in quadratic term.
#[derive(Clone, Copy, PartialEq, Eq, Structural)]
pub enum Flag {
    Plus,
    Minus,
}

/// JOBG: how V is defined (G, D, F, or H,K).
#[derive(Clone, Copy, PartialEq, Eq, Structural)]
pub enum JobG {
    G,
    D,
    F,
    H,
}

/// UPLO: upper or lower triangle of symmetric matrices.
#[derive(Clone, Copy, PartialEq, Eq, Structural)]
pub enum Uplo {
    Upper,
    Lower,
}

/// TRANS: op(W) = W or W'.
#[derive(Clone, Copy, PartialEq, Eq, Structural)]
pub enum Trans {
    NoTrans,
    Trans,
}

/// The full n x n symmetric matrix whose triangle `uplo` is that of `a`.
pub fn sym_full_from_tri<T: Copy>(n: usize, a: &Mat<T>, uplo: Uplo) -> (f: Mat<T>)
    requires
        n <= a.nr(),
        n <= a.nc(),
    ensures
        is_symmetrized(f, n as nat, *a, uplo == Uplo::Upper),
{
    symmetric_from_triangle(n, a, uplo == Uplo::Upper)
}

} // verus!
