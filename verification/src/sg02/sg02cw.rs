//! SG02CW: options of the Riccati residual routine and the symmetric
//! completion of its stored triangles.

use vstd::prelude::*;
use crate::matrix::{Mat, is_symmetrized, symmetric_from_triangle};

verus! {

/// DICO: continuous or discrete.
#[derive(Clone, Copy, PartialEq, Eq, Structural)]
pub enum Dico {
    Continuous,
    Discrete,
}

/// JOB: compute R only, C only, both, or norms too.
#[derive(Clone, Copy, PartialEq, Eq, Structural)]
pub enum Job {
    Both,
    ROnly,
    COnly,
    Norms,
    RAndNorms,
}

/// JOBE: E general or identity.
#[derive(Clone, Copy, PartialEq, Eq, Structural)]
pub enum JobE {
    General,
    Identity,
}

/// FLAG: plus or minus in quadratic term.
#[derive(Clone, Copy, PartialEq, Eq, Structural)]
pub enum Flag {
    Plus,
    Minus,
}

/// JOBG: how quadratic term is given (G, D, F, or H,K).
#[derive(Clone, Copy, PartialEq, Eq, Structural)]
pub enum JobG {
    G,
    D,
    F,
    H,
}

/// UPLO: upper or lower triangle of symmetric matrices.
#[derive(Clone, Copy, PartialEq, Eq, Structural)]
pub enum Uplo {
    Upper,
    Lower,
}

/// TRANS: op(W) = W or W'.
#[derive(Clone, Copy, PartialEq, Eq, Structural)]
pub enum Trans {
    NoTrans,
    Trans,
}

/// The full n x n symmetric matrix whose triangle `uplo` is that of `a`.
pub fn sym_full<T: Copy>(n: usize, a: &Mat<T>, uplo: Uplo) -> (f: Mat<T>)
    requires
        n <= a.nr(),
        n <= a.nc(),
    ensures
        is_symmetrized(f, n as nat, *a, uplo == Uplo::Upper),
{
    symmetric_from_triangle(n, a, uplo == Uplo::Upper)
}

/// Which of the residual R and the closed-loop matrix C a JOB asks for.
pub open spec fn wanted_outputs(job: Job) -> (bool, bool) {
    match job {
        Job::ROnly | Job::RAndNorms => (true, false),
        Job::COnly => (false, true),
        Job::Both | Job::Norms => (true, true),
    }
}

/// A JOB asks for R exactly when it names R (Both, ROnly, RAndNorms, Norms),
/// for C exactly when it names C (Both, COnly, Norms), and always for at
/// least one of them.
pub proof fn lemma_wanted_outputs_named(job: Job)
    ensures
        wanted_outputs(job).0 <==> (job == Job::Both || job == Job::ROnly || job == Job::RAndNorms || job
            == Job::Norms),
        wanted_outputs(job).1 <==> (job == Job::Both || job == Job::COnly || job == Job::Norms),
        wanted_outputs(job).0 || wanted_outputs(job).1,
{
}

/// Which of the residual R and the closed-loop matrix C a JOB asks for:
/// (R wanted, C wanted).
pub fn outputs_of(job: Job) -> (r: (bool, bool))
    ensures
        r == wanted_outputs(job),
        r.0 <==> (job == Job::Both || job == Job::ROnly || job == Job::RAndNorms || job == Job::Norms),
        r.1 <==> (job == Job::Both || job == Job::COnly || job == Job::Norms),
{
    proof {
        lemma_wanted_outputs_named(job);
    }
    match job {
        Job::ROnly | Job::RAndNorms => (true, false),
        Job::COnly => (false, true),
        Job::Both | Job::Norms => (true, true),
    }
}


/// The checks SG02CW makes: with N = 0 it returns 0; -8 when A or X is not
/// N x N. `None` lets it go on.
pub fn sg02cw_screen(n: usize, a: (usize, usize), x: (usize, usize)) -> (res: Option<i32>)
    ensures
        res == if n == 0 {
            Some(0i32)
        } else if a.0 != n || a.1 != n || x.0 != n || x.1 != n {
            Some(-8i32)
        } else {
            None
        },
{
    if n == 0 {
        return Some(0);
    }
    if a.0 != n || a.1 != n || x.0 != n || x.1 != n {
        return Some(-8);
    }
    None
}

} // verus!
