//! TB01PD computes a minimal, controllable or observable block Hessenberg
//! realization. This module holds its option codes and the checks it makes on
//! its arguments; the reduction works in floating point.

use vstd::prelude::*;

verus! {

#[derive(Clone, Copy, PartialEq, Eq, Structural)]
pub enum Tb01PdJob {
    /// Minimal (remove uncontrollable and unobservable).
    Minimal,
    /// Controllable only.
    Controllable,
    /// Observable only.
    Observable,
}

#[derive(Clone, Copy, PartialEq, Eq, Structural)]
pub enum Equil {
    Scale,
    No,
}


impl Tb01PdJob {
    /// Whether the controllable part is extracted, and whether the
    /// observable part is.
    pub fn phases(self) -> (r: (bool, bool))
        ensures
            r.0 == (self == Tb01PdJob::Minimal || self == Tb01PdJob::Controllable),
            r.1 == (self == Tb01PdJob::Minimal || self == Tb01PdJob::Observable),
    {
        match self {
            Tb01PdJob::Minimal => (true, true),
            Tb01PdJob::Controllable => (true, false),
            Tb01PdJob::Observable => (false, true),
        }
    }
}

/// The checks TB01PD makes before the reduction, in its order: -5 when A is
/// not square or B, C do not fit it; with N = 0 it returns 0 (NR = 0).
/// `None` lets the reduction go on.
pub fn tb01pd_screen(a_rows: usize, a_cols: usize, b_rows: usize, c_cols: usize) -> (r: Option<i32>)
    ensures
        r == if a_cols != a_rows || b_rows != a_rows || c_cols != a_rows {
            Some(-5i32)
        } else if a_rows == 0 {
            Some(0i32)
        } else {
            None
        },
{
    let n = a_rows;
    if a_cols != n || b_rows != n || c_cols != n {
        return Some(-5);
    }
    if n == 0 {
        return Some(0);
    }
    None
}

} // verus!
