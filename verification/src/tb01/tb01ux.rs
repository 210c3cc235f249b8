//! TB01UX separates the observable part of (A, B, C) from the unobservable
//! one. This module holds its option code and the checks it makes on its
//! arguments; the reduction works in floating point.

use vstd::prelude::*;
use crate::tb01::tb01ud::JobZ;

verus! {

#[derive(Clone, Copy, PartialEq, Eq, Structural)]
pub enum CompZ {
    No,
    Init,
}


/// The checks TB01UX makes before the reduction, in its order: -5 when A is
/// not square or B, C do not fit it; with N = 0 it returns 0 (NOBSV and
/// NLBLCK become 0). `None` lets the reduction go on (on the dual system).
pub fn tb01ux_screen(a_rows: usize, a_cols: usize, b_rows: usize, c_cols: usize) -> (r: Option<i32>)
    ensures
        r == if a_cols != a_rows || b_rows != a_rows || c_cols != a_rows {
            Some(-5i32)
        } else if a_rows == 0 {
            Some(0i32)
        } else {
            None
        },
{
    let n = a_rows;
    if a_cols != n || b_rows != n || c_cols != n {
        return Some(-5);
    }
    if n == 0 {
        return Some(0);
    }
    None
}

impl CompZ {
    /// The TB01UD option that TB01UX hands on for the dual system.
    pub fn staircase_job(self) -> (r: JobZ)
        ensures
            r == (if self == CompZ::Init {
                JobZ::Init
            } else {
                JobZ::No
            }),
    {
        match self {
            CompZ::Init => JobZ::Init,
            CompZ::No => JobZ::No,
        }
    }
}

} // verus!
