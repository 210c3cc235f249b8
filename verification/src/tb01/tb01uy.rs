//! TB01UY computes a controllable realization for B = [B1, B2]. This module
//! holds the checks it makes on its arguments; the reduction works in floating
//! point.

use vstd::prelude::*;
use crate::tb01::tb01ud::JobZ;

verus! {

/// The checks TB01UY makes before handing the system to TB01UD: -6 when A
/// is not square or B, C do not fit it. `None` lets it go on.
pub fn tb01uy_screen(a_rows: usize, a_cols: usize, b_rows: usize, c_cols: usize) -> (r: Option<i32>)
    ensures
        r == if a_cols != a_rows || b_rows != a_rows || c_cols != a_rows {
            Some(-6i32)
        } else {
            None
        },
{
    let n = a_rows;
    if a_cols != n || b_rows != n || c_cols != n {
        return Some(-6);
    }
    None
}

/// The TB01UD option that TB01UY hands on: Z is initialized only for
/// JOBZ = I; the factored form is not kept.
pub fn tb01uy_staircase_job(jobz: JobZ) -> (r: JobZ)
    ensures
        r == (if jobz == JobZ::Init {
            JobZ::Init
        } else {
            JobZ::No
        }),
{
    match jobz {
        JobZ::Init => JobZ::Init,
        _ => JobZ::No,
    }
}

} // verus!
