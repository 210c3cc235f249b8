//! TB01ZD reduces a single-input system to orthogonal canonical form. This
//! module holds its option code, the checks it makes on its arguments and the
//! limit on the controllable order; the reduction works in floating point.

use vstd::prelude::*;
use crate::tb01::tb01md::given_but_not_square;

verus! {

#[derive(Clone, Copy, PartialEq, Eq, Structural)]
pub enum JobZ {
    No,
    Factored,
    Init,
}


/// The checks TB01ZD makes before the reduction, in its order: -5 when A is
/// not square or B, C do not fit it, -11 when Z is needed (JOBZ = I or F)
/// but missing or not N x N, -12 when TAU is shorter than N; with N = 0 it
/// returns 0 (NCONT = 0). `None` lets the reduction go on.
pub fn tb01zd_screen(
    jobz: JobZ,
    a_rows: usize,
    a_cols: usize,
    b_len: usize,
    c_cols: usize,
    z_shape: Option<(usize, usize)>,
    tau_len: usize,
) -> (r: Option<i32>)
    ensures
        r == if a_cols != a_rows || b_len != a_rows || c_cols != a_rows {
            Some(-5i32)
        } else if (jobz == JobZ::Init || jobz == JobZ::Factored) && (z_shape is None || given_but_not_square(
            z_shape,
            a_rows as nat,
        )) {
            Some(-11i32)
        } else if tau_len < a_rows {
            Some(-12i32)
        } else if a_rows == 0 {
            Some(0i32)
        } else {
            None
        },
{
    let n = a_rows;
    if a_cols != n || b_len != n || c_cols != n {
        return Some(-5);
    }
    let needs_z = match jobz {
        JobZ::No => false,
        _ => true,
    };
    if needs_z {
        match z_shape {
            None => {
                return Some(-11);
            },
            Some((zr, zc)) => {
                if zr != n || zc != n {
                    return Some(-11);
                }
            },
        }
    }
    if tau_len < n {
        return Some(-12);
    }
    if n == 0 {
        return Some(0);
    }
    None
}

/// The controllable order of TB01ZD: `small[j]` tells whether the
/// subdiagonal entry A(j+1, j) of the Hessenberg form is negligible; NCONT
/// is one more than the first such j, or than `small.len()` when none is.
pub fn tb01zd_ncont(small: &Vec<bool>) -> (ncont: usize)
    requires
        small@.len() < usize::MAX,
    ensures
        1 <= ncont <= small@.len() + 1,
        forall|t: int| 0 <= t < ncont - 1 ==> !#[trigger] small@[t],
        ncont - 1 == small@.len() || small@[ncont - 1],
{
    let mut j: usize = 0;
    while j < small.len()
        invariant
            j <= small@.len(),
            forall|t: int| 0 <= t < j ==> !#[trigger] small@[t],
        decreases small@.len() - j,
    {
        if small[j] {
            return j + 1;
        }
        j = j + 1;
    }
    j + 1
}

} // verus!
