//! TB01ND reduces the pair (A, C) to observer Hessenberg form. This module
//! holds the checks it makes on its arguments; the reduction works in floating
//! point.

use vstd::prelude::*;
use crate::tb01::tb01md::{JobU, Uplo, given_but_not_square};

verus! {

/// The checks TB01ND makes before the reduction, in its order: -5 when A is
/// not square or C has not N columns; -9 when U is needed (JOBU = I or U)
/// but missing, or given and not N x N; with N = 0 or P = 0 it returns 0; -2
/// for the lower form, which is not available. `None` lets the reduction go
/// on (on the transposed pair, through TB01MD).
pub fn tb01nd_screen(
    jobu: JobU,
    uplo: Uplo,
    a_rows: usize,
    a_cols: usize,
    c_rows: usize,
    c_cols: usize,
    u_shape: Option<(usize, usize)>,
) -> (r: Option<i32>)
    ensures
        r == if a_cols != a_rows || c_cols != a_rows {
            Some(-5i32)
        } else if (jobu == JobU::Init || jobu == JobU::Update) && u_shape is None {
            Some(-9i32)
        } else if given_but_not_square(u_shape, a_rows as nat) {
            Some(-9i32)
        } else if a_rows == 0 || c_rows == 0 {
            Some(0i32)
        } else if uplo != Uplo::Upper {
            Some(-2i32)
        } else {
            None
        },
{
    let n = a_rows;
    if a_cols != n || c_cols != n {
        return Some(-5);
    }
    if jobu.uses_u() && u_shape.is_none() {
        return Some(-9);
    }
    if let Some((ur, uc)) = u_shape {
        if ur != n || uc != n {
            return Some(-9);
        }
    }
    if n == 0 || c_rows == 0 {
        return Some(0);
    }
    if uplo != Uplo::Upper {
        return Some(-2);
    }
    None
}

} // verus!
