//! TB01WX reduces A to upper Hessenberg form and applies the transformation to
//! B and C. This module holds its option code and the checks it makes on its
//! arguments; the reduction works in floating point.

use vstd::prelude::*;
use crate::tb01::tb01md::given_but_not_square;

verus! {

/// Whether to compute/update the transformation matrix U.
#[derive(Clone, Copy, PartialEq, Eq, Structural)]
pub enum CompU {
    /// Do not compute U.
    No,
    /// U = identity on entry; on exit U is the transformation matrix.
    Init,
    /// U contains U1 on entry; on exit U = U1*U (product).
    Update,
}


/// The checks TB01WX makes before the Hessenberg reduction, in its order: -5
/// when A is not square, -7 when B has not N rows or C not N columns, -11
/// when U is needed (COMPU = I or U) but missing, or given and not N x N;
/// with N <= 1 A is already upper Hessenberg and it returns 0. `None` lets
/// the reduction go on.
pub fn tb01wx_screen(
    compu: CompU,
    a_rows: usize,
    a_cols: usize,
    b_rows: usize,
    c_cols: usize,
    u_shape: Option<(usize, usize)>,
) -> (r: Option<i32>)
    ensures
        r == if a_cols != a_rows {
            Some(-5i32)
        } else if b_rows != a_rows || c_cols != a_rows {
            Some(-7i32)
        } else if (compu == CompU::Init || compu == CompU::Update) && u_shape is None {
            Some(-11i32)
        } else if given_but_not_square(u_shape, a_rows as nat) {
            Some(-11i32)
        } else if a_rows <= 1 {
            Some(0i32)
        } else {
            None
        },
{
    let n = a_rows;
    if a_cols != n {
        return Some(-5);
    }
    if b_rows != n || c_cols != n {
        return Some(-7);
    }
    let needs_u = match compu {
        CompU::No => false,
        _ => true,
    };
    if needs_u && u_shape.is_none() {
        return Some(-11);
    }
    if let Some((ur, uc)) = u_shape {
        if ur != n || uc != n {
            return Some(-11);
        }
    }
    if n <= 1 {
        return Some(0);
    }
    None
}

} // verus!
