//! TB01IZ balances a complex system (A, B, C) by a real diagonal similarity.
//! This module holds its option code and the checks it makes on its arguments;
//! the balancing itself works in floating point.

use vstd::prelude::*;

verus! {

/// Which matrices are involved in balancing (same as TB01ID).
#[derive(Clone, Copy, PartialEq, Eq, Structural)]
pub enum Tb01IzJob {
    All,
    B,
    C,
    N,
}


impl Tb01IzJob {
    /// Whether B, and whether C, take part in the balancing.
    pub fn involves(self) -> (r: (bool, bool))
        ensures
            r.0 == (self == Tb01IzJob::All || self == Tb01IzJob::B),
            r.1 == (self == Tb01IzJob::All || self == Tb01IzJob::C),
    {
        match self {
            Tb01IzJob::All => (true, true),
            Tb01IzJob::B => (true, false),
            Tb01IzJob::C => (false, true),
            Tb01IzJob::N => (false, false),
        }
    }
}

/// The checks TB01IZ makes before balancing, in its order: -6 when A is not
/// square or B, C do not fit it, -11 when SCALE is shorter than N; with
/// N = 0 it returns 0 (MAXRED becomes 1). `None` lets the balancing go on.
pub fn tb01iz_screen(a_rows: usize, a_cols: usize, b_rows: usize, c_cols: usize, scale_len: usize) -> (r: Option<
    i32,
>)
    ensures
        r == if a_cols != a_rows || b_rows != a_rows || c_cols != a_rows {
            Some(-6i32)
        } else if scale_len < a_rows {
            Some(-11i32)
        } else if a_rows == 0 {
            Some(0i32)
        } else {
            None
        },
{
    let n = a_rows;
    if a_cols != n || b_rows != n || c_cols != n {
        return Some(-6);
    }
    if scale_len < n {
        return Some(-11);
    }
    if n == 0 {
        return Some(0);
    }
    None
}

} // verus!
