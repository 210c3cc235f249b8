//! TB01ID balances the system matrix S = [A B; C 0] by a diagonal similarity.
//! This module holds its option code and the checks it makes on its arguments;
//! the balancing itself works in floating point.

use vstd::prelude::*;

verus! {

/// Which matrices are involved in balancing.
#[derive(Clone, Copy, PartialEq, Eq, Structural)]
pub enum Tb01IdJob {
    /// All matrices (A, B, C) involved.
    All,
    /// B and A involved.
    B,
    /// C and A involved.
    C,
    /// Only A (B and C not involved).
    N,
}


impl Tb01IdJob {
    /// Whether B, and whether C, take part in the balancing.
    pub fn involves(self) -> (r: (bool, bool))
        ensures
            r.0 == (self == Tb01IdJob::All || self == Tb01IdJob::B),
            r.1 == (self == Tb01IdJob::All || self == Tb01IdJob::C),
    {
        match self {
            Tb01IdJob::All => (true, true),
            Tb01IdJob::B => (true, false),
            Tb01IdJob::C => (false, true),
            Tb01IdJob::N => (false, false),
        }
    }
}

/// The checks TB01ID makes before balancing, in its order: -6 when A is not
/// square, -8 when B has not N rows, -10 when C has not N columns, -11 when
/// SCALE is shorter than N; with N = 0 there is nothing to balance and it
/// returns 0 (MAXRED becomes 1). `None` lets the balancing go on.
pub fn tb01id_screen(a_rows: usize, a_cols: usize, b_rows: usize, c_cols: usize, scale_len: usize) -> (r: Option<
    i32,
>)
    ensures
        r == if a_cols != a_rows {
            Some(-6i32)
        } else if b_rows != a_rows {
            Some(-8i32)
        } else if c_cols != a_rows {
            Some(-10i32)
        } else if scale_len < a_rows {
            Some(-11i32)
        } else if a_rows == 0 {
            Some(0i32)
        } else {
            None
        },
{
    let n = a_rows;
    if a_cols != n {
        return Some(-6);
    }
    if b_rows != n {
        return Some(-8);
    }
    if c_cols != n {
        return Some(-10);
    }
    if scale_len < n {
        return Some(-11);
    }
    if n == 0 {
        return Some(0);
    }
    None
}

} // verus!
