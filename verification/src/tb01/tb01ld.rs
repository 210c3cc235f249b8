//! TB01LD reduces A to ordered real Schur form, the leading block holding the
//! eigenvalues in a given domain. This module holds its option codes, the
//! checks it makes on its arguments and how the leading order is counted; the
//! reduction works in floating point.

use vstd::prelude::*;
use crate::select::{indices_where, collect_indices};

verus! {

/// Continuous or discrete time.
#[derive(Clone, Copy, PartialEq, Eq, Structural)]
pub enum Dico {
    Continuous,
    Discrete,
}

/// Stability or instability domain.
#[derive(Clone, Copy, PartialEq, Eq, Structural)]
pub enum StDom {
    /// Stable: Re(λ) < α (C) or |λ| < α (D).
    Stable,
    /// Unstable: Re(λ) > α (C) or |λ| > α (D).
    Unstable,
}

/// A shape on entry.
#[derive(Clone, Copy, PartialEq, Eq, Structural)]
pub enum JobA {
    /// A is already in real Schur form.
    Schur,
    /// A is general.
    General,
}


/// The checks TB01LD makes before the ordered Schur reduction, in its order:
/// -6 when A is not square or B, C do not fit it, -14 when U is not N x N or
/// WR, WI are shorter than N; with N = 0 it returns 0 (NDIM becomes 0).
/// `None` lets the reduction go on.
pub fn tb01ld_screen(
    a_rows: usize,
    a_cols: usize,
    b_rows: usize,
    c_cols: usize,
    u_rows: usize,
    u_cols: usize,
    wr_len: usize,
    wi_len: usize,
) -> (r: Option<i32>)
    ensures
        r == if a_cols != a_rows || b_rows != a_rows || c_cols != a_rows {
            Some(-6i32)
        } else if u_rows != a_rows || u_cols != a_rows || wr_len < a_rows || wi_len < a_rows {
            Some(-14i32)
        } else if a_rows == 0 {
            Some(0i32)
        } else {
            None
        },
{
    let n = a_rows;
    if a_cols != n || b_rows != n || c_cols != n {
        return Some(-6);
    }
    if u_rows != n || u_cols != n || wr_len < n || wi_len < n {
        return Some(-14);
    }
    if n == 0 {
        return Some(0);
    }
    None
}

/// NDIM: how many eigenvalues lie in the wanted domain, `in_domain[i]`
/// telling it of the i-th.
pub fn tb01ld_ndim(in_domain: &Vec<bool>) -> (ndim: usize)
    ensures
        ndim == indices_where(in_domain@, true, in_domain@.len() as int).len(),
{
    let picked = collect_indices(in_domain, true);
    picked.len()
}

} // verus!
