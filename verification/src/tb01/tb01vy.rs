//! TB01VY converts a parameter vector THETA back to a state-space system.
//! This module holds its option code, the layout of THETA and the reading of
//! B, D and x0 out of it; building A and C from the output normal form part
//! of THETA works in floating point and is not done here.

use vstd::prelude::*;
use crate::matrix::Mat;

verus! {

#[derive(Clone, Copy, PartialEq, Eq, Structural)]
pub enum Apply {
    Apply,
    No,
}

/// Length of the parameter vector THETA for order N, L outputs, M inputs.
pub open spec fn theta_len(n: int, l: int, m: int) -> int {
    n * (l + m + 1) + l * m
}

/// The value TB01VY returns for the given shapes: -5 when A is not N x N,
/// B not N x M, C not L x N, D not L x M, or THETA or X0 too short; else 0.
pub open spec fn tb01vy_info(
    a_rows: nat,
    a_cols: nat,
    b_rows: nat,
    b_cols: nat,
    c_rows: nat,
    c_cols: nat,
    d_rows: nat,
    d_cols: nat,
    theta_len_given: nat,
    x0_len: nat,
) -> int {
    let n = a_rows as int;
    let m = b_cols as int;
    let l = c_rows as int;
    if a_cols != n || b_rows != n || c_cols != n || d_rows != l || d_cols != m {
        -5
    } else if theta_len_given < theta_len(n, l, m) || x0_len < n {
        -5
    } else {
        0
    }
}

/// Where THETA keeps B(i, j), D(i, j) and X0(i) (after the N*L leading
/// entries): B row by row, then D row by row, then X0.
pub open spec fn theta_b_index(n: int, l: int, m: int, i: int, j: int) -> int {
    n * l + i * m + j
}

pub open spec fn theta_d_index(n: int, l: int, m: int, i: int, j: int) -> int {
    n * l + n * m + i * m + j
}

pub open spec fn theta_x0_index(n: int, l: int, m: int, i: int) -> int {
    n * l + n * m + l * m + i
}

/// THETA holds the N x M matrix `b` at the places of B.
pub open spec fn theta_holds_b<T>(theta: Seq<T>, n: int, l: int, m: int, b: Mat<T>) -> bool {
    forall|i: int, j: int| 0 <= i < n && 0 <= j < m ==> #[trigger] b.at(i, j) == theta[theta_b_index(n, l, m, i, j)]
}

/// THETA holds the L x M matrix `d` at the places of D.
pub open spec fn theta_holds_d<T>(theta: Seq<T>, n: int, l: int, m: int, d: Mat<T>) -> bool {
    forall|i: int, j: int| 0 <= i < l && 0 <= j < m ==> #[trigger] d.at(i, j) == theta[theta_d_index(n, l, m, i, j)]
}

/// THETA holds the first N entries of `x0` at the places of X0.
pub open spec fn theta_holds_x0<T>(theta: Seq<T>, n: int, l: int, m: int, x0: Seq<T>) -> bool {
    forall|i: int| 0 <= i < n ==> #[trigger] x0[i] == theta[theta_x0_index(n, l, m, i)]
}

pub proof fn lemma_theta_indices(n: int, l: int, m: int)
    requires
        0 <= n,
        0 <= l,
        0 <= m,
    ensures
        forall|i: int, j: int| 0 <= i < n && 0 <= j < m ==> n * l <= #[trigger] theta_b_index(n, l, m, i, j)
            < n * l + n * m,
        forall|i: int, j: int| 0 <= i < l && 0 <= j < m ==> n * l + n * m <= #[trigger] theta_d_index(n, l, m, i, j)
            < n * l + n * m + l * m,
        forall|i: int| 0 <= i < n ==> n * l + n * m + l * m <= #[trigger] theta_x0_index(n, l, m, i) < theta_len(n, l, m),
        theta_len(n, l, m) == n * l + n * m + l * m + n,
{
    assert(theta_len(n, l, m) == n * l + n * m + l * m + n) by (nonlinear_arith);
    assert forall|i: int, j: int| 0 <= i < n && 0 <= j < m implies n * l <= #[trigger] theta_b_index(n, l, m, i, j)
        < n * l + n * m by {
        assert(i * m + j < n * m) by (nonlinear_arith)
            requires
                0 <= i < n,
                0 <= j < m,
        ;
        assert(0 <= i * m) by (nonlinear_arith)
            requires
                0 <= i,
                0 <= m,
        ;
    }
    assert forall|i: int, j: int| 0 <= i < l && 0 <= j < m implies n * l + n * m <= #[trigger] theta_d_index(
        n,
        l,
        m,
        i,
        j,
    ) < n * l + n * m + l * m by {
        assert(i * m + j < l * m) by (nonlinear_arith)
            requires
                0 <= i < l,
                0 <= j < m,
        ;
        assert(0 <= i * m) by (nonlinear_arith)
            requires
                0 <= i,
                0 <= m,
        ;
    }
}

proof fn lemma_theta_terms_bounded(n: int, l: int, m: int)
    requires
        0 <= n,
        0 <= l,
        0 <= m,
    ensures
        n * l + n * m + l * m + n == theta_len(n, l, m),
        0 <= n * l,
        0 <= n * m,
        0 <= l * m,
{
    assert(n * l + n * m + l * m + n == theta_len(n, l, m)) by (nonlinear_arith);
    assert(0 <= n * l) by (nonlinear_arith)
        requires
            0 <= n,
            0 <= l,
    ;
    assert(0 <= n * m) by (nonlinear_arith)
        requires
            0 <= n,
            0 <= m,
    ;
    assert(0 <= l * m) by (nonlinear_arith)
        requires
            0 <= l,
            0 <= m,
    ;
}

/// Fills rows `0..rows` of the `rows` x `cols` matrix `dst` from THETA,
/// starting at `start` and going row by row.
fn fill_from_theta<T: Copy>(dst: &mut Mat<T>, theta: &Vec<T>, start: usize, rows: usize, cols: usize)
    requires
        old(dst).nr() == rows,
        old(dst).nc() == cols,
        start + rows * cols <= theta@.len(),
    ensures
        final(dst).nr() == rows,
        final(dst).nc() == cols,
        forall|i: int, j: int| 0 <= i < rows && 0 <= j < cols ==> #[trigger] final(dst).at(i, j) == theta@[start + i * cols + j],
{
    let tl = theta.len();
    let mut i: usize = 0;
    while i < rows
        invariant
            i <= rows,
            tl == theta@.len(),
            start + rows * cols <= theta@.len(),
            dst.nr() == rows,
            dst.nc() == cols,
            forall|r: int, c: int| 0 <= r < i && 0 <= c < cols ==> #[trigger] dst.at(r, c) == theta@[start + r * cols + c],
        decreases rows - i,
    {
        let mut j: usize = 0;
        while j < cols
            invariant
                i < rows,
                j <= cols,
                tl == theta@.len(),
                start + rows * cols <= theta@.len(),
                dst.nr() == rows,
                dst.nc() == cols,
                forall|r: int, c: int|
                    0 <= r < i && 0 <= c < cols ==> #[trigger] dst.at(r, c) == theta@[start + r * cols + c],
                forall|c: int| 0 <= c < j ==> #[trigger] dst.at(i as int, c) == theta@[start + i * cols + c],
            decreases cols - j,
        {
            proof {
                assert(i * cols + j < rows * cols) by (nonlinear_arith)
                    requires
                        i < rows,
                        j < cols,
                ;
            }
            let v = theta[start + i * cols + j];
            dst.set(i, j, v);
            j = j + 1;
        }
        i = i + 1;
    }
}

/// Reads B, D and X0 of TB01VY out of THETA, after its N*L leading
/// entries (B row by row, then D row by row, then X0), for a system of
/// order N = `n` with L = `l` outputs. The leading entries, from which A and
/// C are built, are left to the caller.
///
/// Returns 0 on success, -5 (changing nothing) when B is not N x M, D not
/// L x M, or THETA or X0 is too short.
pub fn tb01vy_read<T: Copy>(n: usize, l: usize, theta: &Vec<T>, b: &mut Mat<T>, d: &mut Mat<T>, x0: &mut Vec<T>) -> (info: i32)
    requires
        old(b).nr() == n && old(d).nr() == l && old(d).nc() == old(b).nc() ==> theta_len(
            n as int,
            l as int,
            old(b).nc() as int,
        ) <= usize::MAX,
    ensures
        info == tb01vy_info(
            n as nat,
            n as nat,
            old(b).nr(),
            old(b).nc(),
            l as nat,
            n as nat,
            old(d).nr(),
            old(d).nc(),
            theta@.len(),
            old(x0)@.len(),
        ),
        final(b).nr() == old(b).nr() && final(b).nc() == old(b).nc(),
        final(d).nr() == old(d).nr() && final(d).nc() == old(d).nc(),
        final(x0)@.len() == old(x0)@.len(),
        info != 0 ==> *final(b) == *old(b) && *final(d) == *old(d) && final(x0)@ == old(x0)@,
        info == 0 ==> ({
            let m = old(b).nc() as int;
            &&& theta_holds_b(theta@, n as int, l as int, m, *final(b))
            &&& theta_holds_d(theta@, n as int, l as int, m, *final(d))
            &&& theta_holds_x0(theta@, n as int, l as int, m, final(x0)@)
            &&& forall|i: int| n <= i < old(x0)@.len() ==> #[trigger] final(x0)@[i] == old(x0)@[i]
        }),
{
    let m = b.ncols();
    if b.nrows() != n || d.nrows() != l || d.ncols() != m {
        return -5;
    }
    proof {
        lemma_theta_indices(n as int, l as int, m as int);
        lemma_theta_terms_bounded(n as int, l as int, m as int);
    }
    let nl = n * l;
    let nm = n * m;
    let lm = l * m;
    let ltheta = nl + nm + lm + n;
    if theta.len() < ltheta || x0.len() < n {
        return -5;
    }
    fill_from_theta(b, theta, nl, n, m);
    fill_from_theta(d, theta, nl + nm, l, m);
    let ghost x00 = x0@;
    let start = nl + nm + lm;
    let tl = theta.len();
    let mut k: usize = 0;
    while k < n
        invariant
            k <= n,
            tl == theta@.len(),
            start + n <= tl,
            n <= x0@.len(),
            x0@.len() == x00.len(),
            start == n * l + n * m + l * m,
            start + n <= theta@.len(),
            forall|t: int| 0 <= t < k ==> #[trigger] x0@[t] == theta@[start + t],
            forall|t: int| k <= t < x0@.len() ==> #[trigger] x0@[t] == x00[t],
        decreases n - k,
    {
        let v = theta[start + k];
        x0.set(k, v);
        k = k + 1;
    }
    0
}

} // verus!
