//! TB01VD converts a stable discrete-time system to output normal form and
//! its parameter vector THETA. This module holds its option code, the checks it
//! makes on its arguments and the layout of THETA; the conversion works in
//! floating point.

use vstd::prelude::*;
use crate::matrix::Mat;
use crate::tb01::tb01vy::{
    theta_len,
    theta_b_index,
    theta_d_index,
    theta_x0_index,
    theta_holds_b,
    theta_holds_d,
    theta_holds_x0,
    lemma_theta_indices,
};

verus! {

#[derive(Clone, Copy, PartialEq, Eq, Structural)]
pub enum Apply {
    Apply,
    No,
}

/// The early answer of TB01VD from the shapes alone: -5 when A is not N x N,
/// B has not N rows or C has not N columns; -14 when THETA is shorter than
/// N*(L+M+1)+L*M; -16 when X0 is shorter than N; otherwise none.
pub open spec fn tb01vd_screen_spec(
    a_rows: nat,
    a_cols: nat,
    b_rows: nat,
    b_cols: nat,
    c_rows: nat,
    c_cols: nat,
    theta_given: nat,
    x0_len: nat,
) -> Option<i32> {
    let n = a_rows as int;
    if a_cols != n || b_rows != n || c_cols != n {
        Some(-5i32)
    } else if theta_given < theta_len(n, c_rows as int, b_cols as int) {
        Some(-14i32)
    } else if x0_len < n {
        Some(-16i32)
    } else {
        None
    }
}

/// Checks the arguments of TB01VD in its order; `Some(info)` is the value it
/// returns at once, `None` lets the conversion go on.
pub fn tb01vd_screen(
    a_rows: usize,
    a_cols: usize,
    b_rows: usize,
    b_cols: usize,
    c_rows: usize,
    c_cols: usize,
    theta_given: usize,
    x0_len: usize,
) -> (r: Option<i32>)
    requires
        a_cols == a_rows && b_rows == a_rows && c_cols == a_rows ==> theta_len(a_rows as int, c_rows as int, b_cols as int)
            <= usize::MAX,
    ensures
        r == tb01vd_screen_spec(
            a_rows as nat,
            a_cols as nat,
            b_rows as nat,
            b_cols as nat,
            c_rows as nat,
            c_cols as nat,
            theta_given as nat,
            x0_len as nat,
        ),
{
    let n = a_rows;
    let m = b_cols;
    let l = c_rows;
    if a_cols != n || b_rows != n || c_cols != n {
        return Some(-5);
    }
    proof {
        lemma_theta_indices(n as int, l as int, m as int);
        lemma_nonneg_product(n as int, l as int);
        lemma_nonneg_product(n as int, m as int);
        lemma_nonneg_product(l as int, m as int);
    }
    let ltheta = n * l + n * m + l * m + n;
    if theta_given < ltheta {
        return Some(-14);
    }
    if x0_len < n {
        return Some(-16);
    }
    None
}

proof fn lemma_nonneg_product(x: int, y: int)
    requires
        0 <= x,
        0 <= y,
    ensures
        0 <= x * y,
{
    assert(0 <= x * y) by (nonlinear_arith)
        requires
            0 <= x,
            0 <= y,
    ;
}

proof fn lemma_row_major_before(r: int, c: int, i: int, cols: int)
    requires
        0 <= r < i,
        0 <= c < cols,
    ensures
        r * cols + c < i * cols,
{
    assert(r * cols + c < i * cols) by (nonlinear_arith)
        requires
            0 <= r < i,
            0 <= c < cols,
    ;
}

/// Writes the leading `rows` x `cols` block of `src` into `theta` row by
/// row, from position `start` on; every other entry stays.
fn store_rows<T: Copy>(theta: &mut Vec<T>, start: usize, src: &Mat<T>, rows: usize, cols: usize)
    requires
        start + rows * cols <= old(theta)@.len(),
        rows <= src.nr(),
        cols <= src.nc(),
    ensures
        final(theta)@.len() == old(theta)@.len(),
        forall|i: int, j: int|
            0 <= i < rows && 0 <= j < cols ==> #[trigger] src.at(i, j) == final(theta)@[start + i * cols + j],
        forall|k: int|
            0 <= k < old(theta)@.len() && (k < start || k >= start + rows * cols) ==> #[trigger] final(theta)@[k]
                == old(theta)@[k],
{
    let ghost t0 = theta@;
    let tl = theta.len();
    let mut i: usize = 0;
    while i < rows
        invariant
            i <= rows,
            rows <= src.nr(),
            cols <= src.nc(),
            tl == theta@.len(),
            tl == t0.len(),
            start + rows * cols <= tl,
            forall|r: int, c: int|
                0 <= r < i && 0 <= c < cols ==> #[trigger] src.at(r, c) == theta@[start + r * cols + c],
            forall|k: int| 0 <= k < tl && (k < start || k >= start + i * cols) ==> #[trigger] theta@[k] == t0[k],
        decreases rows - i,
    {
        let mut j: usize = 0;
        while j < cols
            invariant
                i < rows,
                j <= cols,
                rows <= src.nr(),
                cols <= src.nc(),
                tl == theta@.len(),
                tl == t0.len(),
                start + rows * cols <= tl,
                forall|r: int, c: int|
                    0 <= r < i && 0 <= c < cols ==> #[trigger] src.at(r, c) == theta@[start + r * cols + c],
                forall|c: int| 0 <= c < j ==> #[trigger] src.at(i as int, c) == theta@[start + i * cols + c],
                forall|k: int|
                    0 <= k < tl && (k < start || k >= start + i * cols + j) ==> #[trigger] theta@[k] == t0[k],
            decreases cols - j,
        {
            proof {
                assert(i * cols + j < rows * cols) by (nonlinear_arith)
                    requires
                        i < rows,
                        j < cols,
                ;
            }
            let pos = start + i * cols + j;
            let ghost before = theta@;
            let v = src.get(i, j);
            theta.set(pos, v);
            proof {
                assert forall|r: int, c: int| 0 <= r < i && 0 <= c < cols implies #[trigger] src.at(r, c)
                    == theta@[start + r * cols + c] by {
                    lemma_row_major_before(r, c, i as int, cols as int);
                    assert(before[start + r * cols + c] == src.at(r, c));
                }
            }
            j = j + 1;
        }
        proof {
            assert((i + 1) * cols == i * cols + cols) by (nonlinear_arith);
        }
        i = i + 1;
    }
}

/// Stores B, D and X0 in THETA for TB01VD once its arguments are checked
/// (and A found stable when N > 0): after the N*L leading entries, which
/// hold the output normal form of (A, C) and are left to the caller, come
/// B row by row, D (its leading L x M block) row by row, and X0. Every
/// other entry stays.
pub fn tb01vd_pack<T: Copy>(b: &Mat<T>, l: usize, d: &Mat<T>, x0: &Vec<T>, theta: &mut Vec<T>)
    requires
        theta_len(b.nr() as int, l as int, b.nc() as int) <= old(theta)@.len(),
        b.nr() <= x0@.len(),
        l <= d.nr(),
        b.nc() <= d.nc(),
    ensures
        final(theta)@.len() == old(theta)@.len(),
        ({
            let n = b.nr() as int;
            let m = b.nc() as int;
            let t = final(theta)@;
            &&& forall|k: int|
                (0 <= k < n * l || theta_len(n, l as int, m) <= k < t.len()) ==> #[trigger] t[k] == old(theta)@[k]
            &&& theta_holds_b(t, n, l as int, m, *b)
            &&& theta_holds_d(t, n, l as int, m, *d)
            &&& theta_holds_x0(t, n, l as int, m, x0@)
        }),
{
    let n = b.nrows();
    let m = b.ncols();
    proof {
        lemma_theta_indices(n as int, l as int, m as int);
        lemma_nonneg_product(n as int, l as int);
        lemma_nonneg_product(n as int, m as int);
        lemma_nonneg_product(l as int, m as int);
    }
    let ghost t0 = theta@;
    let tl = theta.len();
    let nl = n * l;
    let nm = n * m;
    let lm = l * m;
    let ghost t1 = theta@;
    store_rows(theta, nl, b, n, m);
    let ghost t2 = theta@;
    store_rows(theta, nl + nm, d, l, m);
    let ghost t3 = theta@;
    let start = nl + nm + lm;
    let mut q: usize = 0;
    while q < n
        invariant
            q <= n,
            n <= x0@.len(),
            start == n * l + n * m + l * m,
            start + n <= tl,
            tl == theta@.len(),
            forall|t: int| 0 <= t < q ==> #[trigger] theta@[start + t] == x0@[t],
            forall|t: int| 0 <= t < tl && (t < start || t >= start + q) ==> #[trigger] theta@[t] == t3[t],
        decreases n - q,
    {
        let v = x0[q];
        theta.set(start + q, v);
        q = q + 1;
    }
    proof {
        let t = theta@;
        assert forall|i: int, j: int| 0 <= i < n && 0 <= j < m implies #[trigger] b.at(i, j)
            == t[theta_b_index(n as int, l as int, m as int, i, j)] by {
            let p = theta_b_index(n as int, l as int, m as int, i, j);
            assert(t2[nl + i * m + j] == b.at(i, j));
            assert(t3[p] == t2[p]);
        }
        assert forall|i: int, j: int| 0 <= i < l && 0 <= j < m implies #[trigger] d.at(i, j)
            == t[theta_d_index(n as int, l as int, m as int, i, j)] by {
            assert(t3[nl + nm + i * m + j] == d.at(i, j));
        }
        assert forall|i: int| 0 <= i < n implies #[trigger] x0@[i] == t[theta_x0_index(
            n as int,
            l as int,
            m as int,
            i,
        )] by {
            assert(t[start + i] == x0@[i]);
        }
        assert forall|p: int|
            (0 <= p < n * l || theta_len(n as int, l as int, m as int) <= p < t.len()) implies #[trigger] t[p]
            == t0[p] by {
            assert(t3[p] == t2[p]);
            assert(t2[p] == t1[p]);
        }
    }
}

/// Reading THETA back undoes writing it: when TB01VD has filled THETA from
/// (B, D, X0) and TB01VY builds (B', D', X0') from that THETA, then B' = B,
/// D' agrees with D on the leading L x M block, and X0' with X0 on its first
/// N entries.
pub proof fn lemma_unpack_inverts_pack<T>(
    theta: Seq<T>,
    n: int,
    l: int,
    m: int,
    b: Mat<T>,
    d: Mat<T>,
    x0: Seq<T>,
    b2: Mat<T>,
    d2: Mat<T>,
    x02: Seq<T>,
)
    requires
        theta_holds_b(theta, n, l, m, b),
        theta_holds_d(theta, n, l, m, d),
        theta_holds_x0(theta, n, l, m, x0),
        theta_holds_b(theta, n, l, m, b2),
        theta_holds_d(theta, n, l, m, d2),
        theta_holds_x0(theta, n, l, m, x02),
    ensures
        forall|i: int, j: int| 0 <= i < n && 0 <= j < m ==> #[trigger] b2.at(i, j) == b.at(i, j),
        forall|i: int, j: int| 0 <= i < l && 0 <= j < m ==> #[trigger] d2.at(i, j) == d.at(i, j),
        forall|i: int| 0 <= i < n ==> #[trigger] x02[i] == x0[i],
{
    assert forall|i: int, j: int| 0 <= i < n && 0 <= j < m implies #[trigger] b2.at(i, j) == b.at(i, j) by {
        assert(b.at(i, j) == theta[theta_b_index(n, l, m, i, j)]);
    }
    assert forall|i: int, j: int| 0 <= i < l && 0 <= j < m implies #[trigger] d2.at(i, j) == d.at(i, j) by {
        assert(d.at(i, j) == theta[theta_d_index(n, l, m, i, j)]);
    }
    assert forall|i: int| 0 <= i < n implies #[trigger] x02[i] == x0[i] by {
        assert(x0[i] == theta[theta_x0_index(n, l, m, i)]);
    }
}

} // verus!
