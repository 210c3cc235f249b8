//! The workspace sizes that the SB16 routines demand of DWORK, computed in
//! machine integers as the routines compute them.

use vstd::prelude::*;

verus! {

pub open spec fn max3(a: int, b: int, c: int) -> int {
    if a >= b && a >= c {
        a
    } else if b >= c {
        b
    } else {
        c
    }
}

fn max3_exec(a: usize, b: usize, c: usize) -> (r: usize)
    ensures
        r == max3(a as int, b as int, c as int),
{
    if a >= b && a >= c {
        a
    } else if b >= c {
        b
    } else {
        c
    }
}

/// N*(N + max(N, M, P) + 7): the workspace of the Grammian factors.
pub open spec fn grammian_lwork(n: int, m: int, p: int) -> int {
    n * (n + max3(n, m, p) + 7)
}

/// Every intermediate of `grammian_lwork` fits in a machine word.
pub open spec fn grammian_lwork_fits(n: int, m: int, p: int) -> bool {
    &&& n + max3(n, m, p) + 7 <= usize::MAX
    &&& grammian_lwork(n, m, p) <= usize::MAX
}

pub fn grammian_lwork_exec(n: usize, m: usize, p: usize) -> (r: usize)
    requires
        grammian_lwork_fits(n as int, m as int, p as int),
    ensures
        r == grammian_lwork(n as int, m as int, p as int),
{
    let mx = max3_exec(n, m, p);
    n * (n + mx + 7)
}

/// (N*N)^2 + N*N: the workspace of the discrete-time Stein solver.
pub open spec fn stein_lwork(n: int) -> int {
    (n * n) * (n * n) + n * n
}

/// Every intermediate of `stein_lwork` fits in a machine word.
pub open spec fn stein_lwork_fits(n: int) -> bool {
    &&& n * n <= usize::MAX
    &&& stein_lwork(n) <= usize::MAX
}

pub fn stein_lwork_exec(n: usize) -> (r: usize)
    requires
        stein_lwork_fits(n as int),
    ensures
        r == stein_lwork(n as int),
{
    let n2 = n * n;
    proof {
        assert(0 <= n2 * n2) by (nonlinear_arith);
    }
    n2 * n2 + n2
}

/// The workspace of the frequency-weighted Grammians: with NNC = N + NC,
/// NNC*(NNC + 2M + 2P) + max(NNC*(NNC + max(NNC, M, P) + 7), (M+P)*(M+P+4)).
pub open spec fn weighted_lwork(n: int, m: int, p: int, nc: int) -> int {
    let nnc = n + nc;
    let t1 = nnc * (nnc + 2 * m + 2 * p);
    let t2 = nnc * (nnc + max3(nnc, m, p) + 7);
    let t3 = (m + p) * (m + p + 4);
    t1 + if t2 >= t3 {
        t2
    } else {
        t3
    }
}

/// Every intermediate of `weighted_lwork` fits in a machine word.
pub open spec fn weighted_lwork_fits(n: int, m: int, p: int, nc: int) -> bool {
    let nnc = n + nc;
    &&& nnc + 2 * m + 2 * p <= usize::MAX
    &&& nnc * (nnc + 2 * m + 2 * p) <= usize::MAX
    &&& nnc + max3(nnc, m, p) + 7 <= usize::MAX
    &&& nnc * (nnc + max3(nnc, m, p) + 7) <= usize::MAX
    &&& m + p + 4 <= usize::MAX
    &&& (m + p) * (m + p + 4) <= usize::MAX
    &&& weighted_lwork(n, m, p, nc) <= usize::MAX
}

pub fn weighted_lwork_exec(n: usize, m: usize, p: usize, nc: usize) -> (r: usize)
    requires
        weighted_lwork_fits(n as int, m as int, p as int, nc as int),
    ensures
        r == weighted_lwork(n as int, m as int, p as int, nc as int),
{
    let nnc = n + nc;
    let t1 = nnc * (nnc + 2 * m + 2 * p);
    let mx = max3_exec(nnc, m, p);
    let t2 = nnc * (nnc + mx + 7);
    let t3 = (m + p) * (m + p + 4);
    proof {
        assert(0 <= t1 && 0 <= t2 && 0 <= t3);
    }
    t1 + if t2 >= t3 {
        t2
    } else {
        t3
    }
}

/// max(N*(N + max(N, M, P) + 7), 2*N*N + 5*N, 1): the workspace of SB16CD.
pub open spec fn coprime_lwork(n: int, m: int, p: int) -> int {
    let g = grammian_lwork(n, m, p);
    let h = 2 * (n * n) + 5 * n;
    let top = if g >= h {
        g
    } else {
        h
    };
    if top >= 1 {
        top
    } else {
        1
    }
}

/// Every intermediate of `coprime_lwork` fits in a machine word.
pub open spec fn coprime_lwork_fits(n: int, m: int, p: int) -> bool {
    &&& grammian_lwork_fits(n, m, p)
    &&& n * n <= usize::MAX
    &&& 2 * (n * n) + 5 * n <= usize::MAX
}

pub fn coprime_lwork_exec(n: usize, m: usize, p: usize) -> (r: usize)
    requires
        coprime_lwork_fits(n as int, m as int, p as int),
    ensures
        r == coprime_lwork(n as int, m as int, p as int),
{
    let g = grammian_lwork_exec(n, m, p);
    let n2 = n * n;
    let h = 2 * n2 + 5 * n;
    let top = if g >= h {
        g
    } else {
        h
    };
    if top >= 1 {
        top
    } else {
        1
    }
}

} // verus!
