//! TB01UD computes a controllable block Hessenberg realization. This module
//! holds its option code, the checks it makes on its arguments and the
//! bookkeeping of the staircase blocks; the reduction works in floating point.

use vstd::prelude::*;

verus! {

#[derive(Clone, Copy, PartialEq, Eq, Structural)]
pub enum JobZ {
    No,
    Factored,
    Init,
}


impl JobZ {
    /// Whether Z is set to the identity before the transformations are
    /// accumulated in it.
    pub fn initializes(self) -> (r: bool)
        ensures
            r == (self == JobZ::Init),
    {
        match self {
            JobZ::Init => true,
            _ => false,
        }
    }
}

/// The checks TB01UD makes before the staircase reduction, in its order: -6
/// when A is not square or B, C do not fit it, -14 when NBLK or TAU is
/// shorter than N; with N = 0 or M = 0 it returns 0 (NCONT and INDCON become
/// 0). `None` lets the reduction go on.
pub fn tb01ud_screen(
    a_rows: usize,
    a_cols: usize,
    b_rows: usize,
    b_cols: usize,
    c_cols: usize,
    nblk_len: usize,
    tau_len: usize,
) -> (r: Option<i32>)
    ensures
        r == if a_cols != a_rows || b_rows != a_rows || c_cols != a_rows {
            Some(-6i32)
        } else if nblk_len < a_rows || tau_len < a_rows {
            Some(-14i32)
        } else if a_rows == 0 || b_cols == 0 {
            Some(0i32)
        } else {
            None
        },
{
    let n = a_rows;
    if a_cols != n || b_rows != n || c_cols != n {
        return Some(-6);
    }
    if nblk_len < n || tau_len < n {
        return Some(-14);
    }
    if n == 0 || b_cols == 0 {
        return Some(0);
    }
    None
}

/// The number of leading entries of `above` that hold: the numerical rank
/// that a column-pivoted triangular factor shows when `above[j]` tells
/// whether |R(j, j)| exceeds the tolerance.
pub open spec fn leading_rank(above: Seq<bool>, k: int) -> int
    decreases k,
{
    if k <= 0 {
        0
    } else if leading_rank(above, k - 1) == k - 1 && above[k - 1] {
        k
    } else {
        leading_rank(above, k - 1)
    }
}

proof fn lemma_leading_rank_bounds(above: Seq<bool>, k: int)
    requires
        0 <= k,
    ensures
        0 <= leading_rank(above, k) <= k,
    decreases k,
{
    if k > 0 {
        lemma_leading_rank_bounds(above, k - 1);
    }
}

/// The rank read from the first k tests is the length of their longest
/// prefix of passed tests: every test before it passed, and the one at it
/// (if any among the k) failed. In particular k passed tests give rank k.
pub proof fn lemma_leading_rank_is_prefix(above: Seq<bool>, k: int)
    requires
        0 <= k <= above.len(),
    ensures
        0 <= leading_rank(above, k) <= k,
        forall|j: int| 0 <= j < leading_rank(above, k) ==> #[trigger] above[j],
        leading_rank(above, k) < k ==> !above[leading_rank(above, k)],
        (forall|j: int| 0 <= j < k ==> #[trigger] above[j]) ==> leading_rank(above, k) == k,
    decreases k,
{
    if k > 0 {
        lemma_leading_rank_is_prefix(above, k - 1);
    }
}

/// The rank of one staircase block from the tests on the diagonal of its
/// pivoted triangular factor: the number of leading tests that pass.
pub fn block_rank(above: &Vec<bool>) -> (r: usize)
    ensures
        r == leading_rank(above@, above@.len() as int),
        r <= above@.len(),
        forall|j: int| 0 <= j < r ==> #[trigger] above@[j],
        r < above@.len() ==> !above@[r as int],
{
    proof {
        lemma_leading_rank_is_prefix(above@, above@.len() as int);
    }
    let mut rk: usize = 0;
    let mut j: usize = 0;
    while j < above.len()
        invariant
            j <= above@.len(),
            rk == leading_rank(above@, j as int),
            rk <= j,
        decreases above@.len() - j,
    {
        proof {
            lemma_leading_rank_bounds(above@, j as int);
        }
        if rk == j && above[j] {
            rk = j + 1;
        }
        j = j + 1;
    }
    rk
}

/// One step of the controllability staircase of TB01UD. With NCONT states
/// found so far in INDCON blocks, a next block of rank `rank` ends the
/// staircase when it is 0 (nothing changes); otherwise it becomes block
/// INDCON + 1 (NBLK(INDCON + 1) = rank), NCONT grows by it, and the
/// staircase goes on while NCONT < N. Returns (NCONT, INDCON, go on).
/// Run over the ranks r1, ..., rk of the successive blocks it leaves NCONT
/// = r1 + ... + rk, INDCON = k and NBLK(i) = ri.
pub fn tb01ud_staircase_step(n: usize, ncont: usize, indcon: usize, rank: usize, nblk: &mut Vec<i32>) -> (r: (
    usize,
    usize,
    bool,
))
    requires
        indcon <= ncont,
        ncont + rank <= n,
        n <= old(nblk)@.len(),
        n <= i32::MAX,
    ensures
        rank == 0 ==> r == (ncont, indcon, false) && final(nblk)@ == old(nblk)@,
        rank > 0 ==> r.0 == ncont + rank && r.1 == indcon + 1 && r.2 == (ncont + rank < n) && final(nblk)@ == old(nblk)@.update(
            indcon as int,
            rank as i32,
        ),
{
    if rank == 0 {
        return (ncont, indcon, false);
    }
    nblk.set(indcon, rank as i32);
    let nc = ncont + rank;
    (nc, indcon + 1, nc < n)
}

/// Copies the first min(INDCON, dst.len()) block sizes into `dst` (IWORK or
/// CTAU of the callers); the rest of `dst` stays.
pub fn copy_block_sizes(dst: &mut Vec<i32>, nblk: &Vec<i32>, indcon: usize)
    requires
        indcon <= nblk@.len() || old(dst)@.len() <= nblk@.len(),
    ensures
        final(dst)@.len() == old(dst)@.len(),
        forall|i: int|
            0 <= i < old(dst)@.len() ==> #[trigger] final(dst)@[i] == if i < indcon {
                nblk@[i]
            } else {
                old(dst)@[i]
            },
{
    let k = if indcon < dst.len() {
        indcon
    } else {
        dst.len()
    };
    let ghost d0 = dst@;
    let mut i: usize = 0;
    while i < k
        invariant
            i <= k,
            k <= d0.len(),
            k <= indcon,
            k <= nblk@.len(),
            dst@.len() == d0.len(),
            forall|t: int| 0 <= t < d0.len() ==> #[trigger] dst@[t] == if t < i {
                nblk@[t]
            } else {
                d0[t]
            },
        decreases k - i,
    {
        dst.set(i, nblk[i]);
        i = i + 1;
    }
}

} // verus!
