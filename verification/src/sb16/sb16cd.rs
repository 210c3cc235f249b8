//! SB16CD reduces a state-feedback controller by coprime factorization. This
//! module holds its option codes, the checks it makes on its arguments, the
//! status it reports and how the reduced order is chosen; the reduction works
//! in floating point.

use vstd::prelude::*;
use crate::select::{count_true, count_flags, back_off, back_off_ties, lemma_back_off_bounds, lemma_back_off_maximal};
use crate::sb16::workspace::{coprime_lwork, coprime_lwork_fits, coprime_lwork_exec};

verus! {

/// Continuous ('C') or discrete ('D') time.
#[derive(Clone, Copy, PartialEq, Eq, Structural)]
pub enum Dico {
    Continuous,
    Discrete,
}

/// 'D' D present, 'Z' D zero.
#[derive(Clone, Copy, PartialEq, Eq, Structural)]
pub enum Jobd {
    D,
    Zero,
}

/// Model reduction: 'B' square-root B&T, 'F' balancing-free square-root B&T.
#[derive(Clone, Copy, PartialEq, Eq, Structural)]
pub enum Jobmr {
    SqrtBT,
    BalFreeBT,
}

/// 'L' left or 'R' right coprime factorization.
#[derive(Clone, Copy, PartialEq, Eq, Structural)]
pub enum Jobcf {
    Left,
    Right,
}

/// 'F' fixed order NCR, 'A' automatic from TOL.
#[derive(Clone, Copy, PartialEq, Eq, Structural)]
pub enum Ordsel {
    Fixed,
    Automatic,
}


/// The checks SB16CD makes before the reduction: with N = 0 it returns 0
/// (NCR = 0); -22 when DWORK is shorter than `coprime_lwork(N, M, P)`.
/// `None` lets the reduction go on.
pub fn sb16cd_screen(n: usize, m: usize, p: usize, dwork_len: usize) -> (r: Option<i32>)
    requires
        n != 0 ==> coprime_lwork_fits(n as int, m as int, p as int),
    ensures
        r == if n == 0 {
            Some(0i32)
        } else if dwork_len < coprime_lwork(n as int, m as int, p as int) {
            Some(-22i32)
        } else {
            None
        },
{
    if n == 0 {
        return Some(0);
    }
    if dwork_len < coprime_lwork_exec(n, m, p) {
        return Some(-22);
    }
    None
}

/// The value SB16CD returns when SB16CY fails with `info_cy`: 2 to 5 are
/// passed on, anything else becomes 1.
pub fn sb16cd_info(info_cy: i32) -> (r: i32)
    ensures
        r == if 2 <= info_cy <= 5 {
            info_cy
        } else {
            1
        },
{
    if 2 <= info_cy && info_cy <= 5 {
        info_cy
    } else {
        1
    }
}

/// The order NCR of the reduced controller. From the Hankel singular values
/// SIGMA(1..N) the caller tells: `negligible` when SIGMA(1) is negligible,
/// `above[k]` when SIGMA(k+1) exceeds the threshold, `ties[k]` when
/// SIGMA(k+1) <= SIGMA(k+2). The order asked for (the fixed NCR, or the
/// count above the threshold) is capped by N and by that count (0 when
/// negligible), and lowered while it would cut between tied values.
pub open spec fn sb16cd_order(
    fixed: bool,
    ncr_in: int,
    n: int,
    negligible: bool,
    above: Seq<bool>,
    ties: Seq<bool>,
) -> int {
    let ncr_min: int = if negligible {
        0
    } else {
        count_true(above) as int
    };
    let desired: int = if fixed {
        ncr_in
    } else {
        ncr_min
    };
    let k1: int = if desired <= n {
        desired
    } else {
        n
    };
    let k2: int = if k1 > ncr_min && fixed {
        ncr_min
    } else {
        k1
    };
    back_off(ties, k2, n)
}

/// The most states SB16CD may keep: N, the number of Hankel singular values
/// above the minimal threshold (0 when all are negligible), and, for a fixed
/// order, the order asked for.
pub open spec fn sb16cd_cap(fixed: bool, ncr_in: int, n: int, negligible: bool, above: Seq<bool>) -> int {
    let m: int = if negligible { 0 } else { count_true(above) as int };
    let c: int = if m <= n { m } else { n };
    if fixed && ncr_in < c { ncr_in } else { c }
}

/// The reduced order never keeps more states than there are Hankel
/// singular values above the minimal threshold (none when they are all
/// negligible), whichever way it is selected; a fixed order never exceeds
/// the one asked for; it never exceeds N; and it never cuts between two
/// equal singular values (`ties[k - 1]`) unless it is 0 or N. It is the
/// largest order up to the cap (`sb16cd_cap`) that cuts no tie.
pub proof fn lemma_sb16cd_order_bounds(
    fixed: bool,
    ncr_in: int,
    n: int,
    negligible: bool,
    above: Seq<bool>,
    ties: Seq<bool>,
)
    requires
        0 <= ncr_in,
        0 <= n,
    ensures
        ({
            let k = sb16cd_order(fixed, ncr_in, n, negligible, above, ties);
            &&& 0 <= k <= n
            &&& k <= (if negligible { 0 } else { count_true(above) as int })
            &&& fixed ==> k <= ncr_in
            &&& k == 0 || k == n || !ties[k - 1]
            &&& forall|j: int|
                k < j <= sb16cd_cap(fixed, ncr_in, n, negligible, above) ==> j < n && #[trigger] ties[j - 1]
        }),
{
    let ncr_min: int = if negligible { 0 } else { count_true(above) as int };
    let desired: int = if fixed { ncr_in } else { ncr_min };
    let k1: int = if desired <= n { desired } else { n };
    let k2: int = if k1 > ncr_min && fixed { ncr_min } else { k1 };
    lemma_back_off_bounds(ties, k2, n);
    lemma_back_off_maximal(ties, k2, n);
}

pub fn sb16cd_reduced_order(
    ordsel: Ordsel,
    ncr_in: usize,
    n: usize,
    negligible: bool,
    above: &Vec<bool>,
    ties: &Vec<bool>,
) -> (ncr: usize)
    requires
        n <= ties@.len() + 1,
    ensures
        ncr == sb16cd_order(ordsel == Ordsel::Fixed, ncr_in as int, n as int, negligible, above@, ties@),
        ncr <= n,
        ncr <= (if negligible { 0 } else { count_true(above@) as int }),
        ordsel == Ordsel::Fixed ==> ncr <= ncr_in,
        ncr == 0 || ncr == n || !ties@[ncr - 1],
        forall|j: int|
            ncr < j <= sb16cd_cap(ordsel == Ordsel::Fixed, ncr_in as int, n as int, negligible, above@) ==> j < n
                && #[trigger] ties@[j - 1],
{
    proof {
        lemma_sb16cd_order_bounds(ordsel == Ordsel::Fixed, ncr_in as int, n as int, negligible, above@, ties@);
    }
    let ncr_min = if negligible {
        0
    } else {
        count_flags(above)
    };
    let fixed = match ordsel {
        Ordsel::Fixed => true,
        Ordsel::Automatic => false,
    };
    let desired = if fixed {
        ncr_in
    } else {
        ncr_min
    };
    let k1 = if desired <= n {
        desired
    } else {
        n
    };
    let k2 = if k1 > ncr_min && fixed {
        ncr_min
    } else {
        k1
    };
    back_off_ties(ties, k2, n)
}

} // verus!
