//! SB16AD reduces a controller with frequency weights that enforce stability
//! or performance. This module holds its option codes, the checks it makes on
//! its arguments and workspace, the status it reports and how the reduced
//! order is chosen; the reduction works in floating point.

use vstd::prelude::*;
use crate::select::{count_true, count_flags, back_off, back_off_ties, lemma_back_off_bounds, lemma_back_off_maximal};

verus! {

/// Continuous ('C') or discrete ('D') time.
#[derive(Clone, Copy, PartialEq, Eq, Structural)]
pub enum Dico {
    Continuous,
    Discrete,
}

/// Controllability Grammian: 'S' standard Enns, 'E' enhanced.
#[derive(Clone, Copy, PartialEq, Eq, Structural)]
pub enum Jobc {
    Standard,
    Enhanced,
}

/// Observability Grammian: 'S' standard Enns, 'E' enhanced.
#[derive(Clone, Copy, PartialEq, Eq, Structural)]
pub enum Jobo {
    Standard,
    Enhanced,
}

/// Model reduction: 'B' sqrt B&T, 'F' bal-free B&T, 'S' sqrt SPA, 'P' bal-free SPA.
#[derive(Clone, Copy, PartialEq, Eq, Structural)]
pub enum Jobmr {
    SqrtBT,
    BalFreeBT,
    SqrtSPA,
    BalFreeSPA,
}

/// Frequency weight: 'N' none, 'O' left, 'I' right, 'P' both.
#[derive(Clone, Copy, PartialEq, Eq, Structural)]
pub enum Weight {
    NoWeight,
    Left,
    Right,
    Both,
}

/// 'S' scale, 'N' no equilibration.
#[derive(Clone, Copy, PartialEq, Eq, Structural)]
pub enum Equil {
    Scale,
    No,
}

/// 'F' fixed order NCR, 'A' automatic from TOL1.
#[derive(Clone, Copy, PartialEq, Eq, Structural)]
pub enum Ordsel {
    Fixed,
    Automatic,
}


/// The checks SB16AD makes before the reduction: with NC = 0 there is no
/// controller to reduce and it returns 0 (NCR = NCS = 0); -1 when AC is not
/// NC x NC. `None` lets the reduction go on.
pub fn sb16ad_screen(nc: usize, ac_rows: usize, ac_cols: usize) -> (r: Option<i32>)
    ensures
        r == if nc == 0 {
            Some(0i32)
        } else if ac_rows != nc || ac_cols != nc {
            Some(-1i32)
        } else {
            None
        },
{
    if nc == 0 {
        return Some(0);
    }
    if ac_rows != nc || ac_cols != nc {
        return Some(-1);
    }
    None
}

/// NCS^4 + NCS^2 + 100: the workspace SB16AD asks of DWORK for the stable
/// part of order NCS.
pub open spec fn sb16ad_lwork(ncs: int) -> int {
    ncs * ncs * ncs * ncs + ncs * ncs + 100
}

/// Every intermediate of `sb16ad_lwork` fits in a machine word.
pub open spec fn sb16ad_lwork_fits(ncs: int) -> bool {
    &&& ncs * ncs <= usize::MAX
    &&& ncs * ncs * ncs <= usize::MAX
    &&& ncs * ncs * ncs * ncs <= usize::MAX
    &&& sb16ad_lwork(ncs) <= usize::MAX
}

/// Whether DWORK is long enough for the stable part (else SB16AD returns
/// -28).
pub fn sb16ad_workspace_ok(ncs: usize, dwork_len: usize) -> (ok: bool)
    requires
        sb16ad_lwork_fits(ncs as int),
    ensures
        ok == (dwork_len >= sb16ad_lwork(ncs as int)),
{
    proof {
        assert(0 <= ncs * ncs * ncs * ncs) by (nonlinear_arith);
    }
    let lwork = ncs * ncs * ncs * ncs + ncs * ncs + 100;
    dwork_len >= lwork
}

/// The value SB16AD returns when SB16AY fails with `info_ay`: 1 to 5 are
/// passed on, anything else becomes 7.
pub fn sb16ad_info(info_ay: i32) -> (r: i32)
    ensures
        r == if 1 <= info_ay <= 5 {
            info_ay
        } else {
            7
        },
{
    if 1 <= info_ay && info_ay <= 5 {
        info_ay
    } else {
        7
    }
}

/// The order of the reduced stable part. From the Hankel singular values
/// SIGMA(1..NCS) the caller tells: `negligible` when SIGMA(1) is negligible,
/// `above_min[k]` when SIGMA(k+1) exceeds the minimal threshold,
/// `above_tol[k]` when it exceeds the order-selection threshold, `ties[k]`
/// when SIGMA(k+1) <= SIGMA(k+2). The order asked for (the fixed order less
/// the NCU unstable states, at most NCS; or the count above the tolerance)
/// is capped by the count above the minimal threshold (0 when negligible)
/// and by NCS, and lowered while it would cut between tied values.
pub open spec fn sb16ad_stable_order(
    fixed: bool,
    ncr_in: int,
    ncu: int,
    ncs: int,
    negligible: bool,
    above_min: Seq<bool>,
    above_tol: Seq<bool>,
    ties: Seq<bool>,
) -> int {
    let min_stable: int = if negligible {
        0
    } else {
        count_true(above_min) as int
    };
    let desired: int = if fixed {
        if ncr_in > ncu {
            if ncr_in - ncu <= ncs {
                ncr_in - ncu
            } else {
                ncs
            }
        } else {
            0
        }
    } else {
        count_true(above_tol) as int
    };
    let k1: int = if desired <= min_stable {
        desired
    } else {
        min_stable
    };
    let k2: int = if k1 <= ncs {
        k1
    } else {
        ncs
    };
    back_off(ties, k2, ncs)
}

/// The most stable states SB16AD may keep: NCS, the number of Hankel
/// singular values above the minimal threshold (0 when all are negligible),
/// and NCR - NCU for a fixed order (0 when NCR <= NCU) or the number above
/// the tolerance for an automatic one.
pub open spec fn sb16ad_cap(
    fixed: bool,
    ncr_in: int,
    ncu: int,
    ncs: int,
    negligible: bool,
    above_min: Seq<bool>,
    above_tol: Seq<bool>,
) -> int {
    let m: int = if negligible { 0 } else { count_true(above_min) as int };
    let w: int = if fixed {
        if ncr_in > ncu { ncr_in - ncu } else { 0 }
    } else {
        count_true(above_tol) as int
    };
    let c: int = if m <= ncs { m } else { ncs };
    if w < c { w } else { c }
}

/// For both ways of selecting it, the order of the reduced stable part
/// never cuts between two equal Hankel singular values (`ties[k - 1]`)
/// unless it is 0 or NCS; it never exceeds NCS nor the number of singular
/// values above the minimal threshold (none when all are negligible); a
/// fixed order keeps at most NCR - NCU stable states, and an automatic one
/// at most the number above the tolerance. It is the largest order up to
/// the cap (`sb16ad_cap`) that cuts no tie.
pub proof fn lemma_sb16ad_order_bounds(
    fixed: bool,
    ncr_in: int,
    ncu: int,
    ncs: int,
    negligible: bool,
    above_min: Seq<bool>,
    above_tol: Seq<bool>,
    ties: Seq<bool>,
)
    requires
        0 <= ncr_in,
        0 <= ncu,
        0 <= ncs,
    ensures
        ({
            let k = sb16ad_stable_order(fixed, ncr_in, ncu, ncs, negligible, above_min, above_tol, ties);
            &&& 0 <= k <= ncs
            &&& k == 0 || k == ncs || !ties[k - 1]
            &&& k <= (if negligible { 0 } else { count_true(above_min) as int })
            &&& fixed ==> ncu + k <= (if ncr_in > ncu { ncr_in } else { ncu })
            &&& !fixed ==> k <= count_true(above_tol)
            &&& forall|j: int|
                k < j <= sb16ad_cap(fixed, ncr_in, ncu, ncs, negligible, above_min, above_tol) ==> j < ncs
                    && #[trigger] ties[j - 1]
        }),
{
    let min_stable: int = if negligible { 0 } else { count_true(above_min) as int };
    let desired: int = if fixed {
        if ncr_in > ncu {
            if ncr_in - ncu <= ncs { ncr_in - ncu } else { ncs }
        } else {
            0
        }
    } else {
        count_true(above_tol) as int
    };
    let k1: int = if desired <= min_stable { desired } else { min_stable };
    let k2: int = if k1 <= ncs { k1 } else { ncs };
    lemma_back_off_bounds(ties, k2, ncs);
    lemma_back_off_maximal(ties, k2, ncs);
}

/// Returns (order of the reduced stable part, NCR = NCU + that order).
pub fn sb16ad_reduced_order(
    ordsel: Ordsel,
    ncr_in: usize,
    ncu: usize,
    ncs: usize,
    negligible: bool,
    above_min: &Vec<bool>,
    above_tol: &Vec<bool>,
    ties: &Vec<bool>,
) -> (r: (usize, usize))
    requires
        ncs <= ties@.len() + 1,
        ncu + ncs <= usize::MAX,
    ensures
        r.0 == sb16ad_stable_order(
            ordsel == Ordsel::Fixed,
            ncr_in as int,
            ncu as int,
            ncs as int,
            negligible,
            above_min@,
            above_tol@,
            ties@,
        ),
        r.0 <= ncs,
        r.1 == ncu + r.0,
        r.0 == 0 || r.0 == ncs || !ties@[r.0 - 1],
        r.0 <= (if negligible { 0 } else { count_true(above_min@) as int }),
        ordsel == Ordsel::Fixed ==> r.1 <= (if ncr_in > ncu { ncr_in } else { ncu }),
        ordsel == Ordsel::Automatic ==> r.0 <= count_true(above_tol@),
        forall|j: int|
            r.0 < j <= sb16ad_cap(
                ordsel == Ordsel::Fixed,
                ncr_in as int,
                ncu as int,
                ncs as int,
                negligible,
                above_min@,
                above_tol@,
            ) ==> j < ncs && #[trigger] ties@[j - 1],
{
    proof {
        lemma_sb16ad_order_bounds(
            ordsel == Ordsel::Fixed,
            ncr_in as int,
            ncu as int,
            ncs as int,
            negligible,
            above_min@,
            above_tol@,
            ties@,
        );
    }
    let min_stable = if negligible {
        0
    } else {
        count_flags(above_min)
    };
    let desired = match ordsel {
        Ordsel::Fixed => {
            if ncr_in > ncu {
                if ncr_in - ncu <= ncs {
                    ncr_in - ncu
                } else {
                    ncs
                }
            } else {
                0
            }
        },
        Ordsel::Automatic => count_flags(above_tol),
    };
    let k1 = if desired <= min_stable {
        desired
    } else {
        min_stable
    };
    let k2 = if k1 <= ncs {
        k1
    } else {
        ncs
    };
    let k = back_off_ties(ties, k2, ncs);
    (k, ncu + k)
}

} // verus!
