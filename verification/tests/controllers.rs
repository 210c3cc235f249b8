use slicot::matrix::Mat;
use slicot::sb10::plant::split_plant;
use slicot::sb10::sb10ld::sb10ld_screen;
use slicot::sb10::sb10ud::sb10ud_screen;
use slicot::sb10::sb10vd::sb10vd_screen;
use slicot::sb10::sb10wd::sb10wd_screen;
use slicot::sb16::sb16ad::{sb16ad_info, sb16ad_reduced_order, sb16ad_screen, sb16ad_workspace_ok, Ordsel};
use slicot::sb16::sb16ay::{self, sb16ay_screen};
use slicot::sb16::sb16cd::{self, sb16cd_info, sb16cd_reduced_order, sb16cd_screen};
use slicot::sb16::sb16cy::{self, sb16cy_screen};
use slicot::sb16::workspace::{coprime_lwork_exec, grammian_lwork_exec, stein_lwork_exec, weighted_lwork_exec};

fn mat(rows: usize, cols: usize, row_major: &[f64]) -> Mat<f64> {
    let mut data = Vec::new();
    for j in 0..cols {
        for i in 0..rows {
            data.push(row_major[i * cols + j]);
        }
    }
    Mat::from_column_major(rows, cols, data)
}

fn entries(m: &Mat<f64>) -> Vec<f64> {
    let mut v = Vec::new();
    for i in 0..m.nrows() {
        for j in 0..m.ncols() {
            v.push(m.get(i, j));
        }
    }
    v
}

#[test]
fn test_sb10ud_n0() {
    // B 0 x 2, C 2 x 0, D 2 x 2, TU 1 x 1, TY 1 x 1, RCOND of 2.
    assert_eq!(sb10ud_screen(0, 2, 2, 1, 1, (0, 2), (2, 0), (2, 2), (1, 1), (1, 1), 2), Some(0));
}

#[test]
fn sb10ud_checks_in_order() {
    assert_eq!(sb10ud_screen(1, 2, 2, 1, 1, (1, 3), (2, 1), (2, 2), (1, 1), (1, 1), 2), Some(-7));
    assert_eq!(sb10ud_screen(1, 2, 2, 1, 1, (1, 2), (2, 2), (2, 2), (1, 1), (1, 1), 2), Some(-9));
    assert_eq!(sb10ud_screen(1, 2, 2, 1, 1, (1, 2), (2, 1), (2, 1), (1, 1), (1, 1), 2), Some(-11));
    assert_eq!(sb10ud_screen(1, 2, 2, 3, 1, (1, 2), (2, 1), (2, 2), (1, 1), (1, 1), 2), Some(-5));
    assert_eq!(sb10ud_screen(1, 2, 2, 2, 1, (1, 2), (2, 1), (2, 2), (2, 2), (1, 1), 2), Some(-5));
    assert_eq!(sb10ud_screen(1, 2, 2, 1, 1, (1, 2), (2, 1), (2, 2), (2, 2), (1, 1), 2), Some(-13));
    assert_eq!(sb10ud_screen(1, 2, 2, 1, 1, (1, 2), (2, 1), (2, 2), (1, 1), (2, 1), 2), Some(-15));
    assert_eq!(sb10ud_screen(1, 2, 2, 1, 1, (1, 2), (2, 1), (2, 2), (1, 1), (1, 1), 1), Some(-17));
    assert_eq!(sb10ud_screen(1, 2, 2, 1, 1, (1, 2), (2, 1), (2, 2), (1, 1), (1, 1), 2), None);
}

#[test]
fn test_sb10vd_n0() {
    assert_eq!(
        sb10vd_screen(0, 2, 2, 1, 1, (0, 0), (0, 2), (2, 0), (1, 0), (0, 1), (0, 0), (0, 0), 2),
        Some(0)
    );
}

#[test]
fn sb10vd_wd_ld_checks() {
    assert_eq!(sb10vd_screen(1, 2, 2, 1, 1, (1, 1), (1, 2), (2, 1), (1, 1), (1, 1), (1, 1), (1, 2), 2), Some(-19));
    assert_eq!(sb10vd_screen(1, 2, 2, 1, 1, (1, 1), (1, 2), (2, 1), (1, 1), (1, 1), (1, 1), (1, 1), 1), Some(-21));
    assert_eq!(sb10vd_screen(1, 2, 2, 1, 1, (1, 1), (1, 2), (2, 1), (1, 1), (1, 1), (1, 1), (1, 1), 2), None);
    assert_eq!(
        sb10wd_screen(1, 2, 2, 1, 1, (1, 1), (1, 2), (2, 1), (2, 2), (1, 1), (1, 1), (1, 1), (1, 1), (1, 1), (1, 2)),
        Some(-27)
    );
    assert_eq!(
        sb10wd_screen(1, 2, 2, 1, 1, (1, 1), (1, 2), (2, 1), (2, 2), (1, 1), (1, 1), (1, 1), (1, 1), (1, 1), (1, 1)),
        None
    );
    assert_eq!(sb10ld_screen(1, 2, 2, 1, 1, (2, 2), (2, 1), (1, 2), (1, 1)), None);
    assert_eq!(sb10ld_screen(1, 2, 2, 1, 1, (1, 2), (2, 1), (1, 2), (1, 1)), Some(-21));
    assert_eq!(sb10ld_screen(1, 2, 2, 1, 1, (2, 2), (2, 2), (1, 2), (1, 1)), Some(-23));
    assert_eq!(sb10ld_screen(0, 2, 2, 1, 1, (0, 0), (0, 1), (1, 0), (1, 1)), None);
}

#[test]
fn plant_blocks_split_b_c_d() {
    // N = 1, M = 3 (NCON = 1), NP = 2 (NMEAS = 1).
    let b = mat(1, 3, &[1.0, 2.0, 3.0]);
    let c = mat(2, 1, &[4.0, 5.0]);
    let d = mat(2, 3, &[6.0, 7.0, 8.0, 9.0, 10.0, 11.0]);
    let p = split_plant(&b, &c, &d, 1, 1);
    assert_eq!(entries(&p.b1), vec![1.0, 2.0]);
    assert_eq!(entries(&p.b2), vec![3.0]);
    assert_eq!(entries(&p.c1), vec![4.0]);
    assert_eq!(entries(&p.c2), vec![5.0]);
    assert_eq!(entries(&p.d11), vec![6.0, 7.0]);
    assert_eq!(entries(&p.d12), vec![8.0]);
    assert_eq!(entries(&p.d21), vec![9.0, 10.0]);
    assert_eq!(entries(&p.d22), vec![11.0]);
}

#[test]
fn test_sb16ad_nc0() {
    // Only the argument checks of SB16AD are in the library (its reduction
    // needs a Lyapunov solver that is absent), so this checks that NC = 0
    // ends the routine with status 0 before any computation.
    assert_eq!(sb16ad_screen(0, 0, 0), Some(0));
}

#[test]
fn sb16ad_checks_info_and_workspace() {
    assert_eq!(sb16ad_screen(2, 2, 1), Some(-1));
    assert_eq!(sb16ad_screen(2, 2, 2), None);
    assert_eq!(sb16ad_info(3), 3);
    assert_eq!(sb16ad_info(6), 7);
    assert_eq!(sb16ad_info(-1), 7);
    // NCS = 2: 16 + 4 + 100 = 120.
    assert!(sb16ad_workspace_ok(2, 120));
    assert!(!sb16ad_workspace_ok(2, 119));
}

#[test]
fn sb16ad_order_selection() {
    // Fixed order 3 with one unstable state: 2 stable states wanted.
    let above = vec![true, true, true];
    let no_ties = vec![false, false];
    assert_eq!(sb16ad_reduced_order(Ordsel::Fixed, 3, 1, 3, false, &above, &above, &no_ties), (2, 3));
    // Capped by how many values are above the minimal threshold.
    let above_min = vec![true, false, false];
    assert_eq!(sb16ad_reduced_order(Ordsel::Fixed, 3, 1, 3, false, &above_min, &above, &no_ties), (1, 2));
    // Negligible values: nothing of the stable part is kept.
    assert_eq!(sb16ad_reduced_order(Ordsel::Fixed, 3, 1, 3, true, &above, &above, &no_ties), (0, 1));
    // Automatic: the count above the tolerance, lowered across a tie.
    let above_tol = vec![true, true, false];
    let ties = vec![true, false];
    assert_eq!(sb16ad_reduced_order(Ordsel::Automatic, 0, 2, 3, false, &above, &above_tol, &ties), (2, 4));
    let ties = vec![false, true];
    assert_eq!(sb16ad_reduced_order(Ordsel::Automatic, 0, 2, 3, false, &above, &above_tol, &ties), (1, 3));
    // A fixed order below the unstable count keeps no stable state.
    assert_eq!(sb16ad_reduced_order(Ordsel::Fixed, 1, 2, 3, false, &above, &above, &no_ties), (0, 2));
}

#[test]
fn test_sb16ay_ncs0() {
    assert_eq!(
        sb16ay_screen(
            sb16ay::Dico::Continuous,
            sb16ay::Weight::NoWeight,
            1,
            1,
            1,
            2,
            0,
            (2, 2),
            (2, 1),
            (1, 2),
            (0, 0),
            (0, 0),
            1
        ),
        Some(0)
    );
}

#[test]
fn sb16ay_checks_in_order() {
    let cont = sb16ay::Dico::Continuous;
    let disc = sb16ay::Dico::Discrete;
    let none = sb16ay::Weight::NoWeight;
    assert_eq!(sb16ay_screen(cont, none, 1, 1, 1, 1, 2, (1, 1), (1, 1), (1, 1), (2, 2), (2, 2), 1), Some(-10));
    assert_eq!(sb16ay_screen(cont, none, 1, 1, 1, 2, 1, (2, 2), (2, 1), (1, 2), (1, 1), (1, 2), 1), Some(-1));
    // Weighted: N = 1, NC = 2, M = P = 1: NNC = 3, 3*(3+4) + max(3*(3+3+7), 2*6) = 21 + 39 = 60.
    assert_eq!(
        sb16ay_screen(cont, sb16ay::Weight::Left, 1, 1, 1, 2, 1, (2, 2), (2, 1), (1, 2), (1, 1), (1, 1), 59),
        Some(-27)
    );
    assert_eq!(
        sb16ay_screen(cont, sb16ay::Weight::Both, 1, 1, 1, 2, 1, (2, 2), (2, 1), (1, 2), (1, 1), (1, 1), 60),
        Some(1)
    );
    // Discrete: NCS = 2 needs 16 + 4 = 20.
    assert_eq!(sb16ay_screen(disc, none, 1, 1, 1, 2, 2, (2, 2), (2, 1), (1, 2), (2, 2), (2, 2), 19), Some(-27));
    assert_eq!(sb16ay_screen(disc, none, 1, 1, 1, 2, 2, (2, 2), (2, 1), (1, 2), (2, 2), (2, 2), 20), None);
    assert_eq!(sb16ay_screen(cont, none, 1, 1, 1, 2, 2, (2, 2), (2, 1), (1, 2), (2, 2), (2, 2), 1), None);
}

#[test]
fn test_sb16cd_n0() {
    // Only the argument checks of SB16CD are in the library (its reduction
    // needs a Lyapunov solver that is absent), so this checks that N = 0
    // ends the routine with status 0 before any computation.
    assert_eq!(sb16cd_screen(0, 0, 0, 1), Some(0));
}

#[test]
fn sb16cd_checks_info_and_order() {
    // N = 2, M = P = 1: max(2*(2+2+7), 2*4+10, 1) = 22.
    assert_eq!(sb16cd_screen(2, 1, 1, 21), Some(-22));
    assert_eq!(sb16cd_screen(2, 1, 1, 22), None);
    assert_eq!(sb16cd_info(4), 4);
    assert_eq!(sb16cd_info(1), 1);
    assert_eq!(sb16cd_info(9), 1);
    let above = vec![true, true, false];
    let no_ties = vec![false, false];
    assert_eq!(sb16cd_reduced_order(sb16cd::Ordsel::Fixed, 5, 3, false, &above, &no_ties), 2);
    assert_eq!(sb16cd_reduced_order(sb16cd::Ordsel::Fixed, 1, 3, false, &above, &no_ties), 1);
    assert_eq!(sb16cd_reduced_order(sb16cd::Ordsel::Automatic, 0, 3, false, &above, &no_ties), 2);
    assert_eq!(sb16cd_reduced_order(sb16cd::Ordsel::Automatic, 0, 3, true, &above, &no_ties), 0);
    assert_eq!(sb16cd_reduced_order(sb16cd::Ordsel::Automatic, 0, 3, false, &above, &vec![true, true]), 0);
}

#[test]
fn test_sb16cy_trivial() {
    let n = 0_usize;
    assert_eq!(
        sb16cy_screen(
            sb16cy::Dico::Continuous,
            n,
            0,
            0,
            (0, 0),
            (0, 0),
            (0, 0),
            (0, 0),
            (0, 0),
            (0, 0),
            (0, 0),
            1
        ),
        Some(0)
    );
}

#[test]
fn sb16cy_checks_in_order() {
    let cont = sb16cy::Dico::Continuous;
    let disc = sb16cy::Dico::Discrete;
    let ok = |d: sb16cy::Dico, len: usize| {
        sb16cy_screen(d, 1, 1, 1, (1, 1), (1, 1), (1, 1), (1, 1), (1, 1), (1, 1), (1, 1), len)
    };
    // N = M = P = 1: 1*(1+1+7) = 9; Stein 1 + 1 = 2.
    assert_eq!(ok(cont, 8), Some(-2));
    assert_eq!(ok(cont, 9), None);
    assert_eq!(ok(disc, 9), None);
    assert_eq!(
        sb16cy_screen(cont, 1, 1, 1, (1, 1), (1, 1), (1, 1), (1, 1), (1, 2), (1, 1), (1, 1), 9),
        Some(-1)
    );
}

#[test]
fn workspace_formulas() {
    assert_eq!(grammian_lwork_exec(2, 1, 1), 22);
    assert_eq!(grammian_lwork_exec(0, 5, 5), 0);
    assert_eq!(stein_lwork_exec(3), 90);
    assert_eq!(weighted_lwork_exec(1, 1, 1, 2), 60);
    assert_eq!(coprime_lwork_exec(2, 1, 1), 22);
    assert_eq!(coprime_lwork_exec(0, 0, 0), 1);
    assert_eq!(coprime_lwork_exec(1, 0, 0), 9);
}
