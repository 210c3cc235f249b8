use slicot::matrix::Mat;
use slicot::tb01::tb01id::{tb01id_screen, Tb01IdJob};
use slicot::tb01::tb01iz::{tb01iz_screen, Tb01IzJob};
use slicot::tb01::tb01kd::tb01kd_screen;
use slicot::tb01::tb01kx::tb01kx_screen;
use slicot::tb01::tb01ld::{tb01ld_ndim, tb01ld_screen};
use slicot::tb01::tb01md::{tb01md_screen, JobU, ToAsciiUpper, Uplo};
use slicot::tb01::tb01nd::tb01nd_screen;
use slicot::tb01::tb01pd::{tb01pd_screen, Tb01PdJob};
use slicot::tb01::tb01px::{tb01px_screen, tb01px_summary, Tb01PxJob};
use slicot::tb01::tb01td::tb01td_screen;
use slicot::tb01::tb01ty::tb01ty_screen;
use slicot::tb01::tb01ud::{block_rank, copy_block_sizes, tb01ud_screen, tb01ud_staircase_step, JobZ};
use slicot::tb01::tb01ux::{tb01ux_screen, CompZ};
use slicot::tb01::tb01uy::{tb01uy_screen, tb01uy_staircase_job};
use slicot::tb01::tb01vd::{tb01vd_pack, tb01vd_screen};
use slicot::tb01::tb01vy::tb01vy_read;
use slicot::tb01::tb01wd::tb01wd_screen;
use slicot::tb01::tb01wx::{tb01wx_screen, CompU};
use slicot::tb01::tb01xd::{tb01xd, JobD};
use slicot::tb01::tb01xz;
use slicot::tb01::tb01yd::tb01yd;
use slicot::tb01::tb01zd::{tb01zd_ncont, tb01zd_screen};

fn mat(rows: usize, cols: usize, row_major: &[f64]) -> Mat<f64> {
    let mut data = Vec::new();
    for j in 0..cols {
        for i in 0..rows {
            data.push(row_major[i * cols + j]);
        }
    }
    Mat::from_column_major(rows, cols, data)
}

fn entries(m: &Mat<f64>) -> Vec<f64> {
    let mut v = Vec::new();
    for i in 0..m.nrows() {
        for j in 0..m.ncols() {
            v.push(m.get(i, j));
        }
    }
    v
}

#[test]
fn test_tb01yd_identity() {
    let n = 2;
    let m = 1;
    let p = 1;
    let mut a = mat(n, n, &[1.0, 0.0, 0.0, 1.0]);
    let mut b = mat(n, m, &[1.0, 0.0]);
    let mut c = mat(p, n, &[1.0, 0.0]);
    let info = tb01yd(&mut a, &mut b, &mut c);
    assert_eq!(info, 0);
    assert!((a.get(0, 0) - 1.0).abs() < 1e-10);
    assert!((a.get(0, 1) - 0.0).abs() < 1e-10);
    assert!((a.get(1, 0) - 0.0).abs() < 1e-10);
    assert!((a.get(1, 1) - 1.0).abs() < 1e-10);
}

#[test]
fn tb01yd_reverses_and_is_an_involution() {
    let mut a = mat(2, 2, &[1.0, 2.0, 3.0, 4.0]);
    let mut b = mat(2, 1, &[5.0, 6.0]);
    let mut c = mat(1, 2, &[7.0, 8.0]);
    assert_eq!(tb01yd(&mut a, &mut b, &mut c), 0);
    assert_eq!(entries(&a), vec![4.0, 3.0, 2.0, 1.0]);
    assert_eq!(entries(&b), vec![6.0, 5.0]);
    assert_eq!(entries(&c), vec![8.0, 7.0]);
    assert_eq!(tb01yd(&mut a, &mut b, &mut c), 0);
    assert_eq!(entries(&a), vec![1.0, 2.0, 3.0, 4.0]);
    assert_eq!(entries(&b), vec![5.0, 6.0]);
    assert_eq!(entries(&c), vec![7.0, 8.0]);
}

#[test]
fn tb01yd_rejects_bad_shapes() {
    let mut a = mat(2, 3, &[0.0; 6]);
    let mut b = mat(2, 1, &[0.0; 2]);
    let mut c = mat(1, 2, &[0.0; 2]);
    assert!(tb01yd(&mut a, &mut b, &mut c) < 0);
}

#[test]
fn tb01xd_forms_the_dual_and_undoes_itself() {
    let mut a = mat(2, 2, &[1.0, 2.0, 3.0, 4.0]);
    let mut b = mat(2, 1, &[5.0, 6.0]);
    let mut c = mat(1, 2, &[7.0, 8.0]);
    let mut d = mat(1, 1, &[9.0]);
    assert_eq!(tb01xd(JobD::Present, &mut a, &mut b, &mut c, Some(&mut d)), 0);
    // A becomes P*A'*P, the pertranspose.
    assert_eq!(entries(&a), vec![4.0, 2.0, 3.0, 1.0]);
    assert_eq!(b.nrows(), 2);
    assert_eq!(c.ncols(), 2);
    assert_eq!(tb01xd(JobD::Present, &mut a, &mut b, &mut c, Some(&mut d)), 0);
    assert_eq!(entries(&a), vec![1.0, 2.0, 3.0, 4.0]);
    assert_eq!(entries(&b), vec![5.0, 6.0]);
    assert_eq!(entries(&c), vec![7.0, 8.0]);
    assert_eq!(entries(&d), vec![9.0]);
}

#[test]
fn tb01xz_pertransposes_a() {
    let mut a = mat(2, 2, &[1.0, 2.0, 3.0, 4.0]);
    let mut b = mat(2, 1, &[5.0, 6.0]);
    let mut c = mat(1, 2, &[7.0, 8.0]);
    let mut d = mat(1, 1, &[9.0]);
    assert_eq!(tb01xz::tb01xz(tb01xz::JobD::Present, &mut a, &mut b, &mut c, Some(&mut d)), 0);
    assert_eq!(entries(&a), vec![4.0, 2.0, 3.0, 1.0]);
}

#[test]
fn job_codes_decode_either_case() {
    assert!(JobU::from_char('n') == Some(JobU::No));
    assert!(JobU::from_char('I') == Some(JobU::Init));
    assert!(JobU::from_char('u') == Some(JobU::Update));
    assert!(JobU::from_char('x').is_none());
    assert!(Uplo::from_char('l') == Some(Uplo::Lower));
    assert!(Uplo::from_char('U') == Some(Uplo::Upper));
    assert!(Uplo::from_char('?').is_none());
    assert_eq!('q'.to_ascii_uppercase(), 'Q');
    assert_eq!('7'.to_ascii_uppercase(), '7');
}

#[test]
fn test_tb01md_lower_not_implemented() {
    let n = 2usize;
    let m = 1usize;
    let info = tb01md_screen(JobU::No, Uplo::Lower, n, n, n, m, None);
    assert_eq!(info, Some(-2));
}

#[test]
fn tb01md_checks_in_order() {
    assert_eq!(tb01md_screen(JobU::No, Uplo::Upper, 2, 3, 2, 1, None), Some(-6));
    assert_eq!(tb01md_screen(JobU::Init, Uplo::Upper, 2, 2, 2, 1, None), Some(-10));
    assert_eq!(tb01md_screen(JobU::No, Uplo::Upper, 2, 2, 2, 1, Some((2, 1))), Some(-10));
    assert_eq!(tb01md_screen(JobU::No, Uplo::Lower, 2, 2, 2, 0, None), Some(0));
    assert_eq!(tb01md_screen(JobU::Update, Uplo::Upper, 2, 2, 2, 1, Some((2, 2))), None);
}

#[test]
fn tb01nd_checks_in_order() {
    assert_eq!(tb01nd_screen(JobU::No, Uplo::Upper, 2, 2, 1, 3, None), Some(-5));
    assert_eq!(tb01nd_screen(JobU::Update, Uplo::Upper, 2, 2, 1, 2, None), Some(-9));
    assert_eq!(tb01nd_screen(JobU::No, Uplo::Upper, 2, 2, 0, 2, None), Some(0));
    assert_eq!(tb01nd_screen(JobU::No, Uplo::Lower, 2, 2, 1, 2, None), Some(-2));
    assert_eq!(tb01nd_screen(JobU::Init, Uplo::Upper, 2, 2, 1, 2, Some((2, 2))), None);
}

#[test]
fn tb01id_checks_and_jobs() {
    assert_eq!(tb01id_screen(2, 3, 2, 2, 2), Some(-6));
    assert_eq!(tb01id_screen(2, 2, 1, 2, 2), Some(-8));
    assert_eq!(tb01id_screen(2, 2, 2, 1, 2), Some(-10));
    assert_eq!(tb01id_screen(2, 2, 2, 2, 1), Some(-11));
    assert_eq!(tb01id_screen(0, 0, 0, 0, 0), Some(0));
    assert_eq!(tb01id_screen(2, 2, 2, 2, 2), None);
    assert_eq!(Tb01IdJob::All.involves(), (true, true));
    assert_eq!(Tb01IdJob::B.involves(), (true, false));
    assert_eq!(Tb01IdJob::C.involves(), (false, true));
    assert_eq!(Tb01IdJob::N.involves(), (false, false));
}

#[test]
fn tb01iz_checks_and_jobs() {
    assert_eq!(tb01iz_screen(2, 2, 1, 2, 2), Some(-6));
    assert_eq!(tb01iz_screen(2, 2, 2, 2, 1), Some(-11));
    assert_eq!(tb01iz_screen(0, 0, 0, 0, 0), Some(0));
    assert_eq!(tb01iz_screen(3, 3, 3, 3, 3), None);
    assert_eq!(Tb01IzJob::B.involves(), (true, false));
}

#[test]
fn tb01kd_kx_ld_checks() {
    assert_eq!(tb01kd_screen(2, 2, 2, 1, 2, 2), Some(-8));
    assert_eq!(tb01kd_screen(2, 2, 2, 2, 2, 1), Some(-16));
    assert_eq!(tb01kd_screen(0, 0, 0, 0, 0, 0), Some(0));
    assert_eq!(tb01kd_screen(2, 2, 2, 2, 2, 2), None);
    assert_eq!(tb01kx_screen(2, 1, 2, 2, 0, 2, 2, 2, 2), Some(-5));
    assert_eq!(tb01kx_screen(2, 2, 2, 2, 3, 2, 2, 2, 2), Some(-4));
    assert_eq!(tb01kx_screen(2, 2, 2, 2, 1, 2, 2, 2, 1), Some(-11));
    assert_eq!(tb01kx_screen(0, 0, 0, 0, 0, 0, 0, 0, 0), Some(0));
    assert_eq!(tb01kx_screen(2, 2, 2, 2, 1, 2, 2, 2, 2), None);
    assert_eq!(tb01ld_screen(2, 2, 2, 3, 2, 2, 2, 2), Some(-6));
    assert_eq!(tb01ld_screen(2, 2, 2, 2, 2, 2, 1, 2), Some(-14));
    assert_eq!(tb01ld_screen(0, 0, 0, 0, 0, 0, 0, 0), Some(0));
    assert_eq!(tb01ld_screen(2, 2, 2, 2, 2, 2, 2, 2), None);
}

#[test]
fn tb01ld_counts_the_eigenvalues_in_the_domain() {
    assert_eq!(tb01ld_ndim(&vec![true, false, true, true]), 3);
    assert_eq!(tb01ld_ndim(&vec![]), 0);
}

#[test]
fn tb01pd_px_phases_and_summary() {
    assert_eq!(Tb01PdJob::Minimal.phases(), (true, true));
    assert_eq!(Tb01PdJob::Observable.phases(), (false, true));
    assert_eq!(Tb01PxJob::Controllable.phases(), (true, false));
    assert_eq!(tb01pd_screen(2, 2, 2, 1), Some(-5));
    assert_eq!(tb01pd_screen(0, 0, 0, 0), Some(0));
    assert_eq!(tb01pd_screen(2, 2, 2, 2), None);
    assert_eq!(tb01px_screen(2, 2, 2, 2, 3), Some(-12));
    assert_eq!(tb01px_screen(0, 0, 0, 0, 4), Some(0));
    assert_eq!(tb01px_screen(2, 2, 2, 2, 4), None);
    let (nr, infred) = tb01px_summary(5, Some((3, 2)), Some((2, 1)));
    assert_eq!(nr, 2);
    assert_eq!(infred, vec![2, 1, 0, 1]);
    let (nr, infred) = tb01px_summary(5, None, None);
    assert_eq!(nr, 5);
    assert_eq!(infred, vec![-1, -1, 0, 0]);
    let (nr, infred) = tb01px_summary(4, Some((4, 3)), None);
    assert_eq!(nr, 4);
    assert_eq!(infred, vec![0, -1, 0, 3]);
}

#[test]
fn tb01td_ty_checks() {
    assert_eq!(tb01td_screen(2, 2, 2, 1, 1, 2, 1, 2, 2, 1, 1), Some(-4));
    assert_eq!(tb01td_screen(2, 2, 2, 1, 1, 2, 1, 1, 2, 0, 1), Some(-15));
    assert_eq!(tb01td_screen(0, 0, 0, 1, 1, 0, 1, 1, 0, 1, 1), Some(0));
    assert_eq!(tb01td_screen(2, 2, 2, 1, 1, 2, 1, 1, 2, 1, 1), None);
    assert_eq!(tb01ty_screen(0, 0, 0, 1, 1, 0, 1, 1, 0, 1, 1), None);
    assert_eq!(tb01ty_screen(2, 2, 2, 1, 1, 2, 1, 1, 1, 1, 1), Some(-15));
}

#[test]
fn tb01ud_checks_and_block_sizes() {
    assert_eq!(tb01ud_screen(2, 2, 2, 1, 3, 2, 2), Some(-6));
    assert_eq!(tb01ud_screen(2, 2, 2, 1, 2, 1, 2), Some(-14));
    assert_eq!(tb01ud_screen(2, 2, 2, 0, 2, 2, 2), Some(0));
    assert_eq!(tb01ud_screen(2, 2, 2, 1, 2, 2, 2), None);
    assert!(JobZ::Init.initializes());
    assert!(!JobZ::Factored.initializes());
    assert_eq!(block_rank(&vec![true, true, false, true]), 2);
    assert_eq!(block_rank(&vec![false, true]), 0);
    assert_eq!(block_rank(&vec![]), 0);
    // A = [[0, 0], [1, 0]], B = [1; 0]: the blocks have ranks 1 and 1, so
    // NCONT = 2 in INDCON = 2 blocks of size 1.
    let mut nblk = vec![0, 0];
    assert_eq!(tb01ud_staircase_step(2, 0, 0, 1, &mut nblk), (1, 1, true));
    assert_eq!(tb01ud_staircase_step(2, 1, 1, 1, &mut nblk), (2, 2, false));
    assert_eq!(nblk, vec![1, 1]);
    // A zero rank ends the staircase and changes nothing.
    let mut nblk = vec![3, 9, 9];
    assert_eq!(tb01ud_staircase_step(3, 3, 1, 0, &mut nblk), (3, 1, false));
    assert_eq!(tb01ud_staircase_step(3, 0, 0, 0, &mut nblk), (0, 0, false));
    assert_eq!(nblk, vec![3, 9, 9]);
    let mut nblk = vec![0, 0, 0];
    assert_eq!(tb01ud_staircase_step(3, 0, 0, 2, &mut nblk), (2, 1, true));
    assert_eq!(nblk, vec![2, 0, 0]);
    let mut iwork = vec![0, 0, 0];
    copy_block_sizes(&mut iwork, &vec![4, 5, 6, 7], 2);
    assert_eq!(iwork, vec![4, 5, 0]);
    let mut short = vec![0];
    copy_block_sizes(&mut short, &vec![4, 5], 2);
    assert_eq!(short, vec![4]);
}

#[test]
fn tb01ux_uy_checks() {
    assert_eq!(tb01ux_screen(2, 2, 1, 2), Some(-5));
    assert_eq!(tb01ux_screen(0, 0, 0, 0), Some(0));
    assert_eq!(tb01ux_screen(2, 2, 2, 2), None);
    assert!(CompZ::Init.staircase_job() == JobZ::Init);
    assert!(CompZ::No.staircase_job() == JobZ::No);
    assert_eq!(tb01uy_screen(2, 2, 2, 1), Some(-6));
    assert_eq!(tb01uy_screen(2, 2, 2, 2), None);
    assert!(tb01uy_staircase_job(JobZ::Factored) == JobZ::No);
    assert!(tb01uy_staircase_job(JobZ::Init) == JobZ::Init);
}

#[test]
fn tb01wd_wx_zd_checks() {
    assert_eq!(tb01wd_screen(2, 1, 2, 2, 2, 2, 2, 2), Some(-5));
    assert_eq!(tb01wd_screen(2, 2, 1, 2, 2, 2, 2, 2), Some(-7));
    assert_eq!(tb01wd_screen(2, 2, 2, 2, 1, 2, 2, 2), Some(-10));
    assert_eq!(tb01wd_screen(2, 2, 2, 2, 2, 2, 2, 1), Some(-11));
    assert_eq!(tb01wd_screen(0, 0, 0, 0, 0, 0, 0, 0), Some(0));
    assert_eq!(tb01wd_screen(2, 2, 2, 2, 2, 2, 2, 2), None);
    assert_eq!(tb01wx_screen(CompU::Init, 3, 3, 3, 3, None), Some(-11));
    assert_eq!(tb01wx_screen(CompU::No, 3, 3, 3, 3, Some((3, 2))), Some(-11));
    assert_eq!(tb01wx_screen(CompU::No, 1, 1, 1, 1, None), Some(0));
    assert_eq!(tb01wx_screen(CompU::Update, 3, 3, 3, 3, Some((3, 3))), None);
    assert_eq!(tb01zd_screen(tb01zd_job_init(), 2, 2, 2, 2, None, 2), Some(-11));
    assert_eq!(tb01zd_screen(tb01zd_job_init(), 2, 2, 2, 2, Some((2, 2)), 1), Some(-12));
    assert_eq!(tb01zd_screen(tb01zd_job_init(), 2, 2, 3, 2, Some((2, 2)), 2), Some(-5));
    assert_eq!(tb01zd_screen(tb01zd_job_init(), 0, 0, 0, 0, Some((0, 0)), 0), Some(0));
}

fn tb01zd_job_init() -> slicot::tb01::tb01zd::JobZ {
    slicot::tb01::tb01zd::JobZ::Init
}

#[test]
fn tb01zd_order_stops_at_the_first_negligible_subdiagonal() {
    assert_eq!(tb01zd_ncont(&vec![false, true, false]), 2);
    assert_eq!(tb01zd_ncont(&vec![false, false]), 3);
    assert_eq!(tb01zd_ncont(&vec![true]), 1);
    assert_eq!(tb01zd_ncont(&vec![]), 1);
}

#[test]
fn tb01vd_vy_pack_and_unpack() {
    // N = 2, L = 1, M = 1: THETA has N*(L+M+1)+L*M = 7 entries.
    assert_eq!(tb01vd_screen(2, 2, 2, 1, 1, 2, 7, 2), None);
    assert_eq!(tb01vd_screen(2, 2, 2, 1, 1, 2, 6, 2), Some(-14));
    assert_eq!(tb01vd_screen(2, 2, 2, 1, 1, 2, 7, 1), Some(-16));
    assert_eq!(tb01vd_screen(2, 1, 2, 1, 1, 2, 7, 2), Some(-5));
    let b = mat(2, 1, &[3.0, 4.0]);
    let d = mat(1, 1, &[5.0]);
    let x0 = vec![6.0, 7.0];
    let mut theta = vec![9.0; 8];
    tb01vd_pack(&b, 1, &d, &x0, &mut theta);
    // The leading N*L entries and those past THETA's length stay.
    assert_eq!(theta, vec![9.0, 9.0, 3.0, 4.0, 5.0, 6.0, 7.0, 9.0]);
    let mut b2 = mat(2, 1, &[0.0; 2]);
    let mut d2 = mat(1, 1, &[0.0]);
    let mut x02 = vec![0.0, 0.0, 42.0];
    assert_eq!(tb01vy_read(2, 1, &theta, &mut b2, &mut d2, &mut x02), 0);
    assert_eq!(entries(&b2), entries(&b));
    assert_eq!(entries(&d2), entries(&d));
    assert_eq!(x02, vec![6.0, 7.0, 42.0]);
}

#[test]
fn tb01vd_pack_with_no_states_stores_d() {
    let b = mat(0, 2, &[]);
    let d = mat(1, 2, &[5.0, 6.0]);
    let mut theta = vec![9.0; 3];
    tb01vd_pack(&b, 1, &d, &vec![], &mut theta);
    assert_eq!(theta, vec![5.0, 6.0, 9.0]);
    let mut b2 = mat(0, 2, &[]);
    let mut d2 = mat(1, 2, &[0.0, 0.0]);
    let mut x = vec![];
    assert_eq!(tb01vy_read(0, 1, &theta, &mut b2, &mut d2, &mut x), 0);
    assert_eq!(entries(&d2), vec![5.0, 6.0]);
}

#[test]
fn tb01vy_rejects_short_theta() {
    let theta = vec![0.0; 6];
    let mut b = mat(2, 1, &[1.0; 2]);
    let mut d = mat(1, 1, &[2.0]);
    let mut x0 = vec![0.0, 0.0];
    assert_eq!(tb01vy_read(2, 1, &theta, &mut b, &mut d, &mut x0), -5);
    assert_eq!(entries(&b), vec![1.0; 2]);
    let mut d_bad = mat(1, 2, &[2.0, 2.0]);
    assert_eq!(tb01vy_read(2, 1, &vec![0.0; 7], &mut b, &mut d_bad, &mut x0), -5);
}
