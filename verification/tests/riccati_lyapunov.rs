use slicot::matrix::Mat;
use slicot::sg02::sg02ad::{self, eigenvalue_order, sg02ad_screen, Jobb, Sort};
use slicot::sg02::sg02cv::sg02cv;
use slicot::sg02::sg02cw::{self, outputs_of, sg02cw_screen, Job};
use slicot::sg02::sg02cx::{self, sym_full_from_tri};
use slicot::sg02::sg02nd::{sg02nd_screen, JobE, JobL};
use slicot::sg03::blocks::{blocks_backward, blocks_forward};
use slicot::sg03::sg03bu::sg03bu_screen;
use slicot::sg03::sg03bw::sg03bw_screen;

fn mat(rows: usize, cols: usize, row_major: &[f64]) -> Mat<f64> {
    let mut data = Vec::new();
    for j in 0..cols {
        for i in 0..rows {
            data.push(row_major[i * cols + j]);
        }
    }
    Mat::from_column_major(rows, cols, data)
}

fn entries(m: &Mat<f64>) -> Vec<f64> {
    let mut v = Vec::new();
    for i in 0..m.nrows() {
        for j in 0..m.ncols() {
            v.push(m.get(i, j));
        }
    }
    v
}

#[test]
fn test_sg02cv_trivial() {
    let a = mat(0, 0, &[]);
    let mut b = mat(0, 0, &[]);
    assert_eq!(sg02cv(0, &a, 0, &mut b, 0), 0);
}

#[test]
fn test_sg02cv_copy() {
    let a = mat(2, 2, &[1.0, 2.0, 3.0, 4.0]);
    let mut b = mat(2, 2, &[0.0; 4]);
    assert_eq!(sg02cv(2, &a, 2, &mut b, 2), 0);
    assert_eq!(b.get(0, 0), 1.0);
    assert_eq!(b.get(1, 0), 3.0);
    assert_eq!(b.get(0, 1), 2.0);
    assert_eq!(b.get(1, 1), 4.0);
}

#[test]
fn test_sg02cv_invalid() {
    let a = mat(2, 2, &[0.0; 4]);
    let mut b = mat(1, 1, &[0.0]);
    assert_eq!(sg02cv(2, &a, 2, &mut b, 1), -1);
}

#[test]
fn symmetric_completion_from_either_triangle() {
    let a = mat(2, 2, &[1.0, 2.0, 3.0, 4.0]);
    let up = sg02ad::sym_full(2, &a, sg02ad::Uplo::Upper);
    assert_eq!(entries(&up), vec![1.0, 2.0, 2.0, 4.0]);
    let lo = sg02cw::sym_full(2, &a, sg02cw::Uplo::Lower);
    assert_eq!(entries(&lo), vec![1.0, 3.0, 3.0, 4.0]);
    let tri = sym_full_from_tri(2, &a, sg02cx::Uplo::Upper);
    assert_eq!(entries(&tri), vec![1.0, 2.0, 2.0, 4.0]);
    // Completing a completed matrix changes nothing.
    let again = sg02ad::sym_full(2, &lo, sg02ad::Uplo::Upper);
    assert_eq!(entries(&again), entries(&lo));
}

#[test]
fn eigenvalue_order_puts_the_chosen_class_first() {
    let stable = vec![false, true, false, true];
    assert_eq!(eigenvalue_order(&stable, Sort::StableFirst), vec![1, 3, 0, 2]);
    assert_eq!(eigenvalue_order(&stable, Sort::UnstableFirst), vec![0, 2, 1, 3]);
}

#[test]
fn sg02ad_checks_in_order() {
    assert_eq!(sg02ad_screen(Jobb::B, 0, 0, (0, 0), (0, 0), (0, 0), (0, 0), false), Some(0));
    assert_eq!(sg02ad_screen(Jobb::G, 2, 1, (2, 2), (2, 1), (2, 2), (2, 2), true), Some(-10));
    assert_eq!(sg02ad_screen(Jobb::G, 2, 1, (2, 2), (2, 2), (1, 2), (2, 2), true), Some(-17));
    assert_eq!(sg02ad_screen(Jobb::G, 2, 1, (2, 2), (2, 2), (2, 2), (2, 3), true), Some(-22));
    assert_eq!(sg02ad_screen(Jobb::B, 2, 0, (2, 2), (2, 2), (2, 2), (2, 2), true), Some(1));
    assert_eq!(sg02ad_screen(Jobb::B, 2, 1, (2, 2), (2, 2), (2, 2), (2, 2), false), Some(-20));
    assert_eq!(sg02ad_screen(Jobb::G, 2, 0, (2, 2), (2, 2), (2, 2), (2, 2), false), None);
}

#[test]
fn sg02cw_checks_and_outputs() {
    assert_eq!(sg02cw_screen(0, (1, 1), (1, 1)), Some(0));
    assert_eq!(sg02cw_screen(2, (2, 2), (2, 1)), Some(-8));
    assert_eq!(sg02cw_screen(2, (2, 2), (2, 2)), None);
    assert_eq!(outputs_of(Job::ROnly), (true, false));
    assert_eq!(outputs_of(Job::COnly), (false, true));
    assert_eq!(outputs_of(Job::Norms), (true, true));
}

#[test]
fn sg02nd_checks_in_order() {
    let ok = (2usize, 2usize);
    assert_eq!(sg02nd_screen('C', JobE::Identity, JobL::Zero, 0, 1, (0, 1), (1, 1), (0, 0), (1, 0), None, false), Some(0));
    assert_eq!(sg02nd_screen('C', JobE::Identity, JobL::Zero, 2, 1, (2, 2), (1, 1), ok, (1, 2), None, false), Some(-18));
    assert_eq!(sg02nd_screen('C', JobE::Identity, JobL::Zero, 2, 2, (2, 2), (1, 2), ok, (2, 2), None, false), Some(-22));
    assert_eq!(sg02nd_screen('C', JobE::Identity, JobL::Zero, 2, 2, (2, 2), (2, 2), (2, 1), (2, 2), None, false), Some(-28));
    assert_eq!(sg02nd_screen('C', JobE::Identity, JobL::Zero, 2, 2, (2, 2), (2, 2), ok, (1, 2), None, false), Some(-31));
    assert_eq!(sg02nd_screen('C', JobE::Identity, JobL::Nonzero, 2, 2, (2, 2), (2, 2), ok, (2, 2), None, false), Some(-26));
    assert_eq!(sg02nd_screen('c', JobE::General, JobL::Zero, 2, 2, (2, 2), (2, 2), ok, (2, 2), None, false), Some(-2));
    assert_eq!(sg02nd_screen('D', JobE::General, JobL::Zero, 2, 2, (2, 2), (2, 2), ok, (2, 2), None, false), None);
    assert_eq!(sg02nd_screen('C', JobE::General, JobL::Nonzero, 2, 2, (2, 2), (3, 3), ok, (2, 2), Some((2, 2)), true), None);
}

#[test]
fn sg03bu_n0() {
    assert_eq!(sg03bu_screen((0, 0), (0, 0), (0, 0)), Some(0));
}

#[test]
fn sg03bu_rejects_bad_shapes() {
    assert_eq!(sg03bu_screen((2, 2), (2, 2), (2, 1)), Some(-5));
    assert_eq!(sg03bu_screen((2, 2), (2, 2), (2, 2)), None);
}

#[test]
fn sg03bw_m0() {
    // A 0 x 0, C 1 x 1, E 0 x 0, D 1 x 1, X 0 x 1.
    assert_eq!(sg03bw_screen((0, 0), (1, 1), (0, 0), (1, 1), (0, 1)), Some(0));
}

#[test]
fn sg03bw_checks_in_order() {
    assert_eq!(sg03bw_screen((1, 1), (3, 3), (1, 1), (3, 3), (1, 3)), Some(-3));
    assert_eq!(sg03bw_screen((1, 1), (2, 2), (1, 1), (2, 2), (1, 1)), Some(-5));
    assert_eq!(sg03bw_screen((1, 1), (2, 2), (1, 1), (2, 2), (1, 2)), None);
}

#[test]
fn schur_blocks_forward_and_backward() {
    // Rows 0..5: A(2,1) and A(4,3) are nonzero, the rest of the subdiagonal zero.
    let zero_sub = vec![true, false, true, false];
    assert_eq!(blocks_forward(&zero_sub, 5), vec![(0, 1), (1, 2), (3, 2)]);
    assert_eq!(blocks_backward(&zero_sub, 5), vec![(3, 2), (1, 2), (0, 1)]);
    assert_eq!(blocks_forward(&vec![], 1), vec![(0, 1)]);
    assert_eq!(blocks_forward(&vec![], 0), vec![]);
    // Overlapping nonzero entries: the two walks pair the rows differently.
    let overlapping = vec![false, false];
    assert_eq!(blocks_forward(&overlapping, 3), vec![(0, 2), (2, 1)]);
    assert_eq!(blocks_backward(&overlapping, 3), vec![(1, 2), (0, 1)]);
}
