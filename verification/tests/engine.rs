use matrix_engine::matrix::{Mat, MatError};
use matrix_engine::rational::Ratio;

fn rq(n: i64, d: i64) -> Ratio {
    Ratio::new(n, d)
}

fn mat(rows: usize, cols: usize, vals: &[(i64, i64)]) -> Mat {
    let mut v: Vec<Ratio> = Vec::new();
    for &(n, d) in vals {
        v.push(Ratio::new(n, d));
    }
    Mat::new(rows, cols, v)
}

fn assert_entry(m: &Mat, r: usize, c: usize, n: i64, d: i64) {
    let got = m.get(r, c);
    let want = rq(n, d);
    assert!(
        got.eq_val(&want),
        "entry ({}, {}) is {}/{}, expected {}/{}",
        r,
        c,
        got.numer(),
        got.denom(),
        n,
        d
    );
}

fn assert_same(a: &Mat, b: &Mat) {
    assert_eq!(a.num_rows(), b.num_rows());
    assert_eq!(a.num_cols(), b.num_cols());
    for r in 0..a.num_rows() {
        for c in 0..a.num_cols() {
            let x = a.get(r, c);
            let y = b.get(r, c);
            assert!(
                x.eq_val(&y),
                "entry ({}, {}): {}/{} vs {}/{}",
                r,
                c,
                x.numer(),
                x.denom(),
                y.numer(),
                y.denom()
            );
        }
    }
}

#[test]
fn ratio_construction_and_equality() {
    assert_eq!(rq(0, 5).numer(), 0);
    assert_eq!(rq(0, 5).denom(), 1);
    assert!(rq(1, 2).eq_val(&rq(2, 4)));
    assert!(!rq(1, 2).eq_val(&rq(1, 3)));
    let sum = rq(1, 2).checked_add(&rq(1, 3)).unwrap();
    assert_eq!(sum.numer(), 5);
    assert_eq!(sum.denom(), 6);
}

#[test]
fn construct_and_get() {
    let a = mat(2, 2, &[(1, 1), (2, 1), (3, 1), (4, 1)]);
    assert_eq!(a.num_rows(), 2);
    assert_eq!(a.num_cols(), 2);
    assert_entry(&a, 0, 0, 1, 1);
    assert_entry(&a, 0, 1, 2, 1);
    assert_entry(&a, 1, 0, 3, 1);
    assert_entry(&a, 1, 1, 4, 1);
}

#[test]
fn empty_matrix_is_a_sentinel() {
    let e = Mat::new(0, 0, Vec::new());
    assert_eq!(e.num_rows(), 0);
    assert_eq!(e.num_cols(), 0);
    let wide = Mat::new(0, 5, Vec::new());
    assert_eq!(wide.num_cols(), 5);
    let s = Mat::add(&e, &e).unwrap();
    assert_eq!(s.num_rows(), 0);
}

#[test]
fn identity_entries() {
    let i3 = Mat::identity(3);
    for r in 0..3 {
        for c in 0..3 {
            if r == c {
                assert_entry(&i3, r, c, 1, 1);
            } else {
                assert_entry(&i3, r, c, 0, 1);
            }
        }
    }
}

#[test]
fn copy_is_deep_and_equal() {
    let a = mat(2, 3, &[(1, 2), (2, 3), (3, 4), (4, 5), (5, 6), (6, 7)]);
    let b = Mat::copy(&a);
    assert_same(&a, &b);
}

#[test]
fn add_then_sub_recovers() {
    let a = mat(2, 2, &[(1, 2), (-3, 4), (5, 1), (0, 1)]);
    let b = mat(2, 2, &[(2, 3), (1, 8), (-7, 2), (9, 5)]);
    let c = Mat::add(&a, &b).unwrap();
    let d = Mat::sub(&c, &b).unwrap();
    assert_same(&d, &a);
}

#[test]
fn add_is_commutative() {
    let a = mat(2, 2, &[(1, 2), (-3, 4), (5, 1), (0, 1)]);
    let b = mat(2, 2, &[(2, 3), (1, 8), (-7, 2), (9, 5)]);
    let ab = Mat::add(&a, &b).unwrap();
    let ba = Mat::add(&b, &a).unwrap();
    assert_same(&ab, &ba);
}

#[test]
fn sub_exact_values() {
    let a = mat(1, 2, &[(5, 1), (7, 1)]);
    let b = mat(1, 2, &[(2, 1), (3, 1)]);
    let d = Mat::sub(&a, &b).unwrap();
    assert_entry(&d, 0, 0, 3, 1);
    assert_entry(&d, 0, 1, 4, 1);
}

#[test]
fn mult_by_identity_right_and_left() {
    let a = mat(2, 2, &[(1, 1), (2, 1), (3, 1), (4, 1)]);
    let i2 = Mat::identity(2);
    let right = Mat::mult(&a, &i2).unwrap();
    assert_same(&right, &a);
    let left = Mat::mult(&i2, &a).unwrap();
    assert_same(&left, &a);
}

#[test]
fn mult_row_by_column() {
    let a = mat(1, 3, &[(1, 1), (2, 1), (3, 1)]);
    let b = mat(3, 1, &[(1, 1), (0, 1), (1, 1)]);
    let p = Mat::mult(&a, &b).unwrap();
    assert_eq!(p.num_rows(), 1);
    assert_eq!(p.num_cols(), 1);
    assert_entry(&p, 0, 0, 4, 1);
}

#[test]
fn scale_by_one_and_zero() {
    let a = mat(2, 2, &[(1, 2), (-3, 4), (5, 1), (0, 1)]);
    let one = Mat::mult_scalar(&a, &rq(1, 1)).unwrap();
    assert_same(&one, &a);
    let zero = Mat::mult_scalar(&a, &rq(0, 1)).unwrap();
    for r in 0..2 {
        for c in 0..2 {
            assert_entry(&zero, r, c, 0, 1);
        }
    }
}

#[test]
fn scale_exact_values() {
    let a = mat(1, 2, &[(2, 1), (3, 2)]);
    let s = Mat::mult_scalar(&a, &rq(3, 2)).unwrap();
    assert_entry(&s, 0, 0, 3, 1);
    assert_entry(&s, 0, 1, 9, 4);
}

#[test]
fn dimension_mismatch_on_add() {
    let a = mat(2, 3, &[(1, 1), (2, 1), (3, 1), (4, 1), (5, 1), (6, 1)]);
    let b = mat(3, 2, &[(1, 1), (2, 1), (3, 1), (4, 1), (5, 1), (6, 1)]);
    assert!(matches!(Mat::add(&a, &b), Err(MatError::DimensionMismatch)));
    assert!(matches!(Mat::sub(&a, &b), Err(MatError::DimensionMismatch)));
    assert!(matches!(Mat::mult(&a, &a), Err(MatError::DimensionMismatch)));
}

#[test]
fn inverse_of_non_square_fails() {
    let a = mat(2, 3, &[(1, 1), (2, 1), (3, 1), (4, 1), (5, 1), (6, 1)]);
    assert!(matches!(Mat::rref(&a, true), Err(MatError::NonSquareError)));
}

#[test]
fn singular_matrix_has_no_inverse() {
    let a = mat(2, 2, &[(1, 1), (2, 1), (2, 1), (4, 1)]);
    assert!(matches!(Mat::rref(&a, true), Err(MatError::SingularError)));
}

#[test]
fn rref_of_invertible_matrix_is_identity() {
    let a = mat(2, 2, &[(1, 1), (2, 1), (3, 1), (4, 1)]);
    let r = Mat::rref(&a, false).unwrap();
    assert_same(&r, &Mat::identity(2));
}

#[test]
fn rref_is_idempotent() {
    let a = mat(2, 3, &[(1, 1), (2, 1), (3, 1), (2, 1), (4, 1), (6, 1)]);
    let once = Mat::rref(&a, false).unwrap();
    let twice = Mat::rref(&once, false).unwrap();
    assert_same(&twice, &once);
    let b = mat(2, 2, &[(1, 1), (2, 1), (3, 1), (4, 1)]);
    let once_b = Mat::rref(&b, false).unwrap();
    let twice_b = Mat::rref(&once_b, false).unwrap();
    assert_same(&twice_b, &once_b);
}

#[test]
fn inverse_two_by_two() {
    let a = mat(2, 2, &[(1, 1), (2, 1), (3, 1), (4, 1)]);
    let inv = Mat::rref(&a, true).unwrap();
    assert_entry(&inv, 0, 0, -2, 1);
    assert_entry(&inv, 0, 1, 1, 1);
    assert_entry(&inv, 1, 0, 3, 2);
    assert_entry(&inv, 1, 1, -1, 2);
    let product = Mat::mult(&a, &inv).unwrap();
    assert_same(&product, &Mat::identity(2));
}

#[test]
fn product_with_inverse_is_identity() {
    let a = mat(2, 2, &[(2, 1), (1, 1), (1, 1), (1, 1)]);
    let inv = Mat::rref(&a, true).unwrap();
    assert_entry(&inv, 0, 0, 1, 1);
    assert_entry(&inv, 0, 1, -1, 1);
    assert_entry(&inv, 1, 0, -1, 1);
    assert_entry(&inv, 1, 1, 2, 1);
    let product = Mat::mult(&a, &inv).unwrap();
    assert_same(&product, &Mat::identity(2));
}

#[test]
fn pivot_above_tolerance_is_used_in_place() {
    // 3/1000 = 0.003 is above the 0.002 tolerance: the row is kept and
    // scaled, with no search for a replacement pivot.
    let a = mat(2, 2, &[(3, 1000), (1, 1), (0, 1), (0, 1)]);
    let r = Mat::rref(&a, false).unwrap();
    assert_entry(&r, 0, 0, 1, 1);
    assert_entry(&r, 0, 1, 1000, 3);
}

#[test]
fn pivot_below_tolerance_is_treated_as_zero() {
    // 1/1000 = 0.001 is below the tolerance; no usable row stands below, so
    // the column is left behind and the entry stays untouched.
    let a = mat(2, 2, &[(1, 1000), (1, 1), (0, 1), (0, 1)]);
    let r = Mat::rref(&a, false).unwrap();
    assert_entry(&r, 0, 0, 1, 1000);
    assert_entry(&r, 0, 1, 1, 1);
}

#[test]
fn pivot_below_tolerance_triggers_a_swap() {
    let a = mat(2, 2, &[(1, 1000), (0, 1), (5, 1), (0, 1)]);
    let r = Mat::rref(&a, false).unwrap();
    // the 5 was swapped up and scaled to 1; the tiny entry was eliminated
    assert_entry(&r, 0, 0, 1, 1);
    assert_entry(&r, 1, 0, 0, 1);
}

#[test]
fn pivot_near_one_is_not_scaled() {
    // |1 - 1001/1000| = 0.001 < 0.002: the pivot row is left unscaled.
    let a = mat(2, 2, &[(1001, 1000), (5, 1), (0, 1), (0, 1)]);
    let r = Mat::rref(&a, false).unwrap();
    assert_entry(&r, 0, 0, 1001, 1000);
    assert_entry(&r, 0, 1, 5, 1);
}

#[test]
fn overflow_is_reported() {
    let big = i64::MAX;
    let a = mat(1, 1, &[(big, 1)]);
    assert!(matches!(
        Mat::mult_scalar(&a, &rq(big, 1)),
        Err(MatError::Overflow)
    ));
}

#[test]
fn determinant_values() {
    let a = mat(2, 2, &[(1, 1), (2, 1), (3, 1), (4, 1)]);
    let d = a.det().unwrap();
    assert!(d.eq_val(&rq(-2, 1)));
    let i3 = Mat::identity(3);
    assert!(i3.det().unwrap().eq_val(&rq(1, 1)));
    let singular = mat(2, 2, &[(1, 1), (2, 1), (2, 1), (4, 1)]);
    assert!(singular.det().unwrap().eq_val(&rq(0, 1)));
    let fractional = mat(2, 2, &[(1, 2), (1, 3), (1, 4), (1, 5)]);
    // 1/10 - 1/12 = 1/60
    assert!(fractional.det().unwrap().eq_val(&rq(1, 60)));
}

#[test]
fn determinant_three_by_three() {
    let a = mat(
        3,
        3,
        &[(2, 1), (0, 1), (1, 1), (1, 1), (3, 1), (2, 1), (0, 1), (1, 1), (1, 1)],
    );
    // 2*(3-2) - 0 + 1*(1-0) = 3
    assert!(a.det().unwrap().eq_val(&rq(3, 1)));
}

#[test]
fn determinant_needs_square() {
    let a = mat(2, 3, &[(1, 1), (2, 1), (3, 1), (4, 1), (5, 1), (6, 1)]);
    assert!(matches!(a.det(), Err(MatError::NonSquareError)));
}
