use powsing::error::EstimateError;
use powsing::estimator::{estimate, sing_val};
use powsing::matrix::Matrix;
use powsing::vector::squared_norm;

fn matrix(rows: &[&[i64]], ncols: usize) -> Matrix {
    let data: Vec<Vec<i64>> = rows.iter().map(|r| r.to_vec()).collect();
    Matrix::from_rows(data, ncols).unwrap()
}

fn unit(v: &[i64]) -> Vec<f64> {
    let s = squared_norm(&v.to_vec()).unwrap() as f64;
    let n = s.sqrt();
    v.iter().map(|x| *x as f64 / n).collect()
}

fn unit_f(v: &[f64]) -> Vec<f64> {
    let n = v.iter().map(|x| x * x).sum::<f64>().sqrt();
    v.iter().map(|x| x / n).collect()
}

#[test]
fn diagonal_two_by_two_three_rounds() {
    let a = matrix(&[&[2, 0], &[0, 1]], 2);
    let g = sing_val(&a, 3).unwrap();
    assert_eq!(g.get(0, 0), 256);
    assert_eq!(g.get(0, 1), 0);
    assert_eq!(g.get(1, 0), 0);
    assert_eq!(g.get(1, 1), 1);
    let v = estimate(&a, 3).unwrap();
    assert_eq!(v, vec![256, 0]);
    let u = unit(&v);
    assert!((u[0] - 1.0).abs() < 1e-12);
    assert!(u[1].abs() < 1e-12);
}

#[test]
fn exponent_one_gives_gram_column() {
    let a = matrix(&[&[1, 2], &[3, 4]], 2);
    assert_eq!(estimate(&a, 1).unwrap(), vec![10, 14]);
    let g = sing_val(&a, 1).unwrap();
    assert_eq!((g.nrows(), g.ncols()), (2, 2));
    assert_eq!(g.get(1, 1), 20);
}

#[test]
fn exponent_two_squares_once() {
    let a = matrix(&[&[1, 2], &[3, 4]], 2);
    assert_eq!(estimate(&a, 2).unwrap(), vec![296, 420]);
}

#[test]
fn non_square_matrix() {
    // 3 x 2: G = [[1+9+25, 2+12+30], [44, 4+16+36]]
    let a = matrix(&[&[1, 2], &[3, 4], &[5, 6]], 2);
    assert_eq!(estimate(&a, 1).unwrap(), vec![35, 44]);
    let b = matrix(&[&[1, 2, 3]], 3);
    assert_eq!(estimate(&b, 1).unwrap(), vec![1, 2, 3]);
}

#[test]
fn zero_columns_is_invalid_shape() {
    let a = matrix(&[&[], &[]], 0);
    assert_eq!(estimate(&a, 3), Err(EstimateError::InvalidShape));
    assert!(matches!(sing_val(&a, 3), Err(EstimateError::InvalidShape)));
}

#[test]
fn zero_rows_is_invalid_shape() {
    let a = matrix(&[], 3);
    assert_eq!(estimate(&a, 2), Err(EstimateError::InvalidShape));
}

#[test]
fn zero_exponent_is_invalid_shape() {
    let a = matrix(&[&[2, 0], &[0, 1]], 2);
    assert_eq!(estimate(&a, 0), Err(EstimateError::InvalidShape));
}

#[test]
fn ragged_rows_are_refused() {
    let r = Matrix::from_rows(vec![vec![1, 2], vec![3]], 2);
    assert!(matches!(r, Err(EstimateError::InvalidShape)));
}

#[test]
fn large_entries_overflow() {
    let a = matrix(&[&[i64::MAX]], 1);
    assert_eq!(estimate(&a, 1), Err(EstimateError::Overflow));
    let b = matrix(&[&[3_000_000_000]], 1);
    assert_eq!(estimate(&b, 1).unwrap(), vec![9_000_000_000_000_000_000]);
    assert_eq!(estimate(&b, 2), Err(EstimateError::Overflow));
}

#[test]
fn many_squarings_overflow() {
    let data: Vec<Vec<i64>> = (0..10)
        .map(|i| (0..10).map(|j| if i + j < 10 { (i + j + 1) as i64 } else { 0 }).collect())
        .collect();
    let a = Matrix::from_rows(data, 10).unwrap();
    assert_eq!(estimate(&a, 6), Err(EstimateError::Overflow));
    assert!(estimate(&a, 1).is_ok());
}

#[test]
fn repeated_calls_agree() {
    let a = matrix(&[&[2, 1], &[1, 3], &[0, 1]], 2);
    for k in 0..8 {
        assert_eq!(estimate(&a, k), estimate(&a, k));
    }
}

#[test]
fn direction_converges_for_separated_spectrum() {
    // G = [[5, 3], [3, 2]], dominant eigenvalue (7 + sqrt 45) / 2.
    let a = matrix(&[&[2, 1], &[1, 1]], 2);
    let lambda = (7.0 + 45f64.sqrt()) / 2.0;
    let e = unit_f(&[3.0, lambda - 5.0]);
    let mut last = 0.0;
    for k in 1..=5 {
        let u = unit(&estimate(&a, k).unwrap());
        let cos = (u[0] * e[0] + u[1] * e[1]).abs();
        assert!(cos + 1e-15 >= last);
        last = cos;
    }
    assert!((last - 1.0).abs() < 1e-9);
}

#[test]
fn diagonal_direction_is_first_axis() {
    let a = matrix(&[&[3, 0, 0], &[0, 2, 0], &[0, 0, 1]], 3);
    for k in 1..=4 {
        let v = estimate(&a, k).unwrap();
        assert!(v[0] > 0);
        assert_eq!(&v[1..], &[0, 0]);
    }
}
