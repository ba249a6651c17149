use powsing::error::EstimateError;
use powsing::vector::{check_direction, squared_norm};

fn normalize(v: &[f64]) -> Vec<f64> {
    let n = v.iter().map(|x| x * x).sum::<f64>().sqrt();
    v.iter().map(|x| x / n).collect()
}

#[test]
fn squared_norm_of_three_four() {
    assert_eq!(squared_norm(&vec![3, 4]), Ok(25));
    assert_eq!(squared_norm(&vec![-3, 0, 4]), Ok(25));
}

#[test]
fn zero_vector_is_degenerate() {
    assert_eq!(squared_norm(&vec![0, 0, 0]), Err(EstimateError::DegenerateVector));
    assert_eq!(squared_norm(&vec![]), Err(EstimateError::DegenerateVector));
}

#[test]
fn squared_norm_extremes() {
    let m = i64::MIN;
    assert_eq!(squared_norm(&vec![m, m, m]), Ok(3u128 << 126));
    assert_eq!(squared_norm(&vec![m, m, m, m]), Err(EstimateError::Overflow));
}

#[test]
fn normalizing_twice_changes_nothing() {
    let v = vec![3i64, 4];
    assert_eq!(check_direction(&v), Ok(()));
    let s = squared_norm(&v).unwrap() as f64;
    assert_eq!(s, 25.0);
    let once: Vec<f64> = v.iter().map(|x| *x as f64 / s.sqrt()).collect();
    assert!((once[0] - 0.6).abs() < 1e-12 && (once[1] - 0.8).abs() < 1e-12);
    let twice = normalize(&once);
    for (a, b) in once.iter().zip(twice.iter()) {
        assert!((a - b).abs() < 1e-12);
    }
    let len: f64 = twice.iter().map(|x| x * x).sum::<f64>().sqrt();
    assert!((len - 1.0).abs() < 1e-9);
}

#[test]
fn direction_check_fails_only_on_zero() {
    assert_eq!(check_direction(&vec![0, 0]), Err(EstimateError::DegenerateVector));
    assert_eq!(check_direction(&vec![]), Err(EstimateError::DegenerateVector));
    assert_eq!(check_direction(&vec![0, -7, 0]), Ok(()));
    let big = vec![i64::MIN; 10];
    assert_eq!(check_direction(&big), Ok(()));
    assert_eq!(squared_norm(&big), Err(EstimateError::Overflow));
}
