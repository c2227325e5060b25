use rats::{power, tensordot, Array2D, Array4D, ArrayError};

/// Numerators of `values` over `denom`; each value must be a multiple of `1 / denom`.
fn numerators(values: &[f64], denom: u64) -> Vec<i64> {
    values
        .iter()
        .map(|v| {
            let scaled = v * denom as f64;
            assert_eq!(scaled, scaled.round());
            scaled as i64
        })
        .collect()
}

fn values(a: &Array2D) -> Vec<f64> {
    a.data.iter().map(|n| *n as f64 / a.denom as f64).collect()
}

#[test]
fn test_power() {
    let ctrl_params: [f64; 2] = [2.0, 3.0];
    let expected: Vec<f64> = vec![2.0, 4.0, 8.0, 3.0, 9.0, 27.0];

    let result = power(&numerators(&ctrl_params, 1), 1, 3).unwrap();

    assert_eq!(result.shape, (2, 3));
    assert_eq!(values(&result).len(), expected.len());
    for (actual, expected) in values(&result).into_iter().zip(expected.into_iter()) {
        assert_eq!(actual, expected)
    }
}

#[test]
fn test_tensordot() {
    let ctrl_params: [f64; 2] = [2.0, 3.0];
    let powers = power(&numerators(&ctrl_params, 1), 1, 3).unwrap();
    let coefficients: Vec<f64> = vec![
        0.0, 0.0, 2.0, 0.0, 0.0, 2.0, 0.5, 0.0, 0.0, 1.0, 1.0, 0.0, 0.0, 1.0, 4.0, 0.0, 0.0,
        2.0, 0.5, 0.0, 0.0, 2.0, 2.0, 0.0,
    ];
    let rate_coefficients = Array4D::new(numerators(&coefficients, 2), (2, 3, 2, 2), 2).unwrap();
    let expected: Vec<f64> = vec![0.0, 91.0, 84.5, 0.0];

    let result = tensordot(&powers, &rate_coefficients).unwrap();

    assert_eq!(result.shape, (2, 2));
    assert_eq!(values(&result).len(), expected.len());
    for (actual, expected) in values(&result).into_iter().zip(expected.into_iter()) {
        assert_eq!(actual, expected)
    }
}

#[test]
fn power_of_fractions_shares_one_denominator() {
    // 1/2 and 3/2 to the powers 1 and 2, over the denominator 2^2.
    let result = power(&[1, 3], 2, 2).unwrap();
    assert_eq!(result.denom, 4);
    assert_eq!(result.data, vec![2, 1, 6, 9]);
    assert_eq!(values(&result), vec![0.5, 0.25, 1.5, 2.25]);
}

#[test]
fn power_of_order_zero_is_empty() {
    let result = power(&[5, 7], 3, 0).unwrap();
    assert_eq!(result.shape, (2, 0));
    assert_eq!(result.denom, 1);
    assert!(result.data.is_empty());
}

#[test]
fn power_of_negative_parameter() {
    let result = power(&[-2], 1, 3).unwrap();
    assert_eq!(result.data, vec![-2, 4, -8]);
}

#[test]
fn power_rejects_zero_denominator() {
    assert_eq!(power(&[1], 0, 2).unwrap_err(), ArrayError::ZeroDenominator);
}

#[test]
fn power_reports_overflow() {
    assert_eq!(power(&[i64::MAX], 1, 2).unwrap_err(), ArrayError::Overflow);
    assert_eq!(power(&[1], u64::MAX, 2).unwrap_err(), ArrayError::Overflow);
    assert!(power(&[i64::MAX], 1, 1).is_ok());
}

#[test]
fn array_new_checks_shape_and_denominator() {
    assert!(Array2D::new(vec![1, 2, 3, 4], (2, 2), 1).is_ok());
    assert_eq!(Array2D::new(vec![1, 2, 3], (2, 2), 1).unwrap_err(), ArrayError::Shape);
    assert_eq!(Array2D::new(vec![1, 2], (usize::MAX, 2), 1).unwrap_err(), ArrayError::Shape);
    assert_eq!(Array2D::new(vec![1, 2, 3, 4], (2, 2), 0).unwrap_err(), ArrayError::ZeroDenominator);
    assert!(Array4D::new(vec![0; 24], (2, 3, 2, 2), 1).is_ok());
    assert_eq!(Array4D::new(vec![0; 23], (2, 3, 2, 2), 1).unwrap_err(), ArrayError::Shape);
    assert_eq!(Array4D::new(vec![], (0, usize::MAX, 2, 2), 1).unwrap().data.len(), 0);
    assert_eq!(Array4D::new(vec![0; 4], (usize::MAX, 3, 2, 2), 1).unwrap_err(), ArrayError::Shape);
    assert_eq!(Array4D::new(vec![0; 24], (2, 3, 2, 2), 0).unwrap_err(), ArrayError::ZeroDenominator);
}

#[test]
fn tensordot_rejects_mismatched_shapes() {
    let powers = power(&[2, 3], 1, 3).unwrap();
    let coefficients = Array4D::new(vec![0; 16], (2, 2, 2, 2), 1).unwrap();
    assert_eq!(tensordot(&powers, &coefficients).unwrap_err(), ArrayError::Shape);
}

#[test]
fn tensordot_reports_overflow() {
    let a = Array2D::new(vec![i64::MAX, 1], (1, 2), 1).unwrap();
    let t = Array4D::new(vec![1, 1], (1, 2, 1, 1), 1).unwrap();
    assert_eq!(tensordot(&a, &t).unwrap_err(), ArrayError::Overflow);
    let t = Array4D::new(vec![1, -1], (1, 2, 1, 1), 1).unwrap();
    assert_eq!(tensordot(&a, &t).unwrap().data, vec![i64::MAX - 1]);
    let a = Array2D::new(vec![1], (1, 1), u64::MAX).unwrap();
    let t = Array4D::new(vec![1], (1, 1, 1, 1), 2).unwrap();
    assert_eq!(tensordot(&a, &t).unwrap_err(), ArrayError::Overflow);
}

#[test]
fn tensordot_multiplies_denominators() {
    let a = Array2D::new(vec![1, 3], (1, 2), 2).unwrap();
    let t = Array4D::new(vec![1, 2, 3, 4], (1, 2, 1, 2), 5).unwrap();
    let c = tensordot(&a, &t).unwrap();
    assert_eq!(c.shape, (1, 2));
    assert_eq!(c.denom, 10);
    assert_eq!(c.data, vec![1 * 1 + 3 * 3, 1 * 2 + 3 * 4]);
}
