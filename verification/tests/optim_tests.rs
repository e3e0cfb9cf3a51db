//! Tests of the objective, the convolution, the weight update and the
//! optimisation loop, all in fixed point: `1.0` is `1_000_000`.

use gradopt::error::OptError;
use gradopt::fixed::{add_fp, mul_fp, SCALE};
use gradopt::conv::convolve;
use gradopt::objective::{f, gradient_f};
use gradopt::optim::{gradient_f_w, iterate_once, run_optimization, sub_vec, update_weights};
use gradopt::kernel::generate_kernel;

#[test]
fn test_conv_grad() {
    let kernel: Vec<i64> = vec![500_000, 300_000, 200_000];
    let grad: Vec<i64> = vec![100_000, 200_000, 300_000, 400_000, 500_000];

    let result: Vec<i64> = convolve(&kernel, &grad).unwrap();
    println!("result: {:?}", result);

    // Entry i accumulates kernel[j] * grad[i + j] while i + j stays in
    // bounds, so the two tail entries use two taps and one tap.
    let expected: Vec<i64> = vec![
        170_000,  // 0.1*0.5 + 0.2*0.3 + 0.3*0.2
        270_000,  // 0.2*0.5 + 0.3*0.3 + 0.4*0.2
        370_000,  // 0.3*0.5 + 0.4*0.3 + 0.5*0.2
        350_000,  // 0.4*0.5 + 0.5*0.3
        250_000,  // 0.5*0.5
    ];

    for (res, exp) in result.iter().zip(expected.iter()) {
        assert!((res - exp).abs() < 1, "Got {}, expected {}", res, exp);
    }
}

#[test]
fn test_convolve_keeps_length_and_tolerates_mismatch() {
    let kernel: Vec<i64> = vec![SCALE];
    let grad: Vec<i64> = vec![7, -3, 11, 0, 5, -9];
    let result: Vec<i64> = convolve(&kernel, &grad).unwrap();
    assert_eq!(result, grad);

    let empty: Vec<i64> = Vec::new();
    assert_eq!(convolve(&empty, &grad).unwrap(), vec![0, 0, 0, 0, 0, 0]);
    assert_eq!(convolve(&kernel, &empty).unwrap(), empty);
}

#[test]
fn test_objective_value() {
    // f(1, 1, 1) = 1 + 2 + 3 + 1 + 1 + 5 = 13 exactly.
    let x: Vec<i64> = vec![SCALE, SCALE, SCALE];
    assert_eq!(f(&x), Ok(13 * SCALE));
}

#[test]
fn test_objective_dimension_mismatch() {
    let short: Vec<i64> = vec![SCALE, SCALE];
    assert_eq!(f(&short), Err(OptError::DimensionMismatch));
    let long: Vec<i64> = vec![SCALE, SCALE, SCALE, SCALE];
    assert_eq!(f(&long), Err(OptError::DimensionMismatch));
    assert_eq!(gradient_f(&short), Err(OptError::DimensionMismatch));
}

#[test]
fn test_objective_out_of_range() {
    // Squaring the largest scalar leaves the representable range.
    let x: Vec<i64> = vec![i64::MAX, 0, 0];
    assert_eq!(f(&x), Err(OptError::OutOfRange));
}

#[test]
fn test_gradient_value() {
    // gradient_f(1, 1, 1) = [2+1, 4+1+1, 6+1] = [3, 6, 7] exactly.
    let x: Vec<i64> = vec![SCALE, SCALE, SCALE];
    assert_eq!(gradient_f(&x), Ok(vec![3 * SCALE, 6 * SCALE, 7 * SCALE]));
}

#[test]
fn test_update_weights() {
    let mut w: Vec<i64> = vec![SCALE, 2 * SCALE, 3 * SCALE];
    let gw: Vec<i64> = vec![3 * SCALE, 6 * SCALE, 7 * SCALE];
    let lr: i64 = SCALE / 10;
    assert_eq!(update_weights(&mut w, &gw, lr), Ok(()));
    assert_eq!(w, vec![700_000, 1_400_000, 2_300_000]);
}

#[test]
fn test_update_weights_dimension_mismatch() {
    let mut w: Vec<i64> = vec![SCALE, 2 * SCALE];
    let gw: Vec<i64> = vec![SCALE];
    assert_eq!(update_weights(&mut w, &gw, SCALE), Err(OptError::DimensionMismatch));
    assert_eq!(w, vec![SCALE, 2 * SCALE]);
}

#[test]
fn test_update_weights_out_of_range() {
    let mut w: Vec<i64> = vec![i64::MIN];
    let gw: Vec<i64> = vec![SCALE];
    assert_eq!(update_weights(&mut w, &gw, SCALE), Err(OptError::OutOfRange));
    assert_eq!(w, vec![i64::MIN]);
}

#[test]
fn test_sub_vec() {
    let mut x: Vec<i64> = vec![10, 20, 30];
    let d: Vec<i64> = vec![1, 2, 3];
    assert_eq!(sub_vec(&mut x, &d), Ok(()));
    assert_eq!(x, vec![9, 18, 27]);
    let short: Vec<i64> = vec![1];
    assert_eq!(sub_vec(&mut x, &short), Err(OptError::DimensionMismatch));
    assert_eq!(x, vec![9, 18, 27]);
}

#[test]
fn test_gradient_f_w() {
    let kernel: Vec<i64> = generate_kernel(3, SCALE).unwrap();
    let w: Vec<i64> = vec![SCALE, 2 * SCALE, 3 * SCALE];
    let x: Vec<i64> = vec![SCALE, SCALE, SCALE];
    // The smoothed gradient is [5.903645, 3.925971, 1.192709]; scaling by
    // the weights gives the exact products below.
    let gw: Vec<i64> = gradient_f_w(&kernel, &w, &x).unwrap();
    assert_eq!(gw, vec![5_903_645, 7_851_942, 3_578_127]);
}

#[test]
fn test_iterate_once_matches_run() {
    let kernel: Vec<i64> = generate_kernel(3, SCALE).unwrap();
    let mut x: Vec<i64> = vec![SCALE, SCALE, SCALE];
    let mut w: Vec<i64> = vec![SCALE, 2 * SCALE, 3 * SCALE];
    let lr: i64 = SCALE / 10;
    let fx: i64 = iterate_once(&kernel, &mut x, &mut w, lr).unwrap();

    let records = run_optimization(
        vec![SCALE, SCALE, SCALE],
        vec![SCALE, 2 * SCALE, 3 * SCALE],
        &kernel,
        lr,
        1,
    )
    .unwrap();
    assert_eq!(records.len(), 1);
    assert_eq!(records[0].index, 1);
    assert_eq!(records[0].w, w);
    assert_eq!(records[0].fx, fx);
}

#[test]
fn test_run_records() {
    // The reference configuration: x = [1, 1, 1], w = [1, 2, 3], a kernel of
    // the state's length with unit spread, learning rate 0.1, 30 iterations.
    let kernel: Vec<i64> = generate_kernel(3, SCALE).unwrap();
    let records = run_optimization(
        vec![SCALE, SCALE, SCALE],
        vec![SCALE, 2 * SCALE, 3 * SCALE],
        &kernel,
        SCALE / 10,
        30,
    )
    .unwrap();

    assert_eq!(records.len(), 30);
    for (i, rec) in records.iter().enumerate() {
        assert_eq!(rec.index, i + 1);
        assert_eq!(rec.w.len(), 3);
    }
    assert_eq!(records[0].w, vec![409_636, 1_214_806, 2_642_188]);
    assert_eq!(records[0].fx, 61_191_537);
    assert_eq!(records[29].w, vec![19, 483_825, 2_627_122]);
    assert_eq!(records[29].fx, 11_631_454);
}

#[test]
fn test_run_zero_iterations() {
    let kernel: Vec<i64> = vec![SCALE];
    let records =
        run_optimization(vec![0, 0, 0], vec![0, 0, 0], &kernel, SCALE / 10, 0).unwrap();
    assert_eq!(records.len(), 0);
}

#[test]
fn test_run_dimension_mismatch() {
    let kernel: Vec<i64> = vec![SCALE];
    let r1 = run_optimization(vec![0, 0], vec![0, 0, 0], &kernel, SCALE, 1);
    assert!(matches!(r1, Err(OptError::DimensionMismatch)));
    let r2 = run_optimization(vec![0, 0, 0], vec![0, 0, 0, 0], &kernel, SCALE, 1);
    assert!(matches!(r2, Err(OptError::DimensionMismatch)));
}

#[test]
fn test_run_out_of_range() {
    // An overlong unit kernel makes the state explode: the run aborts once
    // a value leaves the representable range.
    let kernel: Vec<i64> = vec![SCALE, SCALE, SCALE];
    let r = run_optimization(
        vec![1_000_000_000 * SCALE, 1_000_000_000 * SCALE, 1_000_000_000 * SCALE],
        vec![SCALE, SCALE, SCALE],
        &kernel,
        SCALE,
        30,
    );
    assert!(matches!(r, Err(OptError::OutOfRange)));
}

#[test]
fn test_fixed_point_rounding() {
    // Fixed-point products round toward zero on both signs.
    assert_eq!(mul_fp(1, 999_999), Some(0));
    assert_eq!(mul_fp(-1, 999_999), Some(0));
    assert_eq!(mul_fp(1_500_000, 1_500_000), Some(2_250_000));
    assert_eq!(mul_fp(-1_500_000, 1_500_000), Some(-2_250_000));
    assert_eq!(mul_fp(i64::MAX, SCALE), Some(i64::MAX));
    assert_eq!(mul_fp(i64::MAX, 2 * SCALE), None);
    assert_eq!(add_fp(i64::MAX, 1), None);
    assert_eq!(add_fp(2, 3), Some(5));
}
