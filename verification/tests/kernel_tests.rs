//! Tests of kernel generation: lengths, normalisation, peak placement,
//! flattening with a wider spread, and parameter validation.

use gradopt::error::OptError;
use gradopt::fixed::SCALE;
use gradopt::kernel::generate_kernel;

fn sum(v: &[i64]) -> i64 {
    let mut acc: i64 = 0;
    for e in v {
        acc += *e;
    }
    acc
}

#[test]
fn test_kernel() {
    let size: usize = 5;
    let sigma: i64 = SCALE;
    let kernel: Vec<i64> = generate_kernel(size, sigma).unwrap();

    assert_eq!(kernel.len(), size);
    assert_eq!(kernel[0], 42_669);
    assert_eq!(kernel[1], 139_370);
    assert_eq!(kernel[2], 339_296);
    assert_eq!(kernel[3], 339_295);
    assert_eq!(kernel[4], 139_370);
    assert_eq!(sum(&kernel), SCALE);
}

#[test]
fn test_kernel_normalization() {
    let size: usize = 9;
    let sigma: i64 = 2 * SCALE;
    let kernel: Vec<i64> = generate_kernel(size, sigma).unwrap();

    assert_eq!(sum(&kernel), SCALE);
}

#[test]
fn test_kernel_peak() {
    let size: usize = 5;
    let sigma: i64 = SCALE;
    let kernel: Vec<i64> = generate_kernel(size, sigma).unwrap();

    let peak: i64 = kernel[size / 2];
    for e in &kernel {
        assert!(*e <= peak);
    }
}

#[test]
fn test_different_sigmas() {
    let size: usize = 7;
    let sigma1: i64 = SCALE;
    let sigma2: i64 = 2 * SCALE;
    let kernel1: Vec<i64> = generate_kernel(size, sigma1).unwrap();
    let kernel2: Vec<i64> = generate_kernel(size, sigma2).unwrap();

    assert!(kernel1[size / 2] > kernel2[size / 2]);
}

#[test]
fn test_zero_size() {
    assert_eq!(generate_kernel(0, SCALE), Err(OptError::InvalidParameter));
}

#[test]
fn test_negative_sigma() {
    assert_eq!(generate_kernel(5, -SCALE), Err(OptError::InvalidParameter));
}

#[test]
fn test_zero_sigma() {
    assert_eq!(generate_kernel(5, 0), Err(OptError::InvalidParameter));
}

#[test]
fn test_kernel_peak_centered_many() {
    for size in 1usize..12usize {
        for sigma in [SCALE / 2, SCALE, 3 * SCALE, 10 * SCALE] {
            let kernel: Vec<i64> = generate_kernel(size, sigma).unwrap();
            assert_eq!(kernel.len(), size);
            assert_eq!(sum(&kernel), SCALE);
            let peak: i64 = kernel[size / 2];
            for e in &kernel {
                assert!(*e >= 0);
                assert!(*e <= peak);
            }
        }
    }
}

#[test]
fn test_kernel_wide_sigma_is_flat() {
    // A spread far wider than the kernel leaves every raw entry near the
    // peak value, so the normalised kernel is uniform up to rounding, with
    // the rounding deficit landing on the centre entry.
    let kernel: Vec<i64> = generate_kernel(4, 1_000_000_000).unwrap();
    assert_eq!(kernel[0], 249_999);
    assert_eq!(kernel[1], 250_000);
    assert_eq!(kernel[2], 250_001);
    assert_eq!(kernel[3], 250_000);
}

#[test]
fn test_kernel_tiny_sigma_underflows() {
    // With a spread of one fixed-point unit and an odd size, every entry of
    // the bell underflows to zero, and the kernel cannot be normalised.
    assert_eq!(generate_kernel(3, 1), Err(OptError::OutOfRange));
}
