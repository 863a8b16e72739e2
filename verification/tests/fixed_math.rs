//! The fixed-point scalar layer: exact values and floor semantics.

use raytracer::fixed::{fp_clamp, fp_div, fp_mul, fp_sqrt, FP_HALF, FP_ONE};

#[test]
fn multiply_halves() {
    assert_eq!(fp_mul(FP_HALF, FP_HALF), FP_ONE / 4);
    assert_eq!(fp_mul(FP_ONE, FP_ONE), FP_ONE);
    assert_eq!(fp_mul(3 * FP_ONE, 2 * FP_ONE), 6 * FP_ONE);
    assert_eq!(fp_mul(0, 12345), 0);
}

#[test]
fn multiply_rounds_towards_negative_infinity() {
    // -1/65536 * 1/65536 rounds down to -1, not towards zero.
    assert_eq!(fp_mul(-1, 1), -1);
    assert_eq!(fp_mul(1, 1), 0);
    assert_eq!(fp_mul(-FP_HALF, FP_HALF), -FP_ONE / 4);
}

#[test]
fn divide_exact_and_floored() {
    assert_eq!(fp_div(FP_ONE, 2 * FP_ONE), FP_HALF);
    assert_eq!(fp_div(6 * FP_ONE, 3 * FP_ONE), 2 * FP_ONE);
    assert_eq!(fp_div(-FP_ONE, 2 * FP_ONE), -FP_HALF);
    // 1 / 3 in fixed point, floored.
    assert_eq!(fp_div(FP_ONE, 3 * FP_ONE), 21845);
}

#[test]
fn square_roots() {
    assert_eq!(fp_sqrt(FP_ONE), FP_ONE);
    assert_eq!(fp_sqrt(4 * FP_ONE), 2 * FP_ONE);
    assert_eq!(fp_sqrt(0), 0);
    // sqrt(2) = 1.41421..., fixed point floor 92681.
    assert_eq!(fp_sqrt(2 * FP_ONE), 92681);
}

#[test]
fn clamping() {
    assert_eq!(fp_clamp(5, 0, 10), 5);
    assert_eq!(fp_clamp(-5, 0, 10), 0);
    assert_eq!(fp_clamp(15, 0, 10), 10);
}
