//! Packed-colour helpers and quantization.

use raytracer::color_utils::{apply_intensity, combine_colors, from_rgb, to_rgb};
use raytracer::fixed::{FP_HALF, FP_ONE};
use raytracer::renderer::quantize_color;
use raytracer::rng::{random_axis, random_double};
use raytracer::vec3::Vec3;

#[test]
fn pack_and_unpack() {
    let c = from_rgb(0x12, 0x34, 0x56);
    assert_eq!(c, 0x123456);
    let (r, g, b) = to_rgb(0xFF8000);
    assert_eq!(r, FP_ONE);
    // 0x80 / 255 = 0.50196..., fixed point floor 32896.
    assert_eq!(g, 32896);
    assert_eq!(b, 0);
}

#[test]
fn intensity_scales_and_saturates() {
    // Half intensity halves each channel.
    assert_eq!(apply_intensity(0x808080, FP_HALF), 0x404040);
    // A large intensity saturates at white.
    assert_eq!(apply_intensity(0xFFFFFF, 8 * FP_ONE), 0xFFFFFF);
    // Zero intensity blacks out.
    assert_eq!(apply_intensity(0xABCDEF, 0), 0);
}

#[test]
fn combining_saturates_at_white() {
    assert_eq!(combine_colors(0x101010, 0x202020), 0x303030);
    assert_eq!(combine_colors(0xF0F0F0, 0x404040), 0xFFFFFF);
    assert_eq!(combine_colors(0, 0xABCDEF), 0xABCDEF);
}

#[test]
fn quantization_gamma_and_clamp() {
    // A full-white sample maps to the top of the clamped range.
    let white = Vec3 { x: FP_ONE, y: FP_ONE, z: FP_ONE };
    assert_eq!(quantize_color(white, 1), (255, 255, 255));
    // Black stays black.
    let black = Vec3 { x: 0, y: 0, z: 0 };
    assert_eq!(quantize_color(black, 1), (0, 0, 0));
    // A quarter averages to one half after the square-root correction:
    // sqrt(0.25) = 0.5, and 0.5 * 256 = 128.
    let quarter = Vec3 { x: FP_ONE / 4, y: FP_ONE / 4, z: FP_ONE / 4 };
    assert_eq!(quantize_color(quarter, 1), (128, 128, 128));
    // Four samples of full white average to one white sample.
    let four_white = Vec3 { x: 4 * FP_ONE, y: 4 * FP_ONE, z: 4 * FP_ONE };
    assert_eq!(quantize_color(four_white, 4), (255, 255, 255));
    // Negative accumulations clamp to black.
    let negative = Vec3 { x: -FP_ONE, y: -FP_ONE, z: -FP_ONE };
    assert_eq!(quantize_color(negative, 1), (0, 0, 0));
}

#[test]
fn random_draws_stay_in_range() {
    for _ in 0..256 {
        let d = random_double();
        assert!(0 <= d && d < FP_ONE);
        let a = random_axis();
        assert!(a < 3);
    }
}
