//! Shared scalar helpers: angles, clamping, cube-face texture mapping.

use vstd::prelude::*;

verus! {

use crate::fixed::{fdiv, fpm, fp_mul, fp_clamp, FP_ONE};
use crate::vec3::Vec3;

/// Pi in fixed point.
pub const FP_PI: i64 = 205887;

/// Convert an angle in (fixed-point) degrees to radians.
pub fn degrees_to_radians(degrees: i64) -> (r: i64)
    requires
        -720 * FP_ONE as int <= degrees <= 720 * FP_ONE as int,
    ensures
        r == fdiv(fpm(degrees as int, FP_PI as int), 180),
{
    proof {
        crate::fixed::lemma_fpm_abs(
            degrees as int,
            FP_PI as int,
            720 * FP_ONE as int,
            FP_PI as int,
            0x2_3000_0000,
        );
        assert(720 * FP_ONE as int * (FP_PI as int) <= 0x2_3000_0000int * (FP_ONE as int))
            by (nonlinear_arith)
            requires
                FP_ONE == 65536,
                FP_PI == 205887,
        ;
        crate::fixed::lemma_fdiv_bounds(
            fpm(degrees as int, FP_PI as int),
            180,
            0x2_3000_0000,
        );
    }
    let scaled: i64 = fp_mul(degrees, FP_PI);
    let q: i128 = crate::fixed::floor_div_i128(scaled as i128, 180);
    q as i64
}

/// Clamp a scalar into `[min, max]`.
pub fn clamp(x: i64, min: i64, max: i64) -> (r: i64)
    requires
        min <= max,
    ensures
        r == if x < min { min } else if x > max { max } else { x },
{
    fp_clamp(x, min, max)
}

/// Clamp texture coordinates into the unit square.
pub fn clamp_uv(u: i64, v: i64) -> (r: (i64, i64))
    ensures
        r.0 == if u < 0 { 0i64 } else if u > FP_ONE { FP_ONE } else { u },
        r.1 == if v < 0 { 0i64 } else if v > FP_ONE { FP_ONE } else { v },
{
    (fp_clamp(u, 0, FP_ONE), fp_clamp(v, 0, FP_ONE))
}

/// The cube-face index for a normal: the dominant axis and its sign pick
/// one of six faces of a texture atlas.
pub open spec fn face_index_spec(n: Vec3) -> int {
    let ax = if n.x >= 0 { n.x as int } else { -n.x as int };
    let ay = if n.y >= 0 { n.y as int } else { -n.y as int };
    let az = if n.z >= 0 { n.z as int } else { -n.z as int };
    if ax > ay && ax > az {
        if n.x >= 0 { 5 } else { 3 }
    } else if ay > az {
        if n.y >= 0 { 2 } else { 4 }
    } else {
        if n.z >= 0 { 6 } else { 1 }
    }
}

/// Shift `u` into the face-atlas slot the normal's dominant axis picks.
pub fn map_uv(u: i64, v: i64, normal: Vec3) -> (r: (i64, i64))
    requires
        -0x1000_0000_0000 <= u <= 0x1000_0000_0000,
        crate::vec3::vec_bounded(normal, 0x1000_0000_0000),
    ensures
        r.0 == face_index_spec(normal) * FP_ONE - u,
        r.1 == v,
{
    let ax: i64 = if normal.x >= 0 {
        normal.x
    } else {
        -normal.x
    };
    let ay: i64 = if normal.y >= 0 {
        normal.y
    } else {
        -normal.y
    };
    let az: i64 = if normal.z >= 0 {
        normal.z
    } else {
        -normal.z
    };
    let face: i64 = if ax > ay && ax > az {
        if normal.x >= 0 {
            5
        } else {
            3
        }
    } else if ay > az {
        if normal.y >= 0 {
            2
        } else {
            4
        }
    } else {
        if normal.z >= 0 {
            6
        } else {
            1
        }
    };
    (face * FP_ONE - u, v)
}

} // verus!
