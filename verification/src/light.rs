//! Point lights: a position and an intensity that may exceed unit energy.

use vstd::prelude::*;

verus! {

use crate::fixed::{fpm, sqrt_floor, FP_ONE, FP_HALF};
use crate::vec3::{Vec3, Point3, Color, vec_bounded, vec_in_range, dot_spec, DIR_LIMIT};

/// Intensities may exceed unit energy, up to this factor.
pub const LIGHT_LIMIT: i64 = 16777216;

#[derive(Clone, Copy, Debug, PartialEq, Eq, Structural)]
pub struct Light {
    pub p: Point3,
    pub intensity: Color,
}

/// A well-formed light: position in scene range, channels non-negative
/// and moderate.
pub open spec fn light_wf(l: Light) -> bool {
    &&& vec_in_range(l.p)
    &&& 0 <= l.intensity.x <= LIGHT_LIMIT
    &&& 0 <= l.intensity.y <= LIGHT_LIMIT
    &&& 0 <= l.intensity.z <= LIGHT_LIMIT
}

/// The position `from_bounds` derives: above and beside the bound box,
/// one diagonal length away.
pub open spec fn light_pos_spec(min: Point3, max: Point3) -> Point3 {
    let cx = fpm(min.x + max.x, FP_HALF as int);
    let cy = fpm(min.y + max.y, FP_HALF as int);
    let cz = fpm(min.z + max.z, FP_HALF as int);
    let d = Vec3 { x: (max.x - min.x) as i64, y: (max.y - min.y) as i64, z: (max.z - min.z) as i64 };
    let diag = sqrt_floor(dot_spec(d, d) * FP_ONE as int);
    Vec3 { x: (cx - diag) as i64, y: (cy + diag) as i64, z: (cz + diag) as i64 }
}

impl Light {
    pub fn new(p: Point3, intensity: Color) -> (l: Light)
        ensures
            l == (Light { p, intensity }),
    {
        Light { p, intensity }
    }

    /// Place a light beside and above a scene's bounding volume.
    pub fn from_bounds(min: Point3, max: Point3, intensity: Color) -> (l: Light)
        requires
            vec_bounded(min, DIR_LIMIT as int),
            vec_bounded(max, DIR_LIMIT as int),
        ensures
            l.p == light_pos_spec(min, max),
            l.intensity == intensity,
            vec_in_range(l.p),
    {
        let cx: i64 = crate::fixed::fp_mul(min.x + max.x, FP_HALF);
        let cy: i64 = crate::fixed::fp_mul(min.y + max.y, FP_HALF);
        let cz: i64 = crate::fixed::fp_mul(min.z + max.z, FP_HALF);
        let d = max.minus(&min);
        let diag: i64 = d.length();
        proof {
            assert(0 <= d.x * d.x + d.y * d.y + d.z * d.z <= 0xC0_0000_0000_0000)
                by (nonlinear_arith)
                requires
                    vec_bounded(d, 2 * DIR_LIMIT as int),
                    DIR_LIMIT == 0x400_0000,
            ;
            assert(0xC0_0000_0000int * 0x1_0000int == 0xC0_0000_0000_0000int)
                by (nonlinear_arith);
            crate::fixed::lemma_fdiv_abs_le(
                d.x * d.x + d.y * d.y + d.z * d.z,
                FP_ONE as int,
                0xC0_0000_0000,
            );
            assert(diag < 0x1000_0000) by (nonlinear_arith)
                requires
                    diag as int * diag as int <= dot_spec(d, d) * 65536,
                    0 <= dot_spec(d, d) <= 0xC0_0000_0000,
                    0 <= diag,
            ;
            crate::fixed::lemma_fpm_abs(
                min.x + max.x,
                FP_HALF as int,
                2 * DIR_LIMIT as int,
                FP_HALF as int,
                DIR_LIMIT as int,
            );
            crate::fixed::lemma_fpm_abs(
                min.y + max.y,
                FP_HALF as int,
                2 * DIR_LIMIT as int,
                FP_HALF as int,
                DIR_LIMIT as int,
            );
            crate::fixed::lemma_fpm_abs(
                min.z + max.z,
                FP_HALF as int,
                2 * DIR_LIMIT as int,
                FP_HALF as int,
                DIR_LIMIT as int,
            );
        }
        Light {
            p: Vec3 { x: cx - diag, y: cy + diag, z: cz + diag },
            intensity,
        }
    }

    pub fn position(&self) -> (r: Point3)
        ensures
            r == self.p,
    {
        self.p
    }

    pub fn intensity(&self) -> (r: Color)
        ensures
            r == self.intensity,
    {
        self.intensity
    }
}

} // verus!
