//! The camera: an image-plane basis and a ray per normalized pixel
//! coordinate.

use vstd::prelude::*;

verus! {

use crate::fixed::{fpm, fpd, sqrt_floor, fp_mul, FP_ONE, FP_HALF};
use crate::vec3::{
    Vec3, Point3, vec_bounded, vec_in_range, dot_spec, cross_spec, normalize_spec, dot, cross,
    unit_vector,
};
use crate::ray::{Ray, ray_wf};

/// Magnitude bound on the camera's positions (1 << 24, 256 world units).
pub const CAM_POS_LIMIT: i64 = 16777216;

/// Magnitude bound on the camera's image-plane basis vectors (1 << 22,
/// 64 world units).
pub const CAM_BASIS_LIMIT: i64 = 4194304;

/// Magnitude bound on camera positions handed to the constructors
/// (1 << 22, 64 world units).
pub const EYE_LIMIT: i64 = 4194304;

/// The half-height of a 90-degree field of view: `tan(45°) = 1`.
pub const FOV_H_90: i64 = 65536;

/// The half-height of a 45-degree field of view: `tan(22.5°)` in fixed
/// point.
pub const FOV_H_45: i64 = 27146;

#[derive(Clone, Copy, Debug, PartialEq, Eq, Structural)]
pub struct Camera {
    pub origin: Point3,
    pub lower_left_corner: Point3,
    pub horizontal: Vec3,
    pub vertical: Vec3,
}

/// A well-formed camera: all four vectors bounded.
pub open spec fn camera_wf(c: Camera) -> bool {
    &&& vec_bounded(c.origin, CAM_POS_LIMIT as int)
    &&& vec_bounded(c.lower_left_corner, CAM_POS_LIMIT as int)
    &&& vec_bounded(c.horizontal, CAM_BASIS_LIMIT as int)
    &&& vec_bounded(c.vertical, CAM_BASIS_LIMIT as int)
}

/// The exact value of the axis-aligned camera: viewport height 2, focal
/// length 1, width from the aspect ratio.
pub open spec fn camera_new_spec(aspect_ratio: int) -> Camera {
    let vw = fpm(aspect_ratio, 2 * FP_ONE as int);
    Camera {
        origin: Vec3 { x: 0i64, y: 0i64, z: 0i64 },
        lower_left_corner: Vec3 {
            x: (-fpd(vw, 2 * FP_ONE as int)) as i64,
            y: (-FP_ONE) as i64,
            z: (-FP_ONE) as i64,
        },
        horizontal: Vec3 { x: vw as i64, y: 0i64, z: 0i64 },
        vertical: Vec3 { x: 0i64, y: (2 * FP_ONE) as i64, z: 0i64 },
    }
}

/// The exact value of the perspective camera: an orthonormal-ish basis
/// from the view direction and the up vector, the viewport spanned by
/// the field of view, and the axis-aligned fallback on degenerate
/// inputs.
pub open spec fn perspective_spec(
    lookfrom: Point3,
    lookat: Point3,
    vup: Vec3,
    half_h: int,
    aspect_ratio: int,
) -> Camera {
    let diff = Vec3 {
        x: (lookfrom.x - lookat.x) as i64,
        y: (lookfrom.y - lookat.y) as i64,
        z: (lookfrom.z - lookat.z) as i64,
    };
    if dot_spec(diff, diff) < 1 {
        camera_new_spec(aspect_ratio)
    } else {
        let w = normalize_spec(diff);
        let cu = cross_spec(vup, w);
        if dot_spec(cu, cu) < 1 {
            camera_new_spec(aspect_ratio)
        } else {
            let u = normalize_spec(cu);
            let v = cross_spec(w, u);
            let vh = 2 * half_h;
            let vw = fpm(aspect_ratio, vh);
            let horizontal = Vec3 {
                x: fpm(u.x as int, vw) as i64,
                y: fpm(u.y as int, vw) as i64,
                z: fpm(u.z as int, vw) as i64,
            };
            let vertical = Vec3 {
                x: fpm(v.x as int, vh) as i64,
                y: fpm(v.y as int, vh) as i64,
                z: fpm(v.z as int, vh) as i64,
            };
            Camera {
                origin: lookfrom,
                lower_left_corner: Vec3 {
                    x: (lookfrom.x - fpd(horizontal.x as int, 2 * FP_ONE as int) - fpd(
                        vertical.x as int,
                        2 * FP_ONE as int,
                    ) - w.x) as i64,
                    y: (lookfrom.y - fpd(horizontal.y as int, 2 * FP_ONE as int) - fpd(
                        vertical.y as int,
                        2 * FP_ONE as int,
                    ) - w.y) as i64,
                    z: (lookfrom.z - fpd(horizontal.z as int, 2 * FP_ONE as int) - fpd(
                        vertical.z as int,
                        2 * FP_ONE as int,
                    ) - w.z) as i64,
                },
                horizontal,
                vertical,
            }
        }
    }
}

/// The exact value of the bound-framing camera: the eye on a ring a
/// diagonal and a half out from the box centre, looking at the centre
/// with a 45-degree field of view.
pub open spec fn from_bounds_spec(
    min: Point3,
    max: Point3,
    aspect_ratio: int,
    sin_a: int,
    cos_a: int,
) -> Camera {
    let cx = fpm(min.x + max.x, FP_HALF as int);
    let cy = fpm(min.y + max.y, FP_HALF as int);
    let cz = fpm(min.z + max.z, FP_HALF as int);
    let d = Vec3 {
        x: (max.x - min.x) as i64,
        y: (max.y - min.y) as i64,
        z: (max.z - min.z) as i64,
    };
    let diag = sqrt_floor(dot_spec(d, d) * FP_ONE as int);
    let radius = diag + diag / 2;
    let lookfrom = Vec3 {
        x: (cx + fpm(radius, cos_a)) as i64,
        y: (cy + fpm(diag, FP_HALF as int)) as i64,
        z: (cz + fpm(radius, sin_a)) as i64,
    };
    perspective_spec(
        lookfrom,
        Vec3 { x: cx as i64, y: cy as i64, z: cz as i64 },
        Vec3 { x: 0i64, y: FP_ONE, z: 0i64 },
        FOV_H_45 as int,
        aspect_ratio,
    )
}

/// The exact ray for normalized image coordinates `(u, v)`.
pub open spec fn get_ray_spec(c: Camera, u: int, v: int) -> Ray {
    Ray {
        origin: c.origin,
        direction: Vec3 {
            x: (c.lower_left_corner.x + fpm(c.horizontal.x as int, u) + fpm(
                c.vertical.x as int,
                v,
            ) - c.origin.x) as i64,
            y: (c.lower_left_corner.y + fpm(c.horizontal.y as int, u) + fpm(
                c.vertical.y as int,
                v,
            ) - c.origin.y) as i64,
            z: (c.lower_left_corner.z + fpm(c.horizontal.z as int, u) + fpm(
                c.vertical.z as int,
                v,
            ) - c.origin.z) as i64,
        },
        current_ior: FP_ONE,
    }
}

impl Camera {
    /// The axis-aligned camera at the origin: viewport height 2, focal
    /// length 1.
    pub fn new(aspect_ratio: i64) -> (c: Camera)
        requires
            FP_ONE / 4 <= aspect_ratio <= 4 * FP_ONE as int,
        ensures
            c == camera_new_spec(aspect_ratio as int),
            camera_wf(c),
    {
        let viewport_width: i64 = fp_mul(aspect_ratio, 2 * FP_ONE);
        proof {
            crate::fixed::lemma_fpm_abs(
                aspect_ratio as int,
                2 * FP_ONE as int,
                4 * FP_ONE as int,
                2 * FP_ONE as int,
                8 * FP_ONE as int,
            );
        }
        let half_w: i64 = crate::fixed::fp_div(viewport_width, 2 * FP_ONE);
        proof {
            crate::fixed::lemma_fdiv_abs_le(
                viewport_width as int * FP_ONE as int,
                2 * FP_ONE as int,
                8 * FP_ONE as int,
            );
            assert(8 * FP_ONE as int * (2 * FP_ONE as int) >= viewport_width as int * FP_ONE
                as int && -(8 * FP_ONE as int * (2 * FP_ONE as int)) <= viewport_width as int
                * FP_ONE as int) by (nonlinear_arith)
                requires
                    -8 * 65536 <= viewport_width <= 8 * 65536,
                    FP_ONE == 65536,
            ;
        }
        Camera {
            origin: Vec3 { x: 0, y: 0, z: 0 },
            lower_left_corner: Vec3 { x: -half_w, y: -FP_ONE, z: -FP_ONE },
            horizontal: Vec3 { x: viewport_width, y: 0, z: 0 },
            vertical: Vec3 { x: 0, y: 2 * FP_ONE, z: 0 },
        }
    }

    /// The default 16:9 camera.
    pub fn default() -> (c: Camera)
        ensures
            c == camera_new_spec(116052),
            camera_wf(c),
    {
        let aspect: i64 = FP_ONE + fp_mul(FP_ONE, 50516);
        proof {
            crate::fixed::lemma_fpm_comm(FP_ONE as int, 50516);
            crate::fixed::lemma_fpm_one(50516);
        }
        Camera::new(aspect)
    }

    /// A perspective camera looking from `lookfrom` to `lookat`;
    /// `half_h` is the tangent of half the vertical field of view.  For
    /// degenerate inputs (a view direction or basis of less than unit
    /// length) it falls back to the axis-aligned camera.
    pub fn perspective(
        lookfrom: Point3,
        lookat: Point3,
        vup: Vec3,
        half_h: i64,
        aspect_ratio: i64,
    ) -> (c: Camera)
        requires
            vec_bounded(lookfrom, EYE_LIMIT as int),
            vec_bounded(lookat, EYE_LIMIT as int),
            vec_bounded(vup, 2 * FP_ONE as int),
            0 < half_h <= 2 * FP_ONE as int,
            FP_ONE / 4 <= aspect_ratio <= 4 * FP_ONE as int,
        ensures
            c == perspective_spec(
                lookfrom,
                lookat,
                vup,
                half_h as int,
                aspect_ratio as int,
            ),
            camera_wf(c),
    {
        let diff = lookfrom.minus(&lookat);
        let dd: i64 = dot(diff, diff);
        proof {
            crate::vec3::lemma_dot_self_nonneg(diff);
        }
        if dd < 1 {
            return Camera::new(aspect_ratio);
        }
        let w = unit_vector(diff);
        let cu_raw = cross(vup, w);
        let dd2: i64 = dot(cu_raw, cu_raw);
        proof {
            crate::vec3::lemma_dot_self_nonneg(cu_raw);
        }
        if dd2 < 1 {
            return Camera::new(aspect_ratio);
        }
        proof {
            crate::vec3::lemma_cross_spec_bounded(vup, w);
        }
        let u = unit_vector(cu_raw);
        let v = cross(w, u);
        proof {
            lemma_cross_unit_bounded(w, u);
        }
        let viewport_height: i64 = 2 * half_h;
        proof {
            assert(4 * FP_ONE as int * (4 * FP_ONE as int) <= 16 * FP_ONE as int * (FP_ONE
                as int)) by (nonlinear_arith)
                requires
                    FP_ONE == 65536,
            ;
            crate::fixed::lemma_fpm_abs(
                aspect_ratio as int,
                viewport_height as int,
                4 * FP_ONE as int,
                4 * FP_ONE as int,
                16 * FP_ONE as int,
            );
        }
        let viewport_width: i64 = fp_mul(aspect_ratio, viewport_height);
        proof {
            assert(2 * FP_ONE as int * (16 * FP_ONE as int) <= 32 * FP_ONE as int * (FP_ONE
                as int) && 8 * FP_ONE as int * (4 * FP_ONE as int) <= 32 * FP_ONE as int * (
            FP_ONE as int)) by (nonlinear_arith)
                requires
                    FP_ONE == 65536,
            ;
            crate::fixed::lemma_fpm_abs(u.x as int, viewport_width as int, 2 * FP_ONE as int, 16 * FP_ONE as int, 32 * FP_ONE as int);
            crate::fixed::lemma_fpm_abs(u.y as int, viewport_width as int, 2 * FP_ONE as int, 16 * FP_ONE as int, 32 * FP_ONE as int);
            crate::fixed::lemma_fpm_abs(u.z as int, viewport_width as int, 2 * FP_ONE as int, 16 * FP_ONE as int, 32 * FP_ONE as int);
            crate::fixed::lemma_fpm_abs(v.x as int, viewport_height as int, 8 * FP_ONE as int, 4 * FP_ONE as int, 32 * FP_ONE as int);
            crate::fixed::lemma_fpm_abs(v.y as int, viewport_height as int, 8 * FP_ONE as int, 4 * FP_ONE as int, 32 * FP_ONE as int);
            crate::fixed::lemma_fpm_abs(v.z as int, viewport_height as int, 8 * FP_ONE as int, 4 * FP_ONE as int, 32 * FP_ONE as int);
        }
        let horizontal = u.scaled(viewport_width);
        let vertical = v.scaled(viewport_height);
        let half_horizontal = horizontal.div_scalar(2 * FP_ONE);
        let half_vertical = vertical.div_scalar(2 * FP_ONE);
        proof {
            lemma_halved_bounded(horizontal, 32 * FP_ONE as int);
            lemma_halved_bounded(vertical, 32 * FP_ONE as int);
        }
        let lower_left_corner = lookfrom.minus(&half_horizontal).minus(&half_vertical).minus(&w);
        Camera { origin: lookfrom, lower_left_corner, horizontal, vertical }
    }

    /// Frame a bound box: look at its centre from a ring position given
    /// by `(sin_a, cos_a)`, one and a half diagonals out, with a
    /// 45-degree field of view.
    pub fn from_bounds(
        min: Point3,
        max: Point3,
        aspect_ratio: i64,
        sin_a: i64,
        cos_a: i64,
    ) -> (c: Camera)
        requires
            vec_bounded(min, 0x8_0000),
            vec_bounded(max, 0x8_0000),
            -FP_ONE <= sin_a <= FP_ONE,
            -FP_ONE <= cos_a <= FP_ONE,
            FP_ONE / 4 <= aspect_ratio <= 4 * FP_ONE as int,
        ensures
            c == from_bounds_spec(min, max, aspect_ratio as int, sin_a as int, cos_a as int),
            camera_wf(c),
    {
        let cx: i64 = fp_mul(min.x + max.x, FP_HALF);
        let cy: i64 = fp_mul(min.y + max.y, FP_HALF);
        let cz: i64 = fp_mul(min.z + max.z, FP_HALF);
        proof {
            assert(0x10_0000int * (FP_HALF as int) <= 0x8_0000int * (FP_ONE as int))
                by (nonlinear_arith)
                requires
                    FP_ONE == 65536,
                    FP_HALF == 32768,
            ;
            crate::fixed::lemma_fpm_abs(min.x + max.x, FP_HALF as int, 0x10_0000, FP_HALF as int, 0x8_0000);
            crate::fixed::lemma_fpm_abs(min.y + max.y, FP_HALF as int, 0x10_0000, FP_HALF as int, 0x8_0000);
            crate::fixed::lemma_fpm_abs(min.z + max.z, FP_HALF as int, 0x10_0000, FP_HALF as int, 0x8_0000);
        }
        let center = Vec3 { x: cx, y: cy, z: cz };
        let d = max.minus(&min);
        let diag: i64 = d.length();
        proof {
            assert(0 <= d.x * d.x + d.y * d.y + d.z * d.z <= 0x300_0000_0000)
                by (nonlinear_arith)
                requires
                    vec_bounded(d, 0x10_0000),
            ;
            assert(0x300_0000int * 0x1_0000int == 0x300_0000_0000int) by (nonlinear_arith);
            crate::fixed::lemma_fdiv_abs_le(
                d.x * d.x + d.y * d.y + d.z * d.z,
                FP_ONE as int,
                0x300_0000,
            );
            assert(diag <= 0x20_0000) by (nonlinear_arith)
                requires
                    diag as int * diag as int <= dot_spec(d, d) * 65536,
                    0 <= dot_spec(d, d) <= 0x300_0000,
                    0 <= diag,
            ;
        }
        let radius: i64 = diag + diag / 2;
        let x: i64 = fp_mul(radius, cos_a);
        let z: i64 = fp_mul(radius, sin_a);
        let y: i64 = fp_mul(diag, FP_HALF);
        proof {
            assert(0x30_0000int * (FP_ONE as int) <= 0x30_0000int * (FP_ONE as int));
            assert(0x20_0000int * (FP_HALF as int) <= 0x10_0000int * (FP_ONE as int))
                by (nonlinear_arith)
                requires
                    FP_ONE == 65536,
                    FP_HALF == 32768,
            ;
            crate::fixed::lemma_fpm_abs(radius as int, cos_a as int, 0x30_0000, FP_ONE as int, 0x30_0000);
            crate::fixed::lemma_fpm_abs(radius as int, sin_a as int, 0x30_0000, FP_ONE as int, 0x30_0000);
            crate::fixed::lemma_fpm_abs(diag as int, FP_HALF as int, 0x20_0000, FP_HALF as int, 0x10_0000);
        }
        let lookfrom = center.plus(&Vec3 { x, y, z });
        let vup = Vec3 { x: 0, y: FP_ONE, z: 0 };
        Camera::perspective(lookfrom, center, vup, FOV_H_45, aspect_ratio)
    }

    /// A perspective camera given a position and a view direction
    /// instead of a look-at point.
    pub fn from_gltf(
        position: Vec3,
        direction: Vec3,
        up: Vec3,
        half_h: i64,
        aspect_ratio: i64,
    ) -> (c: Camera)
        requires
            vec_bounded(position, EYE_LIMIT as int / 2),
            vec_bounded(direction, EYE_LIMIT as int / 2),
            vec_bounded(up, 2 * FP_ONE as int),
            0 < half_h <= 2 * FP_ONE as int,
            FP_ONE / 4 <= aspect_ratio <= 4 * FP_ONE as int,
        ensures
            c == perspective_spec(
                position,
                Vec3 {
                    x: (position.x + direction.x) as i64,
                    y: (position.y + direction.y) as i64,
                    z: (position.z + direction.z) as i64,
                },
                up,
                half_h as int,
                aspect_ratio as int,
            ),
            camera_wf(c),
    {
        let lookat = position.plus(&direction);
        Camera::perspective(position, lookat, up, half_h, aspect_ratio)
    }

    /// Move the eye, keeping the image-plane basis.
    pub fn set_position(&mut self, position: Point3)
        requires
            vec_bounded(position, CAM_POS_LIMIT as int),
            camera_wf(*old(self)),
        ensures
            camera_wf(*final(self)),
            final(self).origin == position,
            final(self).lower_left_corner == old(self).lower_left_corner,
            final(self).horizontal == old(self).horizontal,
            final(self).vertical == old(self).vertical,
    {
        self.origin = position;
    }

    /// The ray through normalized image coordinates `(u, v)`.
    pub fn get_ray(&self, u: i64, v: i64) -> (r: Ray)
        requires
            camera_wf(*self),
            -2 * FP_ONE as int <= u <= 2 * FP_ONE as int,
            -2 * FP_ONE as int <= v <= 2 * FP_ONE as int,
        ensures
            r == get_ray_spec(*self, u as int, v as int),
            ray_wf(r),
    {
        proof {
            assert(CAM_BASIS_LIMIT as int * (2 * FP_ONE as int) <= 2 * CAM_BASIS_LIMIT as int
                * (FP_ONE as int)) by (nonlinear_arith)
                requires
                    FP_ONE == 65536,
                    CAM_BASIS_LIMIT == 4194304,
            ;
            crate::fixed::lemma_fpm_abs(self.horizontal.x as int, u as int, CAM_BASIS_LIMIT as int, 2 * FP_ONE as int, 2 * CAM_BASIS_LIMIT as int);
            crate::fixed::lemma_fpm_abs(self.horizontal.y as int, u as int, CAM_BASIS_LIMIT as int, 2 * FP_ONE as int, 2 * CAM_BASIS_LIMIT as int);
            crate::fixed::lemma_fpm_abs(self.horizontal.z as int, u as int, CAM_BASIS_LIMIT as int, 2 * FP_ONE as int, 2 * CAM_BASIS_LIMIT as int);
            crate::fixed::lemma_fpm_abs(self.vertical.x as int, v as int, CAM_BASIS_LIMIT as int, 2 * FP_ONE as int, 2 * CAM_BASIS_LIMIT as int);
            crate::fixed::lemma_fpm_abs(self.vertical.y as int, v as int, CAM_BASIS_LIMIT as int, 2 * FP_ONE as int, 2 * CAM_BASIS_LIMIT as int);
            crate::fixed::lemma_fpm_abs(self.vertical.z as int, v as int, CAM_BASIS_LIMIT as int, 2 * FP_ONE as int, 2 * CAM_BASIS_LIMIT as int);
        }
        let hu = self.horizontal.scaled(u);
        let vv = self.vertical.scaled(v);
        let direction = self.lower_left_corner.plus(&hu).plus(&vv).minus(&self.origin);
        Ray::new(self.origin, direction)
    }
}

/// The cross product of two unit-scale basis vectors is small.
proof fn lemma_cross_unit_bounded(w: Vec3, u: Vec3)
    requires
        vec_bounded(w, 2 * FP_ONE as int),
        vec_bounded(u, 2 * FP_ONE as int),
    ensures
        vec_bounded(cross_spec(w, u), 8 * FP_ONE as int),
{
    assert(-(8 * 65536 * 65536) <= w.y * u.z - w.z * u.y <= 8 * 65536 * 65536
        && -(8 * 65536 * 65536) <= w.z * u.x - w.x * u.z <= 8 * 65536 * 65536
        && -(8 * 65536 * 65536) <= w.x * u.y - w.y * u.x <= 8 * 65536 * 65536)
        by (nonlinear_arith)
        requires
            vec_bounded(w, 131072int),
            vec_bounded(u, 131072int),
    ;
    assert(524288int * (FP_ONE as int) == 8 * 65536int * 65536int) by (nonlinear_arith);
    crate::fixed::lemma_fdiv_abs_le(w.y * u.z - w.z * u.y, FP_ONE as int, 524288int);
    crate::fixed::lemma_fdiv_abs_le(w.z * u.x - w.x * u.z, FP_ONE as int, 524288int);
    crate::fixed::lemma_fdiv_abs_le(w.x * u.y - w.y * u.x, FP_ONE as int, 524288int);
}

/// Halving a bounded vector keeps it bounded.
proof fn lemma_halved_bounded(v: Vec3, m: int)
    requires
        0 <= m,
        vec_bounded(v, m),
    ensures
        -m <= fpd(v.x as int, 2 * FP_ONE as int) <= m,
        -m <= fpd(v.y as int, 2 * FP_ONE as int) <= m,
        -m <= fpd(v.z as int, 2 * FP_ONE as int) <= m,
{
    assert(m * (2 * FP_ONE as int) >= m * FP_ONE as int && m * FP_ONE as int >= m)
        by (nonlinear_arith)
        requires
            0 <= m,
            FP_ONE == 65536,
    ;
    assert(-(m * FP_ONE as int) <= v.x * FP_ONE as int <= m * FP_ONE as int
        && -(m * FP_ONE as int) <= v.y * FP_ONE as int <= m * FP_ONE as int
        && -(m * FP_ONE as int) <= v.z * FP_ONE as int <= m * FP_ONE as int)
        by (nonlinear_arith)
        requires
            vec_bounded(v, m),
            0 <= m,
    ;
    crate::fixed::lemma_fdiv_abs_le(v.x * FP_ONE as int, 2 * FP_ONE as int, m);
    crate::fixed::lemma_fdiv_abs_le(v.y * FP_ONE as int, 2 * FP_ONE as int, m);
    crate::fixed::lemma_fdiv_abs_le(v.z * FP_ONE as int, 2 * FP_ONE as int, m);
}

} // verus!
