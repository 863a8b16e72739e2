//! Flat circles: containment and a discriminant-only ray test.

use vstd::prelude::*;

verus! {

use crate::fixed::{fpm, sqrt_floor, FP_ONE};
use crate::vec3::{Vec3, vec_bounded, dot_spec, dot};

/// Magnitude bound on circle geometry (1 << 24, 256 world units).
pub const CIRCLE_LIMIT: i64 = 16777216;

#[derive(Clone, Copy, Debug, PartialEq, Eq, Structural)]
pub struct Circle {
    pub center: Vec3,
    pub radius: i64,
    pub color: u32,
}

/// A well-formed circle: in-range centre and a moderate radius.
pub open spec fn circle_wf(c: Circle) -> bool {
    &&& vec_bounded(c.center, CIRCLE_LIMIT as int)
    &&& 0 <= c.radius <= CIRCLE_LIMIT
}

impl Circle {
    pub fn new(center: Vec3, radius: i64, color: u32) -> (c: Circle)
        ensures
            c == (Circle { center, radius, color }),
    {
        Circle { center, radius, color }
    }

    /// Whether the point lies inside the circle: its floor distance to
    /// the centre is at most the radius.
    pub fn contains(&self, point: Vec3) -> (r: bool)
        requires
            circle_wf(*self),
            vec_bounded(point, CIRCLE_LIMIT as int),
        ensures
            r == (sqrt_floor(
                dot_spec(
                    crate::vec3::Vec3 {
                        x: (self.center.x - point.x) as i64,
                        y: (self.center.y - point.y) as i64,
                        z: (self.center.z - point.z) as i64,
                    },
                    crate::vec3::Vec3 {
                        x: (self.center.x - point.x) as i64,
                        y: (self.center.y - point.y) as i64,
                        z: (self.center.z - point.z) as i64,
                    },
                ) * FP_ONE as int,
            ) <= self.radius),
    {
        let d = self.center.minus(&point);
        let dist: i64 = d.length();
        dist <= self.radius
    }

    pub fn get_color(&self) -> (r: u32)
        ensures
            r == self.color,
    {
        self.color
    }

    /// Whether a ray can meet the circle's sphere at all: the
    /// intersection quadratic has a non-negative discriminant.
    pub fn intersects(&self, origin: Vec3, direction: Vec3) -> (r: bool)
        requires
            circle_wf(*self),
            vec_bounded(origin, CIRCLE_LIMIT as int),
            vec_bounded(direction, CIRCLE_LIMIT as int),
        ensures
            r == ({
                let oc = crate::vec3::Vec3 {
                    x: (self.center.x - origin.x) as i64,
                    y: (self.center.y - origin.y) as i64,
                    z: (self.center.z - origin.z) as i64,
                };
                let a = dot_spec(direction, direction);
                let b = -2 * dot_spec(direction, oc);
                let c = dot_spec(oc, oc) - fpm(self.radius as int, self.radius as int);
                fpm(b, b) - 4 * fpm(a, c) >= 0
            }),
    {
        let oc = self.center.minus(&origin);
        let a: i64 = dot(direction, direction);
        let b: i64 = -2 * dot(direction, oc);
        proof {
            lemma_circle_terms(*self, origin, direction, oc);
        }
        let c: i64 = dot(oc, oc) - crate::fixed::fp_mul(self.radius, self.radius);
        proof {
            assert(0x18_0000_0000int * 0x18_0000_0000int <= 0x240_0000_0000_0000int
                * (FP_ONE as int)) by (nonlinear_arith);
            crate::fixed::lemma_fpm_abs(
                b as int,
                b as int,
                0x18_0000_0000,
                0x18_0000_0000,
                0x240_0000_0000_0000,
            );
            assert(0xC_0000_0000int * 0x10_0000_0000int <= 0xC0_0000_0000_0000int * (FP_ONE
                as int)) by (nonlinear_arith);
            crate::fixed::lemma_fpm_abs(
                a as int,
                c as int,
                0xC_0000_0000,
                0x10_0000_0000,
                0xC0_0000_0000_0000,
            );
        }
        let disc: i64 = crate::fixed::fp_mul(b, b) - 4 * crate::fixed::fp_mul(a, c);
        disc >= 0
    }
}

/// The quadratic's terms stay inside the scaling limits.
proof fn lemma_circle_terms(s: Circle, origin: Vec3, direction: Vec3, oc: Vec3)
    requires
        circle_wf(s),
        vec_bounded(origin, CIRCLE_LIMIT as int),
        vec_bounded(direction, CIRCLE_LIMIT as int),
        oc.x == s.center.x - origin.x,
        oc.y == s.center.y - origin.y,
        oc.z == s.center.z - origin.z,
    ensures
        -0xC_0000_0000 <= dot_spec(direction, direction) <= 0xC_0000_0000,
        -0xC_0000_0000 <= dot_spec(direction, oc) <= 0xC_0000_0000,
        -0xC_0000_0000 <= dot_spec(oc, oc) <= 0xC_0000_0000,
        -0x1_0000_0000 <= fpm(s.radius as int, s.radius as int) <= 0x1_0000_0000,
{
    assert(-0xC_0000_0000_0000 <= direction.x * direction.x + direction.y * direction.y
        + direction.z * direction.z <= 0xC_0000_0000_0000
        && -0xC_0000_0000_0000 <= direction.x * oc.x + direction.y * oc.y + direction.z
        * oc.z <= 0xC_0000_0000_0000
        && -0xC_0000_0000_0000 <= oc.x * oc.x + oc.y * oc.y + oc.z * oc.z
        <= 0xC_0000_0000_0000) by (nonlinear_arith)
        requires
            vec_bounded(direction, CIRCLE_LIMIT as int),
            vec_bounded(oc, 2 * CIRCLE_LIMIT as int),
            CIRCLE_LIMIT == 0x100_0000,
    ;
    assert(0xC_0000_0000int * (FP_ONE as int) == 0xC_0000_0000_0000int)
        by (nonlinear_arith);
    crate::fixed::lemma_fdiv_abs_le(
        direction.x * direction.x + direction.y * direction.y + direction.z * direction.z,
        FP_ONE as int,
        0xC_0000_0000,
    );
    crate::fixed::lemma_fdiv_abs_le(
        direction.x * oc.x + direction.y * oc.y + direction.z * oc.z,
        FP_ONE as int,
        0xC_0000_0000,
    );
    crate::fixed::lemma_fdiv_abs_le(
        oc.x * oc.x + oc.y * oc.y + oc.z * oc.z,
        FP_ONE as int,
        0xC_0000_0000,
    );
    assert(CIRCLE_LIMIT as int * (CIRCLE_LIMIT as int) <= 0x1_0000_0000int * (FP_ONE as int))
        by (nonlinear_arith)
        requires
            CIRCLE_LIMIT == 0x100_0000,
            FP_ONE == 65536,
    ;
    crate::fixed::lemma_fpm_abs(
        s.radius as int,
        s.radius as int,
        CIRCLE_LIMIT as int,
        CIRCLE_LIMIT as int,
        0x1_0000_0000,
    );
}

} // verus!
