//! Spheres and their quadratic ray intersection.

use vstd::prelude::*;

verus! {

use crate::fixed::{fdiv, fpd, is_sqrt_floor, sqrt_floor, isqrt_u128, floor_div_i128, FP_ONE};
use crate::vec3::{Vec3, Point3, vec_in_range, vec_bounded, dot_spec, VEC_LIMIT, DIR_LIMIT};
use crate::ray::{Ray, ray_wf, at_spec, T_LIMIT};
use crate::aabb::{AABB, aabb_wf, contains_point, point_in_box};
use crate::hit::{HitRecord, face_normal_spec, set_face_normal, rec_wf};

/// How far a primitive's bounding box extends past its exact extent, in
/// coordinate units; it absorbs the rounding of intersection parameters.
pub const BOX_PAD: i64 = 16;

/// The smallest admissible sphere radius (1/16 of a unit): it keeps the
/// outward normal near unit scale.
pub const MIN_RADIUS: i64 = 4096;

#[derive(Clone, Copy, Debug, PartialEq, Eq, Structural)]
pub struct Sphere {
    pub center: Point3,
    pub radius: i64,
    /// Handle into the world's material table.
    pub mat: usize,
}

/// A well-formed sphere: a moderate radius, and room in the coordinate
/// range for the padded bounding box.
pub open spec fn sphere_wf(s: Sphere) -> bool {
    &&& MIN_RADIUS <= s.radius <= VEC_LIMIT / 2 - BOX_PAD
    &&& vec_bounded(s.center, VEC_LIMIT as int / 2)
}

/// The sphere's padded bounding box.
pub open spec fn sphere_box_spec(s: Sphere) -> AABB {
    AABB {
        min: Vec3 {
            x: (s.center.x - s.radius - BOX_PAD) as i64,
            y: (s.center.y - s.radius - BOX_PAD) as i64,
            z: (s.center.z - s.radius - BOX_PAD) as i64,
        },
        max: Vec3 {
            x: (s.center.x + s.radius + BOX_PAD) as i64,
            y: (s.center.y + s.radius + BOX_PAD) as i64,
            z: (s.center.z + s.radius + BOX_PAD) as i64,
        },
    }
}

/// The exact quadratic data of a sphere intersection, before rescaling:
/// `a` is `|d|^2`, `hb` is `oc . d`, `c` is `|oc|^2 - r^2`, all at twice
/// the usual fixed-point scale.
pub open spec fn sphere_quadratic(s: Sphere, r: Ray) -> (int, int, int) {
    let ocx = r.origin.x - s.center.x;
    let ocy = r.origin.y - s.center.y;
    let ocz = r.origin.z - s.center.z;
    let dx = r.direction.x as int;
    let dy = r.direction.y as int;
    let dz = r.direction.z as int;
    (
        dx * dx + dy * dy + dz * dz,
        ocx * dx + ocy * dy + ocz * dz,
        ocx * ocx + ocy * ocy + ocz * ocz - s.radius * s.radius,
    )
}

/// The exact result of the sphere intersection: try the near root, then
/// the far root, inside the open window.  One guard goes beyond the
/// real-arithmetic description: a root whose computed hit point falls
/// outside the padded bounding box is reported as a miss.  The guard is
/// what lets the tree traversal prove that pruning loses nothing; it
/// can only fire when fixed-point rounding has already displaced the
/// point by more than the box pad.
pub open spec fn sphere_hit_spec(s: Sphere, r: Ray, t_min: int, t_max: int) -> Option<HitRecord> {
    let (a, hb, c) = sphere_quadratic(s, r);
    let disc = hb * hb - a * c;
    if a == 0 || disc < 0 {
        None
    } else {
        let sq = sqrt_floor(disc);
        let root1 = fdiv((-hb - sq) * FP_ONE as int, a);
        let root = if t_min < root1 < t_max {
            root1
        } else {
            fdiv((-hb + sq) * FP_ONE as int, a)
        };
        if !(t_min < root < t_max) {
            None
        } else {
            sphere_hit_at(s, r, root)
        }
    }
}

/// The record produced once a root inside the window is chosen.
pub open spec fn sphere_hit_at(s: Sphere, r: Ray, root: int) -> Option<HitRecord> {
    let p = at_spec(r, root);
    if !contains_point(sphere_box_spec(s), p) {
        None
    } else {
        let outward = Vec3 {
            x: fpd(p.x - s.center.x, s.radius as int) as i64,
            y: fpd(p.y - s.center.y, s.radius as int) as i64,
            z: fpd(p.z - s.center.z, s.radius as int) as i64,
        };
        let (front, normal) = face_normal_spec(r, outward);
        Some(
            HitRecord {
                p,
                normal,
                t: root as i64,
                front_face: front,
                u: 0,
                v: 0,
                mat: s.mat,
            },
        )
    }
}

impl Sphere {
    pub fn new(cen: Point3, r: i64, mat: usize) -> (s: Sphere)
        ensures
            s == (Sphere { center: cen, radius: r, mat }),
    {
        Sphere { center: cen, radius: r, mat }
    }

    /// The padded bounding box.
    pub fn bounding_box(&self) -> (b: AABB)
        requires
            sphere_wf(*self),
        ensures
            b == sphere_box_spec(*self),
            aabb_wf(b),
    {
        AABB {
            min: Vec3 {
                x: self.center.x - self.radius - BOX_PAD,
                y: self.center.y - self.radius - BOX_PAD,
                z: self.center.z - self.radius - BOX_PAD,
            },
            max: Vec3 {
                x: self.center.x + self.radius + BOX_PAD,
                y: self.center.y + self.radius + BOX_PAD,
                z: self.center.z + self.radius + BOX_PAD,
            },
        }
    }

    /// Solve the intersection quadratic and report the nearest root inside
    /// the open window `(t_min, t_max)`.
    pub fn hit(&self, ray: &Ray, t_min: i64, t_max: i64) -> (res: Option<HitRecord>)
        requires
            sphere_wf(*self),
            ray_wf(*ray),
            -T_LIMIT <= t_min <= t_max <= T_LIMIT,
        ensures
            res == sphere_hit_spec(*self, *ray, t_min as int, t_max as int),
    {
        let ocx: i128 = (ray.origin.x - self.center.x) as i128;
        let ocy: i128 = (ray.origin.y - self.center.y) as i128;
        let ocz: i128 = (ray.origin.z - self.center.z) as i128;
        let dx: i128 = ray.direction.x as i128;
        let dy: i128 = ray.direction.y as i128;
        let dz: i128 = ray.direction.z as i128;
        proof {
            assert(0 <= dx * dx <= 0x10_0000_0000_0000 && 0 <= dy * dy <= 0x10_0000_0000_0000
                && 0 <= dz * dz <= 0x10_0000_0000_0000
                && -0x180_0000_0000_0000 <= ocx * dx <= 0x180_0000_0000_0000
                && -0x180_0000_0000_0000 <= ocy * dy <= 0x180_0000_0000_0000
                && -0x180_0000_0000_0000 <= ocz * dz <= 0x180_0000_0000_0000
                && 0 <= ocx * ocx <= 0x2400_0000_0000_0000
                && 0 <= ocy * ocy <= 0x2400_0000_0000_0000
                && 0 <= ocz * ocz <= 0x2400_0000_0000_0000
                && 0 <= (self.radius as i128) * (self.radius as i128) <= 0x1000_0000_0000_0000)
                by (nonlinear_arith)
                requires
                    -0x6000_0000 <= ocx <= 0x6000_0000,
                    -0x6000_0000 <= ocy <= 0x6000_0000,
                    -0x6000_0000 <= ocz <= 0x6000_0000,
                    -0x400_0000 <= dx <= 0x400_0000,
                    -0x400_0000 <= dy <= 0x400_0000,
                    -0x400_0000 <= dz <= 0x400_0000,
                    0 <= self.radius <= 0x4000_0000,
            ;
        }
        let a: i128 = dx * dx + dy * dy + dz * dz;
        let hb: i128 = ocx * dx + ocy * dy + ocz * dz;
        let c: i128 = ocx * ocx + ocy * ocy + ocz * ocz
            - (self.radius as i128) * (self.radius as i128);
        if a == 0 {
            return None;
        }
        proof {
            assert(0 <= hb * hb <= 0x800_0000_0000_0000_0000_0000_0000_0000
                && -0x800_0000_0000_0000_0000_0000_0000_0000 <= a * c
                    <= 0x800_0000_0000_0000_0000_0000_0000_0000
                && -0x1000_0000_0000_0000_0000_0000_0000_0000 <= hb * hb - a * c
                <= 0x1000_0000_0000_0000_0000_0000_0000_0000) by (nonlinear_arith)
                requires
                    0 <= a <= 0x30_0000_0000_0000,
                    -0x480_0000_0000_0000 <= hb <= 0x480_0000_0000_0000,
                    -0x7000_0000_0000_0000 <= c <= 0x7000_0000_0000_0000,
            ;
        }
        let disc: i128 = hb * hb - a * c;
        if disc < 0 {
            return None;
        }
        let sq: i128 = isqrt_u128(disc as u128) as i128;
        proof {
            crate::fixed::lemma_sqrt_floor_unique(disc as int, sq as int);
            assert(sq as int * sq as int <= disc);
            assert(sq <= 0x4000_0000_0000_0000) by (nonlinear_arith)
                requires
                    sq as int * sq as int <= disc,
                    disc <= 0x1000_0000_0000_0000_0000_0000_0000_0000,
                    sq >= 0,
            ;
        }
        let root1: i128 = floor_div_i128((-hb - sq) * 65536, a);
        let root: i128 = if (t_min as i128) < root1 && root1 < (t_max as i128) {
            root1
        } else {
            floor_div_i128((-hb + sq) * 65536, a)
        };
        if !((t_min as i128) < root && root < (t_max as i128)) {
            return None;
        }
        let t: i64 = root as i64;
        let p: Point3 = ray.at(t);
        let bbox = self.bounding_box();
        if !point_in_box(&bbox, &p) {
            return None;
        }
        let diff = p.minus(&self.center);
        let outward = Vec3 {
            x: crate::fixed::fp_div(diff.x, self.radius),
            y: crate::fixed::fp_div(diff.y, self.radius),
            z: crate::fixed::fp_div(diff.z, self.radius),
        };
        proof {
            lemma_outward_bounded(*self, p);
        }
        let (front, normal) = set_face_normal(ray, outward);
        Some(HitRecord { p, normal, t, front_face: front, u: 0, v: 0, mat: self.mat })
    }
}

/// A point inside the padded box divided by the radius stays below twice
/// unit scale.
proof fn lemma_outward_bounded(s: Sphere, p: Point3)
    requires
        sphere_wf(s),
        contains_point(sphere_box_spec(s), p),
    ensures
        -2 * FP_ONE as int <= fpd(p.x - s.center.x, s.radius as int) <= 2 * FP_ONE as int,
        -2 * FP_ONE as int <= fpd(p.y - s.center.y, s.radius as int) <= 2 * FP_ONE as int,
        -2 * FP_ONE as int <= fpd(p.z - s.center.z, s.radius as int) <= 2 * FP_ONE as int,
        vec_in_range(p),
{
    assert((s.radius + BOX_PAD) * FP_ONE as int <= 2 * FP_ONE as int * s.radius)
        by (nonlinear_arith)
        requires
            s.radius >= MIN_RADIUS,
    ;
    crate::fixed::lemma_fdiv_abs_le(
        (p.x - s.center.x) * FP_ONE as int,
        s.radius as int,
        2 * FP_ONE as int,
    );
    crate::fixed::lemma_fdiv_abs_le(
        (p.y - s.center.y) * FP_ONE as int,
        s.radius as int,
        2 * FP_ONE as int,
    );
    crate::fixed::lemma_fdiv_abs_le(
        (p.z - s.center.z) * FP_ONE as int,
        s.radius as int,
        2 * FP_ONE as int,
    );
}

/// On a well-formed sphere and ray, a reported hit lies strictly inside
/// the window, inside the padded bounding box, carries the sphere's
/// material and is well-formed.
pub proof fn lemma_sphere_hit_props(s: Sphere, r: Ray, t_min: int, t_max: int, rec: HitRecord)
    requires
        sphere_wf(s),
        ray_wf(r),
        -T_LIMIT <= t_min <= t_max <= T_LIMIT,
        sphere_hit_spec(s, r, t_min, t_max) == Some(rec),
    ensures
        t_min < rec.t < t_max,
        contains_point(sphere_box_spec(s), at_spec(r, rec.t as int)),
        rec.p == at_spec(r, rec.t as int),
        rec.mat == s.mat,
        rec_wf(rec),
{
    let (a, hb, c) = sphere_quadratic(s, r);
    let disc = hb * hb - a * c;
    let sq = sqrt_floor(disc);
    let root1 = fdiv((-hb - sq) * FP_ONE as int, a);
    let root = if t_min < root1 < t_max {
        root1
    } else {
        fdiv((-hb + sq) * FP_ONE as int, a)
    };
    assert(t_min < root < t_max);
    lemma_outward_bounded(s, at_spec(r, root));
    assert(rec.t == root);
}

} // verus!
