//! Triangles: plane intersection plus barycentric containment.

use vstd::prelude::*;

verus! {

use crate::fixed::{fdiv, fpm, fp_mul, floor_div_i128, FP_ONE};
use crate::vec3::{
    Vec3, Point3, vec_bounded, vec_in_range, dot_spec, cross_spec, normalize_spec, dot, cross,
};
use crate::ray::{Ray, ray_wf, at_spec, T_LIMIT};
use crate::aabb::{AABB, aabb_wf, contains_point, point_in_box};
use crate::hit::{HitRecord, face_normal_spec, set_face_normal};
use crate::sphere::BOX_PAD;

/// Magnitude bound on triangle vertex coordinates (1 << 21, 32 world
/// units): it keeps the barycentric solver's products exact.
pub const TRI_LIMIT: i64 = 2097152;

/// Grazing-incidence threshold on the plane denominator, about 0.001.
pub const DENOM_EPS: i64 = 66;

/// Magnitude cap on a computed barycentric weight; far larger than any
/// weight that can pass the containment test.
pub const BARY_LIMIT: i64 = 0x1000_0000_0000_0000;

#[derive(Clone, Copy, Debug)]
pub struct Triangle {
    pub p0: Point3,
    pub p1: Point3,
    pub p2: Point3,
    pub uv0: (i64, i64),
    pub uv1: (i64, i64),
    pub uv2: (i64, i64),
    pub normal: Vec3,
    /// Handle into the world's material table.
    pub mat: usize,
}

/// Texture coordinates lie in `[0, 1]`.
pub open spec fn uv_wf(uv: (i64, i64)) -> bool {
    0 <= uv.0 <= FP_ONE && 0 <= uv.1 <= FP_ONE
}

/// A well-formed triangle: bounded vertices and plane normal, unit-square
/// texture coordinates.
pub open spec fn tri_wf(t: Triangle) -> bool {
    &&& vec_bounded(t.p0, TRI_LIMIT as int)
    &&& vec_bounded(t.p1, TRI_LIMIT as int)
    &&& vec_bounded(t.p2, TRI_LIMIT as int)
    &&& uv_wf(t.uv0)
    &&& uv_wf(t.uv1)
    &&& uv_wf(t.uv2)
    &&& vec_bounded(t.normal, 0x2000_0000)
}

pub open spec fn imin3(a: int, b: int, c: int) -> int {
    if a <= b && a <= c { a } else if b <= c { b } else { c }
}

pub open spec fn imax3(a: int, b: int, c: int) -> int {
    if a >= b && a >= c { a } else if b >= c { b } else { c }
}

/// The triangle's padded bounding box.
pub open spec fn tri_box_spec(t: Triangle) -> AABB {
    AABB {
        min: Vec3 {
            x: (imin3(t.p0.x as int, t.p1.x as int, t.p2.x as int) - BOX_PAD) as i64,
            y: (imin3(t.p0.y as int, t.p1.y as int, t.p2.y as int) - BOX_PAD) as i64,
            z: (imin3(t.p0.z as int, t.p1.z as int, t.p2.z as int) - BOX_PAD) as i64,
        },
        max: Vec3 {
            x: (imax3(t.p0.x as int, t.p1.x as int, t.p2.x as int) + BOX_PAD) as i64,
            y: (imax3(t.p0.y as int, t.p1.y as int, t.p2.y as int) + BOX_PAD) as i64,
            z: (imax3(t.p0.z as int, t.p1.z as int, t.p2.z as int) + BOX_PAD) as i64,
        },
    }
}

/// The exact barycentric weights `(w, lambda, mu)` of the point `p0 + v2`
/// with respect to the edge vectors `v0 = p1 - p0` and `v1 = p2 - p0`,
/// through the standard 2x2 solve; `None` when the system degenerates or
/// a weight leaves the representable range.
pub open spec fn bary_spec(v0: Vec3, v1: Vec3, v2: Vec3) -> Option<(i64, i64, i64)> {
    let d00 = dot_spec(v0, v0);
    let d01 = dot_spec(v0, v1);
    let d11 = dot_spec(v1, v1);
    let d20 = dot_spec(v2, v0);
    let d21 = dot_spec(v2, v1);
    let denom = fpm(d00, d11) - fpm(d01, d01);
    if denom == 0 {
        None
    } else {
        let lam = fdiv((fpm(d11, d20) - fpm(d01, d21)) * FP_ONE as int, denom);
        let mu = fdiv((fpm(d00, d21) - fpm(d01, d20)) * FP_ONE as int, denom);
        if -BARY_LIMIT <= lam <= BARY_LIMIT && -BARY_LIMIT <= mu <= BARY_LIMIT {
            Some(((FP_ONE - lam - mu) as i64, lam as i64, mu as i64))
        } else {
            None
        }
    }
}

/// Compute the barycentric weights of `p0 + v2` in the triangle spanned by
/// `v0` and `v1`.
pub fn barycentric(v0: Vec3, v1: Vec3, v2: Vec3) -> (r: Option<(i64, i64, i64)>)
    requires
        vec_bounded(v0, 0x50_0000),
        vec_bounded(v1, 0x50_0000),
        vec_bounded(v2, 0x50_0000),
    ensures
        r == bary_spec(v0, v1, v2),
{
    proof {
        lemma_dot_small(v0, v0);
        lemma_dot_small(v0, v1);
        lemma_dot_small(v1, v1);
        lemma_dot_small(v2, v0);
        lemma_dot_small(v2, v1);
    }
    let d00: i64 = dot(v0, v0);
    let d01: i64 = dot(v0, v1);
    let d11: i64 = dot(v1, v1);
    let d20: i64 = dot(v2, v0);
    let d21: i64 = dot(v2, v1);
    proof {
        lemma_fpm_small(d00 as int, d11 as int);
        lemma_fpm_small(d01 as int, d01 as int);
        lemma_fpm_small(d11 as int, d20 as int);
        lemma_fpm_small(d01 as int, d21 as int);
        lemma_fpm_small(d00 as int, d21 as int);
        lemma_fpm_small(d01 as int, d20 as int);
    }
    let denom: i64 = fp_mul(d00, d11) - fp_mul(d01, d01);
    if denom == 0 {
        return None;
    }
    let lam_num: i64 = fp_mul(d11, d20) - fp_mul(d01, d21);
    let mu_num: i64 = fp_mul(d00, d21) - fp_mul(d01, d20);
    let lam128: i128 = floor_div_i128((lam_num as i128) * 65536, denom as i128);
    let mu128: i128 = floor_div_i128((mu_num as i128) * 65536, denom as i128);
    if -(BARY_LIMIT as i128) <= lam128 && lam128 <= BARY_LIMIT as i128
        && -(BARY_LIMIT as i128) <= mu128 && mu128 <= BARY_LIMIT as i128 {
        let lam: i64 = lam128 as i64;
        let mu: i64 = mu128 as i64;
        Some((FP_ONE - lam - mu, lam, mu))
    } else {
        None
    }
}

/// The fixed-point product of two edge-scale dot products is moderate.
proof fn lemma_fpm_small(a: int, b: int)
    requires
        -0x4B00_0000 <= a <= 0x4B00_0000,
        -0x4B00_0000 <= b <= 0x4B00_0000,
    ensures
        -0x15F9_0000_0000_0000 <= fpm(a, b) <= 0x15F9_0000_0000_0000,
{
    crate::fixed::lemma_fpm_abs(a, b, 0x4B00_0000, 0x4B00_0000, 0x15F9_0000_0000_0000);
}

/// The dot product of two edge-scale vectors is small.
proof fn lemma_dot_small(u: Vec3, v: Vec3)
    requires
        vec_bounded(u, 0x50_0000),
        vec_bounded(v, 0x50_0000),
    ensures
        -0x4B00_0000 <= dot_spec(u, v) <= 0x4B00_0000,
{
    assert(-0x4B00_0000_0000 <= u.x * v.x + u.y * v.y + u.z * v.z <= 0x4B00_0000_0000)
        by (nonlinear_arith)
        requires
            vec_bounded(u, 0x50_0000),
            vec_bounded(v, 0x50_0000),
    ;
    assert(0x4B00_0000int * FP_ONE as int == 0x4B00_0000_0000int);
    crate::fixed::lemma_fdiv_abs_le(
        u.x * v.x + u.y * v.y + u.z * v.z,
        FP_ONE as int,
        0x4B00_0000,
    );
}

/// The exact result of the triangle intersection: plane solve, padded-box
/// check, then barycentric containment and attribute interpolation.
/// Three guards go beyond the real-arithmetic description and report a
/// miss instead: a crossing point outside the padded bounding box, a
/// barycentric weight outside the representable cap, and a degenerate
/// (sub-unit) edge cross product.  Each absorbs fixed-point rounding;
/// none can fire on the well-conditioned inputs the bounds admit.
pub open spec fn triangle_hit_spec(tr: Triangle, r: Ray, t_min: int, t_max: int) -> Option<
    HitRecord,
> {
    let denom = dot_spec(r.direction, tr.normal);
    if -DENOM_EPS < denom < DENOM_EPS {
        None
    } else {
        let num = dot_spec(
            Vec3 {
                x: (tr.p0.x - r.origin.x) as i64,
                y: (tr.p0.y - r.origin.y) as i64,
                z: (tr.p0.z - r.origin.z) as i64,
            },
            tr.normal,
        );
        let t = fdiv(num * FP_ONE as int, denom);
        if t < t_min || t > t_max {
            None
        } else {
            triangle_hit_at(tr, r, t)
        }
    }
}

/// The record produced once the plane parameter is chosen.
pub open spec fn triangle_hit_at(tr: Triangle, r: Ray, t: int) -> Option<HitRecord> {
    let p = at_spec(r, t);
    if !contains_point(tri_box_spec(tr), p) {
        None
    } else {
        let v0 = Vec3 {
            x: (tr.p1.x - tr.p0.x) as i64,
            y: (tr.p1.y - tr.p0.y) as i64,
            z: (tr.p1.z - tr.p0.z) as i64,
        };
        let v1 = Vec3 {
            x: (tr.p2.x - tr.p0.x) as i64,
            y: (tr.p2.y - tr.p0.y) as i64,
            z: (tr.p2.z - tr.p0.z) as i64,
        };
        let v2 = Vec3 {
            x: (p.x - tr.p0.x) as i64,
            y: (p.y - tr.p0.y) as i64,
            z: (p.z - tr.p0.z) as i64,
        };
        match bary_spec(v0, v1, v2) {
            None => None,
            Some((w, lam, mu)) => {
                if lam < 0 || mu < 0 || lam + mu > FP_ONE {
                    None
                } else {
                    let raw = cross_spec(v0, v1);
                    if dot_spec(raw, raw) < 1 {
                        None
                    } else {
                        let unit_n = normalize_spec(raw);
                        let (front, normal) = face_normal_spec(r, unit_n);
                        Some(
                            HitRecord {
                                p,
                                normal,
                                t: t as i64,
                                front_face: front,
                                u: interp_spec(tr.uv0.0 as int, tr.uv1.0 as int, tr.uv2.0 as int, w as int, lam as int, mu as int) as i64,
                                v: interp_spec(tr.uv0.1 as int, tr.uv1.1 as int, tr.uv2.1 as int, w as int, lam as int, mu as int) as i64,
                                mat: tr.mat,
                            },
                        )
                    }
                }
            },
        }
    }
}

/// Barycentric interpolation of one scalar attribute.
pub open spec fn interp_spec(a0: int, a1: int, a2: int, w: int, lam: int, mu: int) -> int {
    fdiv(a0 * w + a1 * lam + a2 * mu, FP_ONE as int)
}

/// Interpolate an attribute in `[0, 1]` by weights that sum to one.
pub fn interp(a0: i64, a1: i64, a2: i64, w: i64, lam: i64, mu: i64) -> (r: i64)
    requires
        0 <= a0 <= FP_ONE,
        0 <= a1 <= FP_ONE,
        0 <= a2 <= FP_ONE,
        0 <= w,
        0 <= lam,
        0 <= mu,
        w + lam + mu == FP_ONE,
    ensures
        r == interp_spec(a0 as int, a1 as int, a2 as int, w as int, lam as int, mu as int),
        0 <= r <= FP_ONE,
{
    proof {
        assert(0 <= a0 * w <= 65536 * w && 0 <= a1 * lam <= 65536 * lam && 0 <= a2 * mu <= 65536
            * mu) by (nonlinear_arith)
            requires
                0 <= a0 <= 65536,
                0 <= a1 <= 65536,
                0 <= a2 <= 65536,
                0 <= w,
                0 <= lam,
                0 <= mu,
        ;
        assert(0x1_0000int * FP_ONE as int == 0x1_0000_0000int);
        crate::fixed::lemma_fdiv_abs_le(
            a0 as int * w as int + a1 as int * lam as int + a2 as int * mu as int,
            FP_ONE as int,
            0x1_0000,
        );
        crate::fixed::lemma_fdiv_bounds(
            a0 as int * w as int + a1 as int * lam as int + a2 as int * mu as int,
            FP_ONE as int,
            0x3_0000_0000_0000,
        );
    }
    let s: i64 = a0 * w + a1 * lam + a2 * mu;
    let q: i128 = floor_div_i128(s as i128, FP_ONE as i128);
    proof {
        assert(fdiv(s as int, FP_ONE as int) * FP_ONE as int <= s as int) by {
            crate::fixed::lemma_fdiv_range(s as int, FP_ONE as int);
        }
        assert(fdiv(s as int, FP_ONE as int) <= 0x1_0000) by {
            assert(s <= 0x1_0000_0000int) by (nonlinear_arith)
                requires
                    s == a0 * w + a1 * lam + a2 * mu,
                    0 <= a0 * w <= 65536 * w,
                    0 <= a1 * lam <= 65536 * lam,
                    0 <= a2 * mu <= 65536 * mu,
                    w + lam + mu == 65536,
            ;
            crate::fixed::lemma_fdiv_mono(s as int, 0x1_0000_0000, FP_ONE as int);
            assert(fdiv(0x1_0000_0000, FP_ONE as int) == 0x1_0000) by {
                vstd::arithmetic::div_mod::lemma_div_by_multiple(0x1_0000, 0x1_0000);
            }
        }
    }
    q as i64
}

impl Triangle {
    /// Build a triangle; the plane normal is the edge cross product,
    /// flipped towards the positive z half-space.
    pub fn new(
        p0: Vec3,
        p1: Vec3,
        p2: Vec3,
        uv0: (i64, i64),
        uv1: (i64, i64),
        uv2: (i64, i64),
        mat: usize,
    ) -> (t: Triangle)
        requires
            vec_bounded(p0, TRI_LIMIT as int),
            vec_bounded(p1, TRI_LIMIT as int),
            vec_bounded(p2, TRI_LIMIT as int),
            uv_wf(uv0),
            uv_wf(uv1),
            uv_wf(uv2),
        ensures
            tri_wf(t),
            t.p0 == p0 && t.p1 == p1 && t.p2 == p2,
            t.uv0 == uv0 && t.uv1 == uv1 && t.uv2 == uv2,
            t.mat == mat,
            t.normal == tri_normal_spec(p0, p1, p2),
    {
        let e1 = p1.minus(&p0);
        let e2 = p2.minus(&p0);
        let raw = cross(e1, e2);
        let flip = dot(raw, Vec3 { x: 0, y: 0, z: FP_ONE }) < 0;
        let normal = if flip {
            raw.neg()
        } else {
            raw
        };
        Triangle { p0, p1, p2, uv0, uv1, uv2, normal, mat }
    }

    /// Build a triangle with an explicitly supplied plane normal.
    pub fn new_with_normal(
        p0: Vec3,
        p1: Vec3,
        p2: Vec3,
        uv0: (i64, i64),
        uv1: (i64, i64),
        uv2: (i64, i64),
        normal: Vec3,
        mat: usize,
    ) -> (t: Triangle)
        requires
            vec_bounded(p0, TRI_LIMIT as int),
            vec_bounded(p1, TRI_LIMIT as int),
            vec_bounded(p2, TRI_LIMIT as int),
            uv_wf(uv0),
            uv_wf(uv1),
            uv_wf(uv2),
            vec_bounded(normal, 0x2000_0000),
        ensures
            tri_wf(t),
            t == (Triangle { p0, p1, p2, uv0, uv1, uv2, normal, mat }),
    {
        Triangle { p0, p1, p2, uv0, uv1, uv2, normal, mat }
    }

    /// An untextured triangle: all texture coordinates zero.
    pub fn new_untextured(p0: Vec3, p1: Vec3, p2: Vec3, mat: usize) -> (t: Triangle)
        requires
            vec_bounded(p0, TRI_LIMIT as int),
            vec_bounded(p1, TRI_LIMIT as int),
            vec_bounded(p2, TRI_LIMIT as int),
        ensures
            tri_wf(t),
            t.p0 == p0 && t.p1 == p1 && t.p2 == p2,
            t.uv0 == (0i64, 0i64) && t.uv1 == (0i64, 0i64) && t.uv2 == (0i64, 0i64),
            t.mat == mat,
            t.normal == tri_normal_spec(p0, p1, p2),
    {
        Triangle::new(p0, p1, p2, (0, 0), (0, 0), (0, 0), mat)
    }

    /// A wall is an untextured triangle.
    pub fn make_wall(p0: Point3, p1: Point3, p2: Point3, mat: usize) -> (t: Triangle)
        requires
            vec_bounded(p0, TRI_LIMIT as int),
            vec_bounded(p1, TRI_LIMIT as int),
            vec_bounded(p2, TRI_LIMIT as int),
        ensures
            tri_wf(t),
            t.p0 == p0 && t.p1 == p1 && t.p2 == p2,
            t.mat == mat,
    {
        Triangle::new_untextured(p0, p1, p2, mat)
    }

    /// Split a quadrilateral into its two triangles.
    pub fn make_quad(p0: Point3, p1: Point3, p2: Point3, p3: Point3, mat: usize) -> (r: (
        Triangle,
        Triangle,
    ))
        requires
            vec_bounded(p0, TRI_LIMIT as int),
            vec_bounded(p1, TRI_LIMIT as int),
            vec_bounded(p2, TRI_LIMIT as int),
            vec_bounded(p3, TRI_LIMIT as int),
        ensures
            tri_wf(r.0),
            tri_wf(r.1),
            r.0.p0 == p0 && r.0.p1 == p1 && r.0.p2 == p2,
            r.1.p0 == p0 && r.1.p1 == p2 && r.1.p2 == p3,
            r.0.mat == mat && r.1.mat == mat,
    {
        (Triangle::new_untextured(p0, p1, p2, mat), Triangle::new_untextured(p0, p2, p3, mat))
    }

    /// The padded bounding box of the three vertices.
    pub fn bounding_box(&self) -> (b: AABB)
        requires
            tri_wf(*self),
        ensures
            b == tri_box_spec(*self),
            aabb_wf(b),
    {
        let lo = crate::vec3::min(self.p0, crate::vec3::min(self.p1, self.p2));
        let hi = crate::vec3::max(self.p0, crate::vec3::max(self.p1, self.p2));
        AABB {
            min: Vec3 { x: lo.x - BOX_PAD, y: lo.y - BOX_PAD, z: lo.z - BOX_PAD },
            max: Vec3 { x: hi.x + BOX_PAD, y: hi.y + BOX_PAD, z: hi.z + BOX_PAD },
        }
    }

    /// Intersect by solving for the plane crossing, then testing the
    /// barycentric weights of the crossing point.
    pub fn hit(&self, ray: &Ray, t_min: i64, t_max: i64) -> (res: Option<HitRecord>)
        requires
            tri_wf(*self),
            ray_wf(*ray),
            -T_LIMIT <= t_min <= t_max <= T_LIMIT,
        ensures
            res == triangle_hit_spec(*self, *ray, t_min as int, t_max as int),
    {
        let denom: i64 = dot(ray.direction(), self.normal);
        if -DENOM_EPS < denom && denom < DENOM_EPS {
            return None;
        }
        let num: i64 = dot(self.p0.minus(&ray.origin()), self.normal);
        let t128: i128 = floor_div_i128((num as i128) * 65536, denom as i128);
        if t128 < t_min as i128 || t128 > t_max as i128 {
            return None;
        }
        let t: i64 = t128 as i64;
        let p: Point3 = ray.at(t);
        let bbox = self.bounding_box();
        if !point_in_box(&bbox, &p) {
            return None;
        }
        let v0 = self.p1.minus(&self.p0);
        let v1 = self.p2.minus(&self.p0);
        let v2 = p.minus(&self.p0);
        match barycentric(v0, v1, v2) {
            None => None,
            Some((w, lam, mu)) => {
                if lam < 0 || mu < 0 || lam + mu > FP_ONE {
                    return None;
                }
                let raw = cross(v0, v1);
                let rawsq: i64 = dot(raw, raw);
                proof {
                    crate::vec3::lemma_dot_self_nonneg(raw);
                }
                if rawsq < 1 {
                    return None;
                }
                let unit_n = raw.normalize();
                let (front, normal) = set_face_normal(ray, unit_n);
                let u: i64 = interp(self.uv0.0, self.uv1.0, self.uv2.0, w, lam, mu);
                let v: i64 = interp(self.uv0.1, self.uv1.1, self.uv2.1, w, lam, mu);
                Some(HitRecord { p, normal, t, front_face: front, u, v, mat: self.mat })
            },
        }
    }
}

/// Interpolating attributes in `[0, 1]` by non-negative weights that sum
/// to one stays in `[0, 1]`.
pub proof fn lemma_interp_bounds(a0: int, a1: int, a2: int, w: int, lam: int, mu: int)
    requires
        0 <= a0 <= FP_ONE,
        0 <= a1 <= FP_ONE,
        0 <= a2 <= FP_ONE,
        0 <= w,
        0 <= lam,
        0 <= mu,
        w + lam + mu == FP_ONE,
    ensures
        0 <= interp_spec(a0, a1, a2, w, lam, mu) <= FP_ONE,
{
    assert(0 <= a0 * w <= 65536 * w && 0 <= a1 * lam <= 65536 * lam && 0 <= a2 * mu <= 65536
        * mu) by (nonlinear_arith)
        requires
            0 <= a0 <= 65536,
            0 <= a1 <= 65536,
            0 <= a2 <= 65536,
            0 <= w,
            0 <= lam,
            0 <= mu,
    ;
    let s = a0 * w + a1 * lam + a2 * mu;
    crate::fixed::lemma_fdiv_bounds(s, FP_ONE as int, 0x1_0000_0000);
    crate::fixed::lemma_fdiv_mono(s, 0x1_0000_0000, FP_ONE as int);
    assert(fdiv(0x1_0000_0000, FP_ONE as int) == 0x1_0000) by {
        vstd::arithmetic::div_mod::lemma_div_by_multiple(0x1_0000, 0x1_0000);
    }
}

/// The non-degeneracy denominator of the barycentric solve.
pub open spec fn bary_denom(v0: Vec3, v1: Vec3) -> int {
    fpm(dot_spec(v0, v0), dot_spec(v1, v1)) - fpm(dot_spec(v0, v1), dot_spec(v0, v1))
}

/// At the three vertices of a non-degenerate triangle the barycentric
/// weights `(w, lambda, mu)` come out exactly as `(1, 0, 0)`, `(0, 1, 0)`
/// and `(0, 0, 1)`: the solve is exact there even in fixed point.
pub proof fn lemma_barycentric_vertices(v0: Vec3, v1: Vec3)
    requires
        bary_denom(v0, v1) != 0,
    ensures
        bary_spec(v0, v1, Vec3 { x: 0, y: 0, z: 0 }) == Some((FP_ONE, 0i64, 0i64)),
        bary_spec(v0, v1, v0) == Some((0i64, FP_ONE, 0i64)),
        bary_spec(v0, v1, v1) == Some((0i64, 0i64, FP_ONE)),
{
    let zero = Vec3 { x: 0, y: 0, z: 0 };
    let d00 = dot_spec(v0, v0);
    let d01 = dot_spec(v0, v1);
    let d11 = dot_spec(v1, v1);
    let denom = fpm(d00, d11) - fpm(d01, d01);

    lemma_fdiv_zero(denom);
    lemma_fdiv_self_scaled(denom);

    // At p0 the offset vector is zero, so both projections vanish.
    assert(dot_spec(zero, v0) == 0 && dot_spec(zero, v1) == 0) by {
        assert(0int * v0.x == 0 && 0int * v0.y == 0 && 0int * v0.z == 0) by (nonlinear_arith);
        assert(0int * v1.x == 0 && 0int * v1.y == 0 && 0int * v1.z == 0) by (nonlinear_arith);
        lemma_fdiv_zero(FP_ONE as int);
    }
    assert(fpm(d11, 0) == 0 && fpm(d01, 0) == 0 && fpm(d00, 0) == 0) by {
        assert(d11 * 0 == 0 && d01 * 0 == 0 && d00 * 0 == 0) by (nonlinear_arith);
        lemma_fdiv_zero(FP_ONE as int);
    }
    assert(bary_spec(v0, v1, zero) == Some((FP_ONE, 0i64, 0i64)));

    // At p1 the offset vector is v0 itself.
    crate::vec3::lemma_dot_comm(v0, v1);
    crate::fixed::lemma_fpm_comm(d11, d00);
    crate::fixed::lemma_fpm_comm(d00, d01);
    crate::fixed::lemma_fpm_comm(d01, d00);
    assert(bary_spec(v0, v1, v0) == Some((0i64, FP_ONE, 0i64)));

    // At p2 the offset vector is v1.
    crate::vec3::lemma_dot_comm(v1, v0);
    crate::fixed::lemma_fpm_comm(d11, d01);
    crate::fixed::lemma_fpm_comm(d01, d11);
    assert(bary_spec(v0, v1, v1) == Some((0i64, 0i64, FP_ONE)));
}

/// Dividing zero gives zero, whatever the sign of the divisor.
proof fn lemma_fdiv_zero(b: int)
    requires
        b != 0,
    ensures
        fdiv(0, b) == 0,
{
    if b >= 0 {
        vstd::arithmetic::div_mod::lemma_div_of0(b);
    } else {
        vstd::arithmetic::div_mod::lemma_div_of0(-b);
    }
}

/// `fdiv(k * b, b) == k`, whatever the sign of the divisor.
proof fn lemma_fdiv_self_scaled(b: int)
    requires
        b != 0,
    ensures
        fdiv(b * FP_ONE as int, b) == FP_ONE,
{
    if b > 0 {
        vstd::arithmetic::div_mod::lemma_div_multiples_vanish(FP_ONE as int, b);
        assert(b * FP_ONE as int == b * FP_ONE as int);
    } else {
        vstd::arithmetic::div_mod::lemma_div_multiples_vanish(FP_ONE as int, -b);
        assert(-(b * FP_ONE as int) == (-b) * FP_ONE as int) by (nonlinear_arith);
        assert((-b) * FP_ONE as int == (-b) * FP_ONE as int);
    }
}

/// On a well-formed triangle and ray, a reported hit lies inside the
/// window, inside the padded bounding box, carries the triangle's
/// material and is well-formed.
pub proof fn lemma_triangle_hit_props(tr: Triangle, r: Ray, t_min: int, t_max: int, rec: HitRecord)
    requires
        tri_wf(tr),
        ray_wf(r),
        -T_LIMIT <= t_min <= t_max <= T_LIMIT,
        triangle_hit_spec(tr, r, t_min, t_max) == Some(rec),
    ensures
        t_min <= rec.t <= t_max,
        contains_point(tri_box_spec(tr), at_spec(r, rec.t as int)),
        rec.p == at_spec(r, rec.t as int),
        rec.mat == tr.mat,
        crate::hit::rec_wf(rec),
{
    let denom = dot_spec(r.direction, tr.normal);
    let num = dot_spec(
        Vec3 {
            x: (tr.p0.x - r.origin.x) as i64,
            y: (tr.p0.y - r.origin.y) as i64,
            z: (tr.p0.z - r.origin.z) as i64,
        },
        tr.normal,
    );
    let t = fdiv(num * FP_ONE as int, denom);
    assert(t_min <= t <= t_max);
    let p = at_spec(r, t);
    let v0 = Vec3 {
        x: (tr.p1.x - tr.p0.x) as i64,
        y: (tr.p1.y - tr.p0.y) as i64,
        z: (tr.p1.z - tr.p0.z) as i64,
    };
    let v1 = Vec3 {
        x: (tr.p2.x - tr.p0.x) as i64,
        y: (tr.p2.y - tr.p0.y) as i64,
        z: (tr.p2.z - tr.p0.z) as i64,
    };
    let v2 = Vec3 { x: (p.x - tr.p0.x) as i64, y: (p.y - tr.p0.y) as i64, z: (p.z - tr.p0.z) as i64 };
    let weights = bary_spec(v0, v1, v2);
    let (w, lam, mu) = weights.unwrap();
    let raw = cross_spec(v0, v1);
    crate::vec3::lemma_cross_spec_bounded(v0, v1);
    crate::vec3::lemma_normalize_unit_bounded(raw);
    lemma_interp_bounds(
        tr.uv0.0 as int,
        tr.uv1.0 as int,
        tr.uv2.0 as int,
        w as int,
        lam as int,
        mu as int,
    );
    lemma_interp_bounds(
        tr.uv0.1 as int,
        tr.uv1.1 as int,
        tr.uv2.1 as int,
        w as int,
        lam as int,
        mu as int,
    );
}

/// The plane normal stored by `new`: the edge cross product, flipped to a
/// non-negative z component.
pub open spec fn tri_normal_spec(p0: Vec3, p1: Vec3, p2: Vec3) -> Vec3 {
    let e1 = Vec3 {
        x: (p1.x - p0.x) as i64,
        y: (p1.y - p0.y) as i64,
        z: (p1.z - p0.z) as i64,
    };
    let e2 = Vec3 {
        x: (p2.x - p0.x) as i64,
        y: (p2.y - p0.y) as i64,
        z: (p2.z - p0.z) as i64,
    };
    let raw = cross_spec(e1, e2);
    if dot_spec(raw, Vec3 { x: 0, y: 0, z: FP_ONE }) < 0 {
        Vec3 { x: (-raw.x) as i64, y: (-raw.y) as i64, z: (-raw.z) as i64 }
    } else {
        raw
    }
}

} // verus!
