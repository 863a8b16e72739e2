//! Axis-aligned bounding boxes and the slab-method ray test.
//!
//! `hit` is the exact slab test: per-axis crossing distances straight
//! from the corners, rejection as soon as the window is empty or
//! inverted.  Beside it, `prune_hit` widens every slab one coordinate
//! unit outward and keeps single-point windows; under fixed-point
//! rounding that widening makes it a provably lossless pruning guard
//! (`lemma_hit_contains`), which is what the bounding-volume hierarchy
//! traverses with.  `lemma_strict_hit_implies_hit` relates the two: the
//! guard accepts everything the exact test accepts.

use vstd::prelude::*;

verus! {

use crate::fixed::{fdiv, fpm, fpd, fp_div, lemma_fdiv_mono, lemma_fdiv_neg, FP_ONE};
use crate::vec3::{Vec3, Point3, vec_in_range, vec_bounded, VEC_LIMIT};
use crate::ray::{Ray, ray_wf, at_spec, T_LIMIT};

/// Stands in for an unbounded slab interval end.
pub const T_BIG: i64 = 0x7fff_ffff_ffff_ffff;

#[derive(Clone, Copy, Debug, PartialEq, Eq, Structural)]
pub struct AABB {
    pub min: Point3,
    pub max: Point3,
}

/// A well-formed box: corners in range and ordered on every axis.
pub open spec fn aabb_wf(b: AABB) -> bool {
    &&& vec_in_range(b.min)
    &&& vec_in_range(b.max)
    &&& b.min.x <= b.max.x
    &&& b.min.y <= b.max.y
    &&& b.min.z <= b.max.z
}

/// The point lies inside the box (boundaries included).
pub open spec fn contains_point(b: AABB, p: Point3) -> bool {
    &&& b.min.x <= p.x <= b.max.x
    &&& b.min.y <= p.y <= b.max.y
    &&& b.min.z <= p.z <= b.max.z
}

/// The componentwise union of two boxes, as a value.
pub open spec fn surrounding_box_spec(a: AABB, b: AABB) -> AABB {
    AABB {
        min: Vec3 {
            x: if a.min.x <= b.min.x { a.min.x } else { b.min.x },
            y: if a.min.y <= b.min.y { a.min.y } else { b.min.y },
            z: if a.min.z <= b.min.z { a.min.z } else { b.min.z },
        },
        max: Vec3 {
            x: if a.max.x >= b.max.x { a.max.x } else { b.max.x },
            y: if a.max.y >= b.max.y { a.max.y } else { b.max.y },
            z: if a.max.z >= b.max.z { a.max.z } else { b.max.z },
        },
    }
}

/// Every point of `inner` lies inside `outer`.
pub open spec fn contains_box(outer: AABB, inner: AABB) -> bool {
    &&& outer.min.x <= inner.min.x && inner.max.x <= outer.max.x
    &&& outer.min.y <= inner.min.y && inner.max.y <= outer.max.y
    &&& outer.min.z <= inner.min.z && inner.max.z <= outer.max.z
}

/// Lower end of the parameter interval in which the ray crosses one slab,
/// padded outward by one coordinate unit.
pub open spec fn slab_lo(o: int, d: int, lo: int, hi: int) -> int {
    if d > 0 {
        fpd(lo - o - 1, d)
    } else if d < 0 {
        fpd(hi - o + 1, d)
    } else {
        -T_BIG as int
    }
}

/// Upper end of the parameter interval in which the ray crosses one slab.
pub open spec fn slab_hi(o: int, d: int, lo: int, hi: int) -> int {
    if d > 0 {
        fpd(hi - o + 1, d)
    } else if d < 0 {
        fpd(lo - o - 1, d)
    } else {
        T_BIG as int
    }
}

/// A ray parallel to an axis must start inside that slab.
pub open spec fn slab_ok(o: int, d: int, lo: int, hi: int) -> bool {
    d != 0 || lo <= o <= hi
}

pub open spec fn imax(a: int, b: int) -> int {
    if a >= b { a } else { b }
}

pub open spec fn imin(a: int, b: int) -> int {
    if a <= b { a } else { b }
}

/// The widened pruning form of the slab test: slab ends one coordinate
/// unit outside the corners, and only an inverted window rejects.  This
/// is what the tree traverses with (`prune_hit`); the public `hit`
/// computes `aabb_hit_strict_spec`.
pub open spec fn aabb_hit_spec(b: AABB, r: Ray, t_min: int, t_max: int) -> bool {
    let ox = r.origin.x as int;
    let oy = r.origin.y as int;
    let oz = r.origin.z as int;
    let dx = r.direction.x as int;
    let dy = r.direction.y as int;
    let dz = r.direction.z as int;
    if !slab_ok(ox, dx, b.min.x as int, b.max.x as int) {
        false
    } else {
        let lo1 = imax(t_min, slab_lo(ox, dx, b.min.x as int, b.max.x as int));
        let hi1 = imin(t_max, slab_hi(ox, dx, b.min.x as int, b.max.x as int));
        if hi1 < lo1 {
            false
        } else if !slab_ok(oy, dy, b.min.y as int, b.max.y as int) {
            false
        } else {
            let lo2 = imax(lo1, slab_lo(oy, dy, b.min.y as int, b.max.y as int));
            let hi2 = imin(hi1, slab_hi(oy, dy, b.min.y as int, b.max.y as int));
            if hi2 < lo2 {
                false
            } else if !slab_ok(oz, dz, b.min.z as int, b.max.z as int) {
                false
            } else {
                let lo3 = imax(lo2, slab_lo(oz, dz, b.min.z as int, b.max.z as int));
                let hi3 = imin(hi2, slab_hi(oz, dz, b.min.z as int, b.max.z as int));
                !(hi3 < lo3)
            }
        }
    }
}

/// Lower end of a slab interval from the corners themselves, with no
/// padding.
pub open spec fn strict_slab_lo(o: int, d: int, lo: int, hi: int) -> int {
    if d > 0 {
        fpd(lo - o, d)
    } else if d < 0 {
        fpd(hi - o, d)
    } else {
        -T_BIG as int
    }
}

/// Upper end of an unpadded slab interval.
pub open spec fn strict_slab_hi(o: int, d: int, lo: int, hi: int) -> int {
    if d > 0 {
        fpd(hi - o, d)
    } else if d < 0 {
        fpd(lo - o, d)
    } else {
        T_BIG as int
    }
}

/// The slab test in its exact textbook form: per-axis intervals straight
/// from the corners (sorted per axis, so either corner may be the
/// minimum), shrink the window, and reject as soon as it is empty or
/// inverted (`hi <= lo`).
pub open spec fn aabb_hit_strict_spec(b: AABB, r: Ray, t_min: int, t_max: int) -> bool {
    let ox = r.origin.x as int;
    let oy = r.origin.y as int;
    let oz = r.origin.z as int;
    let dx = r.direction.x as int;
    let dy = r.direction.y as int;
    let dz = r.direction.z as int;
    let lcx = imin(b.min.x as int, b.max.x as int);
    let hcx = imax(b.min.x as int, b.max.x as int);
    let lcy = imin(b.min.y as int, b.max.y as int);
    let hcy = imax(b.min.y as int, b.max.y as int);
    let lcz = imin(b.min.z as int, b.max.z as int);
    let hcz = imax(b.min.z as int, b.max.z as int);
    if !slab_ok(ox, dx, lcx, hcx) {
        false
    } else {
        let lo1 = imax(t_min, strict_slab_lo(ox, dx, lcx, hcx));
        let hi1 = imin(t_max, strict_slab_hi(ox, dx, lcx, hcx));
        if hi1 <= lo1 {
            false
        } else if !slab_ok(oy, dy, lcy, hcy) {
            false
        } else {
            let lo2 = imax(lo1, strict_slab_lo(oy, dy, lcy, hcy));
            let hi2 = imin(hi1, strict_slab_hi(oy, dy, lcy, hcy));
            if hi2 <= lo2 {
                false
            } else if !slab_ok(oz, dz, lcz, hcz) {
                false
            } else {
                let lo3 = imax(lo2, strict_slab_lo(oz, dz, lcz, hcz));
                let hi3 = imin(hi2, strict_slab_hi(oz, dz, lcz, hcz));
                !(hi3 <= lo3)
            }
        }
    }
}

/// Swapping the corner roles changes nothing: the exact test sorts each
/// axis itself, so `AABB { min, max }` and `AABB { min: max, max: min }`
/// test identically — in particular for all-negative ray directions.
pub proof fn lemma_strict_corner_swap(b: AABB, r: Ray, t_min: int, t_max: int)
    ensures
        aabb_hit_strict_spec(b, r, t_min, t_max) == aabb_hit_strict_spec(
            AABB { min: b.max, max: b.min },
            r,
            t_min,
            t_max,
        ),
{
}

/// One axis of the mirror argument for the exact test.
proof fn lemma_strict_slab_mirror(o: int, d: int, lo: int, hi: int)
    ensures
        slab_ok(o, d, lo, hi) == slab_ok(-o, -d, -hi, -lo),
        strict_slab_lo(o, d, lo, hi) == strict_slab_lo(-o, -d, -hi, -lo),
        strict_slab_hi(o, d, lo, hi) == strict_slab_hi(-o, -d, -hi, -lo),
{
    let s = FP_ONE as int;
    if d > 0 {
        crate::fixed::lemma_fdiv_neg((lo - o) * s, d);
        assert((-lo - (-o)) * s == -((lo - o) * s)) by (nonlinear_arith);
        crate::fixed::lemma_fdiv_neg((hi - o) * s, d);
        assert((-hi - (-o)) * s == -((hi - o) * s)) by (nonlinear_arith);
    } else if d < 0 {
        crate::fixed::lemma_fdiv_neg((hi - o) * s, d);
        assert((-hi - (-o)) * s == -((hi - o) * s)) by (nonlinear_arith);
        crate::fixed::lemma_fdiv_neg((lo - o) * s, d);
        assert((-lo - (-o)) * s == -((lo - o) * s)) by (nonlinear_arith);
    }
}

/// The exact slab test is invariant under reflecting the scene through
/// the origin: corners swap roles (negated), the ray is negated, and an
/// all-negative direction becomes an all-positive one.
pub proof fn lemma_strict_hit_mirror(b: AABB, r: Ray, t_min: int, t_max: int)
    requires
        vec_bounded(b.min, 0x2000_0000_0000_0000),
        vec_bounded(b.max, 0x2000_0000_0000_0000),
        vec_bounded(r.origin, 0x2000_0000_0000_0000),
        vec_bounded(r.direction, 0x2000_0000_0000_0000),
    ensures
        aabb_hit_strict_spec(b, r, t_min, t_max) == aabb_hit_strict_spec(
            AABB {
                min: Vec3 { x: (-b.max.x) as i64, y: (-b.max.y) as i64, z: (-b.max.z) as i64 },
                max: Vec3 { x: (-b.min.x) as i64, y: (-b.min.y) as i64, z: (-b.min.z) as i64 },
            },
            Ray {
                origin: Vec3 {
                    x: (-r.origin.x) as i64,
                    y: (-r.origin.y) as i64,
                    z: (-r.origin.z) as i64,
                },
                direction: Vec3 {
                    x: (-r.direction.x) as i64,
                    y: (-r.direction.y) as i64,
                    z: (-r.direction.z) as i64,
                },
                current_ior: r.current_ior,
            },
            t_min,
            t_max,
        ),
{
    lemma_strict_slab_mirror(
        r.origin.x as int,
        r.direction.x as int,
        imin(b.min.x as int, b.max.x as int),
        imax(b.min.x as int, b.max.x as int),
    );
    lemma_strict_slab_mirror(
        r.origin.y as int,
        r.direction.y as int,
        imin(b.min.y as int, b.max.y as int),
        imax(b.min.y as int, b.max.y as int),
    );
    lemma_strict_slab_mirror(
        r.origin.z as int,
        r.direction.z as int,
        imin(b.min.z as int, b.max.z as int),
        imax(b.min.z as int, b.max.z as int),
    );
}

/// One axis of the widening argument: the padded interval contains the
/// unpadded one.
proof fn lemma_slab_pad_wider(o: int, d: int, lo: int, hi: int)
    ensures
        slab_lo(o, d, lo, hi) <= strict_slab_lo(o, d, lo, hi),
        strict_slab_hi(o, d, lo, hi) <= slab_hi(o, d, lo, hi),
{
    let s = FP_ONE as int;
    if d > 0 {
        lemma_fdiv_mono((lo - o - 1) * s, (lo - o) * s, d);
        lemma_fdiv_mono((hi - o) * s, (hi - o + 1) * s, d);
    } else if d < 0 {
        lemma_fdiv_neg((hi - o + 1) * s, d);
        lemma_fdiv_neg((hi - o) * s, d);
        lemma_fdiv_neg((lo - o) * s, d);
        lemma_fdiv_neg((lo - o - 1) * s, d);
        lemma_fdiv_mono(-((hi - o + 1) * s), -((hi - o) * s), -d);
        lemma_fdiv_mono(-((lo - o) * s), -((lo - o - 1) * s), -d);
    }
}

/// The pruning test never rejects what the exact test accepts: the
/// one-unit outward padding and the boundary-inclusive window only ever
/// widen acceptance, so `AABB::hit` is a sound stand-in for the exact
/// slab test wherever it guards further work.
pub proof fn lemma_strict_hit_implies_hit(b: AABB, r: Ray, t_min: int, t_max: int)
    requires
        b.min.x <= b.max.x,
        b.min.y <= b.max.y,
        b.min.z <= b.max.z,
        aabb_hit_strict_spec(b, r, t_min, t_max),
    ensures
        aabb_hit_spec(b, r, t_min, t_max),
{
    lemma_slab_pad_wider(r.origin.x as int, r.direction.x as int, b.min.x as int, b.max.x as int);
    lemma_slab_pad_wider(r.origin.y as int, r.direction.y as int, b.min.y as int, b.max.y as int);
    lemma_slab_pad_wider(r.origin.z as int, r.direction.z as int, b.min.z as int, b.max.z as int);
}

/// The exact slab interval ends for one axis: `(ok, lo_t, hi_t)`.
fn strict_slab_bounds(o: i64, d: i64, lo: i64, hi: i64) -> (r: (bool, i64, i64))
    requires
        -VEC_LIMIT <= o <= VEC_LIMIT,
        -VEC_LIMIT <= lo <= VEC_LIMIT,
        -VEC_LIMIT <= hi <= VEC_LIMIT,
    ensures
        r.0 == slab_ok(o as int, d as int, lo as int, hi as int),
        r.1 == strict_slab_lo(o as int, d as int, lo as int, hi as int),
        r.2 == strict_slab_hi(o as int, d as int, lo as int, hi as int),
{
    if d == 0 {
        (lo <= o && o <= hi, -T_BIG, T_BIG)
    } else if d > 0 {
        (true, fp_div(lo - o, d), fp_div(hi - o, d))
    } else {
        (true, fp_div(hi - o, d), fp_div(lo - o, d))
    }
}

/// The widened slab interval ends for one axis: `(ok, lo_t, hi_t)`.
fn slab_bounds(o: i64, d: i64, lo: i64, hi: i64) -> (r: (bool, i64, i64))
    requires
        -VEC_LIMIT <= o <= VEC_LIMIT,
        -VEC_LIMIT <= lo <= VEC_LIMIT,
        -VEC_LIMIT <= hi <= VEC_LIMIT,
    ensures
        r.0 == slab_ok(o as int, d as int, lo as int, hi as int),
        r.1 == slab_lo(o as int, d as int, lo as int, hi as int),
        r.2 == slab_hi(o as int, d as int, lo as int, hi as int),
{
    if d == 0 {
        (lo <= o && o <= hi, -T_BIG, T_BIG)
    } else if d > 0 {
        (true, fp_div(lo - o - 1, d), fp_div(hi - o + 1, d))
    } else {
        (true, fp_div(hi - o + 1, d), fp_div(lo - o - 1, d))
    }
}

/// Whether the point lies inside the box, boundaries included.
pub fn point_in_box(b: &AABB, p: &Point3) -> (r: bool)
    ensures
        r == contains_point(*b, *p),
{
    b.min.x <= p.x && p.x <= b.max.x && b.min.y <= p.y && p.y <= b.max.y && b.min.z <= p.z
        && p.z <= b.max.z
}

impl AABB {
    pub fn new(min: Vec3, max: Vec3) -> (r: AABB)
        ensures
            r.min == min,
            r.max == max,
    {
        AABB { min, max }
    }

    /// The componentwise union of two boxes.
    pub fn surrounding_box(box0: &AABB, box1: &AABB) -> (r: AABB)
        requires
            aabb_wf(*box0),
            aabb_wf(*box1),
        ensures
            r == surrounding_box_spec(*box0, *box1),
            aabb_wf(r),
            contains_box(r, *box0),
            contains_box(r, *box1),
    {
        let small = crate::vec3::min(box0.min, box1.min);
        let big = crate::vec3::max(box0.max, box1.max);
        AABB { min: small, max: big }
    }

    /// The slab test: does the ray cross this box within `(t_min, t_max)`?
    /// Per axis the entry and exit distances come straight from the
    /// corners (sorted, so either corner may play the minimum), the
    /// running window shrinks, and an empty or inverted window
    /// (`t_max <= t_min`) rejects.
    pub fn hit(&self, ray: &Ray, t_min: i64, t_max: i64) -> (r: bool)
        requires
            vec_in_range(self.min),
            vec_in_range(self.max),
            vec_in_range(ray.origin),
        ensures
            r == aabb_hit_strict_spec(*self, *ray, t_min as int, t_max as int),
    {
        let (lcx, hcx): (i64, i64) = if self.min.x <= self.max.x {
            (self.min.x, self.max.x)
        } else {
            (self.max.x, self.min.x)
        };
        let (lcy, hcy): (i64, i64) = if self.min.y <= self.max.y {
            (self.min.y, self.max.y)
        } else {
            (self.max.y, self.min.y)
        };
        let (lcz, hcz): (i64, i64) = if self.min.z <= self.max.z {
            (self.min.z, self.max.z)
        } else {
            (self.max.z, self.min.z)
        };
        let (ok_x, lx, hx) = strict_slab_bounds(ray.origin.x, ray.direction.x, lcx, hcx);
        if !ok_x {
            return false;
        }
        let lo1: i64 = if t_min >= lx { t_min } else { lx };
        let hi1: i64 = if t_max <= hx { t_max } else { hx };
        if hi1 <= lo1 {
            return false;
        }
        let (ok_y, ly, hy) = strict_slab_bounds(ray.origin.y, ray.direction.y, lcy, hcy);
        if !ok_y {
            return false;
        }
        let lo2: i64 = if lo1 >= ly { lo1 } else { ly };
        let hi2: i64 = if hi1 <= hy { hi1 } else { hy };
        if hi2 <= lo2 {
            return false;
        }
        let (ok_z, lz, hz) = strict_slab_bounds(ray.origin.z, ray.direction.z, lcz, hcz);
        if !ok_z {
            return false;
        }
        let lo3: i64 = if lo2 >= lz { lo2 } else { lz };
        let hi3: i64 = if hi2 <= hz { hi2 } else { hz };
        !(hi3 <= lo3)
    }

    /// The tree's pruning guard: the slab test widened one coordinate
    /// unit outward, keeping even a single-point window.  Under floor
    /// rounding that widening is what makes pruning provably lossless
    /// (`lemma_hit_contains`), and it accepts everything the exact test
    /// accepts (`lemma_strict_hit_implies_hit`).
    pub fn prune_hit(&self, ray: &Ray, t_min: i64, t_max: i64) -> (r: bool)
        requires
            aabb_wf(*self),
            vec_in_range(ray.origin),
        ensures
            r == aabb_hit_spec(*self, *ray, t_min as int, t_max as int),
    {
        let (ok_x, lx, hx) = slab_bounds(ray.origin.x, ray.direction.x, self.min.x, self.max.x);
        if !ok_x {
            return false;
        }
        let lo1: i64 = if t_min >= lx { t_min } else { lx };
        let hi1: i64 = if t_max <= hx { t_max } else { hx };
        if hi1 < lo1 {
            return false;
        }
        let (ok_y, ly, hy) = slab_bounds(ray.origin.y, ray.direction.y, self.min.y, self.max.y);
        if !ok_y {
            return false;
        }
        let lo2: i64 = if lo1 >= ly { lo1 } else { ly };
        let hi2: i64 = if hi1 <= hy { hi1 } else { hy };
        if hi2 < lo2 {
            return false;
        }
        let (ok_z, lz, hz) = slab_bounds(ray.origin.z, ray.direction.z, self.min.z, self.max.z);
        if !ok_z {
            return false;
        }
        let lo3: i64 = if lo2 >= lz { lo2 } else { lz };
        let hi3: i64 = if hi2 <= hz { hi2 } else { hz };
        !(hi3 < lo3)
    }
}

/// One axis of the conservativeness argument: if the reached coordinate
/// lies inside the slab, the parameter lies inside the slab interval.
proof fn lemma_slab_contains(o: int, d: int, lo: int, hi: int, t: int)
    requires
        -T_BIG as int <= t <= T_BIG as int,
        lo <= o + fpm(d, t) <= hi,
    ensures
        slab_ok(o, d, lo, hi),
        slab_lo(o, d, lo, hi) <= t <= slab_hi(o, d, lo, hi),
{
    let s = FP_ONE as int;
    crate::fixed::lemma_fdiv_range(d * t, s);
    assert(t * d == d * t) by (nonlinear_arith);
    if d > 0 {
        assert(d * t >= (lo - o) * s) by {
            assert(s * fdiv(d * t, s) >= s * (lo - o)) by (nonlinear_arith)
                requires
                    fdiv(d * t, s) >= lo - o,
                    s > 0,
            ;
        }
        assert(t * d > (lo - o - 1) * s) by (nonlinear_arith)
            requires
                d * t >= (lo - o) * s,
                s > 0,
        ;
        crate::fixed::lemma_ge_fdiv((lo - o - 1) * s, d, t);
        assert(d * t < (hi - o + 1) * s) by {
            assert(s * (fdiv(d * t, s) + 1) <= s * (hi - o + 1)) by (nonlinear_arith)
                requires
                    fdiv(d * t, s) <= hi - o,
                    s > 0,
            ;
        }
        crate::fixed::lemma_le_fdiv((hi - o + 1) * s, d, t);
    } else if d < 0 {
        assert(d * t >= (lo - o) * s) by {
            assert(s * fdiv(d * t, s) >= s * (lo - o)) by (nonlinear_arith)
                requires
                    fdiv(d * t, s) >= lo - o,
                    s > 0,
            ;
        }
        assert(d * t < (hi - o + 1) * s) by {
            assert(s * (fdiv(d * t, s) + 1) <= s * (hi - o + 1)) by (nonlinear_arith)
                requires
                    fdiv(d * t, s) <= hi - o,
                    s > 0,
            ;
        }
        assert(t * (-d) == -(d * t)) by (nonlinear_arith);
        assert((-(hi - o + 1)) * s == -((hi - o + 1) * s)) by (nonlinear_arith);
        assert(t * (-d) >= (-(hi - o + 1)) * s);
        crate::fixed::lemma_ge_fdiv((-(hi - o + 1)) * s, -d, t);
        assert(fdiv((-(hi - o + 1)) * s, -d) == fpd(hi - o + 1, d)) by {
            crate::fixed::lemma_fdiv_neg((hi - o + 1) * s, d);
            assert((-(hi - o + 1)) * s == -((hi - o + 1) * s)) by (nonlinear_arith);
        }
        assert((-(lo - o - 1)) * s == -((lo - o - 1) * s)) by (nonlinear_arith);
        assert((lo - o - 1) * s == (lo - o) * s - s) by (nonlinear_arith);
        assert(t * (-d) <= (-(lo - o - 1)) * s);
        crate::fixed::lemma_le_fdiv((-(lo - o - 1)) * s, -d, t);
        assert(fdiv((-(lo - o - 1)) * s, -d) == fpd(lo - o - 1, d)) by {
            crate::fixed::lemma_fdiv_neg((lo - o - 1) * s, d);
            assert((-(lo - o - 1)) * s == -((lo - o - 1) * s)) by (nonlinear_arith);
        }
    } else {
        assert(fdiv(0 * t, s) == 0) by {
            assert(0 * t == 0) by (nonlinear_arith);
            crate::fixed::lemma_fdiv_bounds(0, s, 0);
        }
        assert(-T_BIG as int <= t <= T_BIG as int);
    }
}

/// Conservativeness of the slab test: a ray point inside the box at some
/// parameter inside the window can never be rejected.
pub proof fn lemma_hit_contains(b: AABB, r: Ray, t_min: int, t_max: int, t: int)
    requires
        ray_wf(r),
        t_min <= t <= t_max,
        -T_LIMIT <= t <= T_LIMIT,
        contains_point(b, at_spec(r, t)),
    ensures
        aabb_hit_spec(b, r, t_min, t_max),
{
    let p = at_spec(r, t);
    assert(p.x == r.origin.x + fpm(r.direction.x as int, t)
        && p.y == r.origin.y + fpm(r.direction.y as int, t)
        && p.z == r.origin.z + fpm(r.direction.z as int, t)) by {
        crate::ray::lemma_at_bounded(r, t);
    }
    lemma_slab_contains(
        r.origin.x as int,
        r.direction.x as int,
        b.min.x as int,
        b.max.x as int,
        t,
    );
    lemma_slab_contains(
        r.origin.y as int,
        r.direction.y as int,
        b.min.y as int,
        b.max.y as int,
        t,
    );
    lemma_slab_contains(
        r.origin.z as int,
        r.direction.z as int,
        b.min.z as int,
        b.max.z as int,
        t,
    );
}

} // verus!
