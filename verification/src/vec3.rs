//! Three-component fixed-point vectors.
//!
//! A `Vec3` serves as a point, a direction or a colour.  Every operation
//! states the exact fixed-point value of each result component.

use vstd::prelude::*;

verus! {

use crate::fixed::{
    fdiv, fpm, fpd, tdiv, tpm, is_sqrt_floor, sqrt_floor,
    fp_mul, fp_div, fp_sqrt, trunc_div_i128,
    lemma_fdiv_abs_le, lemma_tdiv_abs_le, lemma_tdiv_neg,
    FP_ONE, FP_HALF, FP_MUL_LIMIT, FP_DIV_LIMIT,
};

/// Magnitude bound on the coordinates of scene geometry (1 << 30,
/// about 16384 world units).
pub const VEC_LIMIT: i64 = 1073741824;

/// Magnitude bound on the coordinates of direction-like vectors that are
/// fed to reflection and refraction (1 << 26, about 1024 world units).
pub const DIR_LIMIT: i64 = 67108864;

#[derive(Clone, Copy, Debug, PartialEq, Eq, Structural)]
pub struct Vec3 {
    pub x: i64,
    pub y: i64,
    pub z: i64,
}

/// A point has the same shape as a vector.
pub type Point3 = Vec3;

/// A colour is a vector of three fixed-point channels.
pub type Color = Vec3;

/// Every component's magnitude is at most `m`.
pub open spec fn vec_bounded(v: Vec3, m: int) -> bool {
    &&& -m <= v.x <= m
    &&& -m <= v.y <= m
    &&& -m <= v.z <= m
}

/// The vector lies within the working range of scene geometry.
pub open spec fn vec_in_range(v: Vec3) -> bool {
    vec_bounded(v, VEC_LIMIT as int)
}

/// The exact fixed-point dot product.
pub open spec fn dot_spec(a: Vec3, b: Vec3) -> int {
    fdiv(a.x * b.x + a.y * b.y + a.z * b.z, FP_ONE as int)
}

/// The exact value of `normalize`: each component divided by the floor
/// length, or zero when the floor length is zero.
pub open spec fn normalize_spec(v: Vec3) -> Vec3 {
    let mag = sqrt_floor(dot_spec(v, v) * FP_ONE as int);
    if mag == 0 {
        Vec3 { x: 0, y: 0, z: 0 }
    } else {
        Vec3 {
            x: fpd(v.x as int, mag) as i64,
            y: fpd(v.y as int, mag) as i64,
            z: fpd(v.z as int, mag) as i64,
        }
    }
}

/// The exact componentwise value of the cross product.  Its scaling
/// rounds towards zero, not towards negative infinity, so that the
/// product stays exactly antisymmetric (`lemma_cross_antisym`).
pub open spec fn cross_spec(u: Vec3, v: Vec3) -> Vec3 {
    Vec3 {
        x: tpm(u.y * v.z - u.z * v.y) as i64,
        y: tpm(u.z * v.x - u.x * v.z) as i64,
        z: tpm(u.x * v.y - u.y * v.x) as i64,
    }
}

/// Componentwise negation as a value.
pub open spec fn neg_spec(v: Vec3) -> Vec3 {
    Vec3 { x: (-v.x) as i64, y: (-v.y) as i64, z: (-v.z) as i64 }
}

/// The exact value of a rotation about the x axis by `(sin, cos)`.
pub open spec fn rot_x_spec(v: Vec3, s: int, c: int) -> Vec3 {
    Vec3 {
        x: v.x,
        y: (fpm(c, v.y as int) - fpm(s, v.z as int)) as i64,
        z: (fpm(s, v.y as int) + fpm(c, v.z as int)) as i64,
    }
}

/// The exact value of a rotation about the y axis by `(sin, cos)`.
pub open spec fn rot_y_spec(v: Vec3, s: int, c: int) -> Vec3 {
    Vec3 {
        x: (fpm(c, v.x as int) + fpm(s, v.z as int)) as i64,
        y: v.y,
        z: (fpm(-s, v.x as int) + fpm(c, v.z as int)) as i64,
    }
}

/// The exact value of a rotation about the z axis by `(sin, cos)`.
pub open spec fn rot_z_spec(v: Vec3, s: int, c: int) -> Vec3 {
    Vec3 {
        x: (fpm(c, v.x as int) - fpm(s, v.y as int)) as i64,
        y: (fpm(s, v.x as int) + fpm(c, v.y as int)) as i64,
        z: v.z,
    }
}

/// The exact value of `reflect`: `v - 2*dot(v,n)*n`.
pub open spec fn reflect_spec(v: Vec3, n: Vec3) -> Vec3 {
    let d = dot_spec(v, n);
    Vec3 {
        x: (v.x - fpm(n.x as int, 2 * d)) as i64,
        y: (v.y - fpm(n.y as int, 2 * d)) as i64,
        z: (v.z - fpm(n.z as int, 2 * d)) as i64,
    }
}

impl Vec3 {
    /// The zero vector.
    pub fn zero() -> (r: Vec3)
        ensures
            r == (Vec3 { x: 0, y: 0, z: 0 }),
    {
        Vec3 { x: 0, y: 0, z: 0 }
    }

    pub fn new(x: i64, y: i64, z: i64) -> (r: Vec3)
        ensures
            r == (Vec3 { x, y, z }),
    {
        Vec3 { x, y, z }
    }

    /// A vector of random components in `[0, 1)`.
    pub fn random() -> (r: Vec3)
        ensures
            0 <= r.x < FP_ONE,
            0 <= r.y < FP_ONE,
            0 <= r.z < FP_ONE,
    {
        Vec3 {
            x: crate::rng::random_double(),
            y: crate::rng::random_double(),
            z: crate::rng::random_double(),
        }
    }

    /// A vector of random components in `[min, max)`.
    pub fn random_range(min: i64, max: i64) -> (r: Vec3)
        requires
            min < max,
        ensures
            min <= r.x < max,
            min <= r.y < max,
            min <= r.z < max,
    {
        Vec3 {
            x: crate::rng::random_double_range(min, max),
            y: crate::rng::random_double_range(min, max),
            z: crate::rng::random_double_range(min, max),
        }
    }

    /// Component by index: 0 is x, 1 is y, 2 is z.
    pub fn get(&self, i: usize) -> (r: i64)
        requires
            i < 3,
        ensures
            r == if i == 0 { self.x } else if i == 1 { self.y } else { self.z },
    {
        if i == 0 {
            self.x
        } else if i == 1 {
            self.y
        } else {
            self.z
        }
    }

    /// Componentwise sum.
    pub fn plus(&self, o: &Vec3) -> (r: Vec3)
        requires
            vec_bounded(*self, 0x2000_0000_0000_0000),
            vec_bounded(*o, 0x2000_0000_0000_0000),
        ensures
            r.x == self.x + o.x,
            r.y == self.y + o.y,
            r.z == self.z + o.z,
    {
        Vec3 { x: self.x + o.x, y: self.y + o.y, z: self.z + o.z }
    }

    /// Componentwise difference.
    pub fn minus(&self, o: &Vec3) -> (r: Vec3)
        requires
            vec_bounded(*self, 0x2000_0000_0000_0000),
            vec_bounded(*o, 0x2000_0000_0000_0000),
        ensures
            r.x == self.x - o.x,
            r.y == self.y - o.y,
            r.z == self.z - o.z,
    {
        Vec3 { x: self.x - o.x, y: self.y - o.y, z: self.z - o.z }
    }

    /// Componentwise negation.
    pub fn neg(&self) -> (r: Vec3)
        requires
            vec_bounded(*self, 0x2000_0000_0000_0000),
        ensures
            r.x == -self.x,
            r.y == -self.y,
            r.z == -self.z,
    {
        Vec3 { x: -self.x, y: -self.y, z: -self.z }
    }

    /// Scale by a fixed-point scalar.
    pub fn scaled(&self, s: i64) -> (r: Vec3)
        requires
            vec_bounded(*self, FP_MUL_LIMIT as int),
            -FP_MUL_LIMIT <= s <= FP_MUL_LIMIT,
        ensures
            r.x == fpm(self.x as int, s as int),
            r.y == fpm(self.y as int, s as int),
            r.z == fpm(self.z as int, s as int),
            vec_bounded(r, 0x4000_0000_0000_0000),
    {
        Vec3 { x: fp_mul(self.x, s), y: fp_mul(self.y, s), z: fp_mul(self.z, s) }
    }

    /// Componentwise fixed-point product (used for colour filtering).
    pub fn times(&self, o: &Vec3) -> (r: Vec3)
        requires
            vec_bounded(*self, FP_MUL_LIMIT as int),
            vec_bounded(*o, FP_MUL_LIMIT as int),
        ensures
            r.x == fpm(self.x as int, o.x as int),
            r.y == fpm(self.y as int, o.y as int),
            r.z == fpm(self.z as int, o.z as int),
            vec_bounded(r, 0x4000_0000_0000_0000),
    {
        Vec3 { x: fp_mul(self.x, o.x), y: fp_mul(self.y, o.y), z: fp_mul(self.z, o.z) }
    }

    /// Divide every component by a fixed-point scalar.
    pub fn div_scalar(&self, s: i64) -> (r: Vec3)
        requires
            s != 0,
            vec_bounded(*self, FP_DIV_LIMIT as int),
        ensures
            r.x == fpd(self.x as int, s as int),
            r.y == fpd(self.y as int, s as int),
            r.z == fpd(self.z as int, s as int),
            vec_bounded(r, 0x4000_0000_0000_0000),
    {
        Vec3 { x: fp_div(self.x, s), y: fp_div(self.y, s), z: fp_div(self.z, s) }
    }

    /// The squared length as a fixed-point scalar.
    pub fn length_squared(&self) -> (r: i64)
        requires
            vec_in_range(*self),
        ensures
            r == dot_spec(*self, *self),
            0 <= r <= 0x3000_0000_0000,
    {
        let r = dot(*self, *self);
        proof {
            lemma_dot_self_nonneg(*self);
        }
        r
    }

    /// The length: the floor square root of the squared length.
    pub fn length(&self) -> (r: i64)
        requires
            vec_in_range(*self),
        ensures
            r == sqrt_floor(dot_spec(*self, *self) * FP_ONE as int),
            is_sqrt_floor(dot_spec(*self, *self) * FP_ONE as int, r as int),
            0 <= r <= 0x8000_0000,
    {
        let sq: i64 = self.length_squared();
        let r: i64 = fp_sqrt(sq);
        proof {
            assert(r as int <= 0x8000_0000) by (nonlinear_arith)
                requires
                    r as int * r as int <= sq as int * 65536,
                    0 <= sq <= 0x3000_0000_0000,
                    0 <= r,
            ;
        }
        r
    }

    /// All components are exactly zero.
    pub fn near_zero(&self) -> (r: bool)
        ensures
            r == (self.x == 0 && self.y == 0 && self.z == 0),
    {
        self.x == 0 && self.y == 0 && self.z == 0
    }

    /// Normalize to unit length; the zero vector stays zero.  For vectors
    /// whose squared length is at least two units the result's components
    /// are bounded by 2.0.
    pub fn normalize(&self) -> (r: Vec3)
        requires
            vec_in_range(*self),
        ensures
            r == normalize_spec(*self),
            dot_spec(*self, *self) >= 1 ==> vec_bounded(r, 2 * FP_ONE as int),
    {
        let mag: i64 = self.length();
        if mag == 0 {
            Vec3 { x: 0, y: 0, z: 0 }
        } else {
            let r = Vec3 {
                x: fp_div(self.x, mag),
                y: fp_div(self.y, mag),
                z: fp_div(self.z, mag),
            };
            proof {
                lemma_normalize_bounded(*self, mag as int);
            }
            r
        }
    }

    pub fn dot(&self, other: &Vec3) -> (r: i64)
        requires
            vec_in_range(*self),
            vec_in_range(*other),
        ensures
            r == dot_spec(*self, *other),
            -0x3000_0000_0000 <= r <= 0x3000_0000_0000,
    {
        dot(*self, *other)
    }

    pub fn cross(&self, other: Vec3) -> (r: Vec3)
        requires
            vec_in_range(*self),
            vec_in_range(other),
        ensures
            r == cross_spec(*self, other),
            vec_bounded(r, 0x2000_0000_0000),
    {
        cross(*self, other)
    }

    /// Rotate about the x axis by an angle given as `(sin, cos)`.
    pub fn rotate_x(&self, s: i64, c: i64) -> (r: Vec3)
        requires
            vec_bounded(*self, 0x10_0000),
            -FP_ONE <= s <= FP_ONE,
            -FP_ONE <= c <= FP_ONE,
        ensures
            r == rot_x_spec(*self, s as int, c as int),
            r.x == self.x,
            r.y == fpm(c as int, self.y as int) - fpm(s as int, self.z as int),
            r.z == fpm(s as int, self.y as int) + fpm(c as int, self.z as int),
            vec_bounded(r, 0x20_0000),
    {
        proof {
            lemma_rotate_terms(*self, s as int, c as int);
        }
        Vec3 {
            x: self.x,
            y: fp_mul(c, self.y) - fp_mul(s, self.z),
            z: fp_mul(s, self.y) + fp_mul(c, self.z),
        }
    }

    /// Rotate about the y axis by an angle given as `(sin, cos)`.
    pub fn rotate_y(&self, s: i64, c: i64) -> (r: Vec3)
        requires
            vec_bounded(*self, 0x10_0000),
            -FP_ONE <= s <= FP_ONE,
            -FP_ONE <= c <= FP_ONE,
        ensures
            r == rot_y_spec(*self, s as int, c as int),
            r.x == fpm(c as int, self.x as int) + fpm(s as int, self.z as int),
            r.y == self.y,
            r.z == fpm(-s as int, self.x as int) + fpm(c as int, self.z as int),
            vec_bounded(r, 0x20_0000),
    {
        proof {
            lemma_rotate_terms(*self, s as int, c as int);
            lemma_rotate_terms(*self, -s as int, c as int);
        }
        Vec3 {
            x: fp_mul(c, self.x) + fp_mul(s, self.z),
            y: self.y,
            z: fp_mul(-s, self.x) + fp_mul(c, self.z),
        }
    }

    /// Rotate about the z axis by an angle given as `(sin, cos)`.
    pub fn rotate_z(&self, s: i64, c: i64) -> (r: Vec3)
        requires
            vec_bounded(*self, 0x10_0000),
            -FP_ONE <= s <= FP_ONE,
            -FP_ONE <= c <= FP_ONE,
        ensures
            r == rot_z_spec(*self, s as int, c as int),
            r.x == fpm(c as int, self.x as int) - fpm(s as int, self.y as int),
            r.y == fpm(s as int, self.x as int) + fpm(c as int, self.y as int),
            r.z == self.z,
            vec_bounded(r, 0x20_0000),
    {
        proof {
            lemma_rotate_terms(*self, s as int, c as int);
        }
        Vec3 {
            x: fp_mul(c, self.x) - fp_mul(s, self.y),
            y: fp_mul(s, self.x) + fp_mul(c, self.y),
            z: self.z,
        }
    }

    pub fn unit_vector(&self) -> (r: Vec3)
        requires
            vec_in_range(*self),
        ensures
            r == normalize_spec(*self),
            dot_spec(*self, *self) >= 1 ==> vec_bounded(r, 2 * FP_ONE as int),
    {
        self.normalize()
    }
}

/// The terms of a planar rotation stay within the coordinate budget.
proof fn lemma_rotate_terms(v: Vec3, s: int, c: int)
    requires
        vec_bounded(v, 0x10_0000),
        -FP_ONE <= s <= FP_ONE,
        -FP_ONE <= c <= FP_ONE,
    ensures
        -0x10_0000 <= fpm(s, v.x as int) <= 0x10_0000,
        -0x10_0000 <= fpm(s, v.y as int) <= 0x10_0000,
        -0x10_0000 <= fpm(s, v.z as int) <= 0x10_0000,
        -0x10_0000 <= fpm(c, v.x as int) <= 0x10_0000,
        -0x10_0000 <= fpm(c, v.y as int) <= 0x10_0000,
        -0x10_0000 <= fpm(c, v.z as int) <= 0x10_0000,
{
    assert(FP_ONE as int * 0x10_0000 == 0x10_0000int * (FP_ONE as int)) by (nonlinear_arith);
    lemma_fpm_abs_six(s, c, v);
}

/// Helper: bound all six rotation products at once.
proof fn lemma_fpm_abs_six(s: int, c: int, v: Vec3)
    requires
        vec_bounded(v, 0x10_0000),
        -FP_ONE <= s <= FP_ONE,
        -FP_ONE <= c <= FP_ONE,
    ensures
        -0x10_0000 <= fpm(s, v.x as int) <= 0x10_0000,
        -0x10_0000 <= fpm(s, v.y as int) <= 0x10_0000,
        -0x10_0000 <= fpm(s, v.z as int) <= 0x10_0000,
        -0x10_0000 <= fpm(c, v.x as int) <= 0x10_0000,
        -0x10_0000 <= fpm(c, v.y as int) <= 0x10_0000,
        -0x10_0000 <= fpm(c, v.z as int) <= 0x10_0000,
{
    crate::fixed::lemma_fpm_abs(s, v.x as int, FP_ONE as int, 0x10_0000, 0x10_0000);
    crate::fixed::lemma_fpm_abs(s, v.y as int, FP_ONE as int, 0x10_0000, 0x10_0000);
    crate::fixed::lemma_fpm_abs(s, v.z as int, FP_ONE as int, 0x10_0000, 0x10_0000);
    crate::fixed::lemma_fpm_abs(c, v.x as int, FP_ONE as int, 0x10_0000, 0x10_0000);
    crate::fixed::lemma_fpm_abs(c, v.y as int, FP_ONE as int, 0x10_0000, 0x10_0000);
    crate::fixed::lemma_fpm_abs(c, v.z as int, FP_ONE as int, 0x10_0000, 0x10_0000);
}

/// A vector's dot product with itself is non-negative.
pub proof fn lemma_dot_self_nonneg(v: Vec3)
    ensures
        dot_spec(v, v) >= 0,
{
    assert(v.x * v.x + v.y * v.y + v.z * v.z >= 0) by (nonlinear_arith);
    crate::fixed::lemma_fdiv_bounds(
        v.x * v.x + v.y * v.y + v.z * v.z,
        FP_ONE as int,
        v.x * v.x + v.y * v.y + v.z * v.z,
    );
}

/// Components divided by a positive floor length stay inside `i64`, and a
/// vector of at least two units normalizes to components bounded by 2.0.
proof fn lemma_normalize_bounded(v: Vec3, mag: int)
    requires
        vec_in_range(v),
        mag >= 1,
        is_sqrt_floor(dot_spec(v, v) * FP_ONE as int, mag),
    ensures
        -0x7_0000_0000_0000 <= fpd(v.x as int, mag) <= 0x7_0000_0000_0000,
        -0x7_0000_0000_0000 <= fpd(v.y as int, mag) <= 0x7_0000_0000_0000,
        -0x7_0000_0000_0000 <= fpd(v.z as int, mag) <= 0x7_0000_0000_0000,
        dot_spec(v, v) >= 1 ==> {
            &&& -2 * FP_ONE as int <= fpd(v.x as int, mag) <= 2 * FP_ONE as int
            &&& -2 * FP_ONE as int <= fpd(v.y as int, mag) <= 2 * FP_ONE as int
            &&& -2 * FP_ONE as int <= fpd(v.z as int, mag) <= 2 * FP_ONE as int
        },
{
    assert(0x7_0000_0000_0000int * 1 <= 0x7_0000_0000_0000int * mag) by (nonlinear_arith)
        requires
            mag >= 1,
    ;
    lemma_fdiv_abs_le(v.x * FP_ONE as int, mag, 0x7_0000_0000_0000);
    lemma_fdiv_abs_le(v.y * FP_ONE as int, mag, 0x7_0000_0000_0000);
    lemma_fdiv_abs_le(v.z * FP_ONE as int, mag, 0x7_0000_0000_0000);
    if dot_spec(v, v) >= 1 {
        let d = dot_spec(v, v);
        let s = v.x * v.x + v.y * v.y + v.z * v.z;
        crate::fixed::lemma_fdiv_range(s, FP_ONE as int);
        assert(s < (d + 1) * FP_ONE as int);
        assert(v.x * v.x <= s && v.y * v.y <= s && v.z * v.z <= s) by (nonlinear_arith)
            requires
                s == v.x * v.x + v.y * v.y + v.z * v.z,
        ;
        assert(mag >= 256) by (nonlinear_arith)
            requires
                d >= 1,
                mag * mag <= d * FP_ONE as int,
                d * (FP_ONE as int) < (mag + 1) * (mag + 1),
                mag >= 1,
        ;
        lemma_component_le(v.x as int, s, d, mag);
        lemma_component_le(v.y as int, s, d, mag);
        lemma_component_le(v.z as int, s, d, mag);
        lemma_fdiv_abs_le(v.x * FP_ONE as int, mag, 2 * FP_ONE as int);
        lemma_fdiv_abs_le(v.y * FP_ONE as int, mag, 2 * FP_ONE as int);
        lemma_fdiv_abs_le(v.z * FP_ONE as int, mag, 2 * FP_ONE as int);
    }
}

/// The cross product of edge-scale vectors stays small — stated over the
/// cross-product value itself.
pub proof fn lemma_cross_spec_bounded(u: Vec3, v: Vec3)
    requires
        vec_bounded(u, 0x40_0000),
        vec_bounded(v, 0x40_0000),
    ensures
        vec_bounded(cross_spec(u, v), 0x2000_0000),
{
    assert(-0x2000_0000_0000 <= u.y * v.z - u.z * v.y <= 0x2000_0000_0000
        && -0x2000_0000_0000 <= u.z * v.x - u.x * v.z <= 0x2000_0000_0000
        && -0x2000_0000_0000 <= u.x * v.y - u.y * v.x <= 0x2000_0000_0000)
        by (nonlinear_arith)
        requires
            vec_bounded(u, 0x40_0000),
            vec_bounded(v, 0x40_0000),
    ;
    assert(0x2000_0000int * FP_ONE as int == 0x2000_0000_0000int);
    lemma_tdiv_abs_le(u.y * v.z - u.z * v.y, FP_ONE as int, 0x2000_0000);
    lemma_tdiv_abs_le(u.z * v.x - u.x * v.z, FP_ONE as int, 0x2000_0000);
    lemma_tdiv_abs_le(u.x * v.y - u.y * v.x, FP_ONE as int, 0x2000_0000);
}

/// The cross product is exactly antisymmetric: swapping the factors
/// negates every component, even after fixed-point rounding.
pub proof fn lemma_cross_antisym(u: Vec3, v: Vec3)
    requires
        vec_bounded(u, 2 * VEC_LIMIT as int),
        vec_bounded(v, 2 * VEC_LIMIT as int),
    ensures
        cross_spec(u, v) == neg_spec(cross_spec(v, u)),
{
    assert(u.y * v.z - u.z * v.y == -(v.y * u.z - v.z * u.y)
        && u.z * v.x - u.x * v.z == -(v.z * u.x - v.x * u.z)
        && u.x * v.y - u.y * v.x == -(v.x * u.y - v.y * u.x)) by (nonlinear_arith);
    lemma_tdiv_neg(v.y * u.z - v.z * u.y, FP_ONE as int);
    lemma_tdiv_neg(v.z * u.x - v.x * u.z, FP_ONE as int);
    lemma_tdiv_neg(v.x * u.y - v.y * u.x, FP_ONE as int);
    assert(-(0x8000_0000_0000int * (FP_ONE as int)) <= v.y * u.z - v.z * u.y
        <= 0x8000_0000_0000int * (FP_ONE as int)
        && -(0x8000_0000_0000int * (FP_ONE as int)) <= v.z * u.x - v.x * u.z
        <= 0x8000_0000_0000int * (FP_ONE as int)
        && -(0x8000_0000_0000int * (FP_ONE as int)) <= v.x * u.y - v.y * u.x
        <= 0x8000_0000_0000int * (FP_ONE as int)) by (nonlinear_arith)
        requires
            vec_bounded(u, 2 * VEC_LIMIT as int),
            vec_bounded(v, 2 * VEC_LIMIT as int),
            VEC_LIMIT == 0x4000_0000,
            FP_ONE == 65536,
    ;
    lemma_tdiv_abs_le(v.y * u.z - v.z * u.y, FP_ONE as int, 0x8000_0000_0000);
    lemma_tdiv_abs_le(v.z * u.x - v.x * u.z, FP_ONE as int, 0x8000_0000_0000);
    lemma_tdiv_abs_le(v.x * u.y - v.y * u.x, FP_ONE as int, 0x8000_0000_0000);
}

/// The cross product of a vector with itself is exactly zero.
pub proof fn lemma_cross_self_zero(u: Vec3)
    ensures
        cross_spec(u, u) == (Vec3 { x: 0i64, y: 0i64, z: 0i64 }),
{
    assert(u.y * u.z - u.z * u.y == 0 && u.z * u.x - u.x * u.z == 0 && u.x * u.y - u.y * u.x
        == 0) by (nonlinear_arith);
    vstd::arithmetic::div_mod::lemma_div_of0(FP_ONE as int);
}

/// The dot product is symmetric in its operands.
pub proof fn lemma_dot_comm(u: Vec3, v: Vec3)
    ensures
        dot_spec(u, v) == dot_spec(v, u),
{
    vstd::arithmetic::mul::lemma_mul_is_commutative(u.x as int, v.x as int);
    vstd::arithmetic::mul::lemma_mul_is_commutative(u.y as int, v.y as int);
    vstd::arithmetic::mul::lemma_mul_is_commutative(u.z as int, v.z as int);
}

/// Bounds on a normalization result: always representable, and within
/// 2.0 when the vector has at least unit squared length.
pub proof fn lemma_normalize_spec_bounds(v: Vec3)
    requires
        vec_in_range(v),
    ensures
        vec_bounded(normalize_spec(v), 0x7_0000_0000_0000),
        dot_spec(v, v) >= 1 ==> vec_bounded(normalize_spec(v), 2 * FP_ONE as int),
        dot_spec(v, v) == 0 ==> normalize_spec(v) == (Vec3 { x: 0i64, y: 0i64, z: 0i64 }),
{
    lemma_dot_self_nonneg(v);
    crate::fixed::lemma_sqrt_floor_exists(dot_spec(v, v) * FP_ONE as int);
    let mag = sqrt_floor(dot_spec(v, v) * FP_ONE as int);
    if dot_spec(v, v) == 0 {
        assert(dot_spec(v, v) * (FP_ONE as int) == 0) by (nonlinear_arith)
            requires
                dot_spec(v, v) == 0,
        ;
        crate::fixed::lemma_sqrt_floor_unique(0, 0);
    } else if mag == 0 {
    } else {
        lemma_normalize_bounded(v, mag);
        if dot_spec(v, v) >= 1 {
        }
    }
}

/// A vector of at least unit squared length normalizes to components
/// bounded by 2.0 — stated over the normalization value itself.
pub proof fn lemma_normalize_unit_bounded(v: Vec3)
    requires
        vec_in_range(v),
        dot_spec(v, v) >= 1,
    ensures
        vec_bounded(normalize_spec(v), 2 * FP_ONE as int),
{
    crate::fixed::lemma_sqrt_floor_exists(dot_spec(v, v) * FP_ONE as int);
    let mag = sqrt_floor(dot_spec(v, v) * FP_ONE as int);
    assert(mag >= 1) by {
        assert(FP_ONE as int == 65536);
        assert(dot_spec(v, v) * (FP_ONE as int) >= 65536) by (nonlinear_arith)
            requires
                dot_spec(v, v) >= 1,
                FP_ONE as int == 65536,
        ;
        if mag == 0 {
            assert((mag + 1) * (mag + 1) == 1) by (nonlinear_arith)
                requires
                    mag == 0,
            ;
            assert(false);
        }
    }
    lemma_normalize_bounded(v, mag);
}

/// Each component of a vector is at most its floor length plus a small
/// rounding allowance, so dividing it by the length lands below 2.0.
proof fn lemma_component_le(c: int, s: int, d: int, mag: int)
    requires
        c * c <= s,
        s < (d + 1) * FP_ONE as int,
        d * (FP_ONE as int) < (mag + 1) * (mag + 1),
        mag >= 256,
    ensures
        -(2 * FP_ONE as int * mag) <= c * FP_ONE as int <= 2 * FP_ONE as int * mag,
{
    assert(c * c < (mag + 1) * (mag + 1) + 65536) by (nonlinear_arith)
        requires
            c * c <= s,
            s < (d + 1) * 65536,
            d * 65536 < (mag + 1) * (mag + 1),
    ;
    assert(c * c < (2 * mag) * (2 * mag)) by (nonlinear_arith)
        requires
            c * c < (mag + 1) * (mag + 1) + 65536,
            mag >= 256,
    ;
    assert(-(2 * mag) <= c <= 2 * mag) by (nonlinear_arith)
        requires
            c * c < (2 * mag) * (2 * mag),
            mag >= 1,
    ;
    assert(-(2 * 65536 * mag) <= c * 65536 <= 2 * 65536 * mag) by (nonlinear_arith)
        requires
            -(2 * mag) <= c <= 2 * mag,
    ;
}

/// The fixed-point dot product of two in-range vectors.
pub fn dot(u: Vec3, v: Vec3) -> (r: i64)
    requires
        vec_bounded(u, 2 * VEC_LIMIT as int),
        vec_bounded(v, 2 * VEC_LIMIT as int),
    ensures
        r == dot_spec(u, v),
        -0xC000_0000_0000 <= r <= 0xC000_0000_0000,
        vec_in_range(u) && vec_in_range(v) ==> -0x3000_0000_0000 <= r <= 0x3000_0000_0000,
{
    proof {
        lemma_dot_sum_bound(u, v);
    }
    let s: i128 = (u.x as i128) * (v.x as i128) + (u.y as i128) * (v.y as i128) + (u.z as i128)
        * (v.z as i128);
    let q: i128 = crate::fixed::floor_div_i128(s, FP_ONE as i128);
    proof {
        assert(0xC000_0000_0000int * FP_ONE as int == 0xC000_0000_0000_0000int);
        lemma_fdiv_abs_le(s as int, FP_ONE as int, 0xC000_0000_0000);
        if vec_in_range(u) && vec_in_range(v) {
            assert(0x3000_0000_0000int * FP_ONE as int == 0x3000_0000_0000_0000int);
            lemma_fdiv_abs_le(s as int, FP_ONE as int, 0x3000_0000_0000);
        }
    }
    q as i64
}

/// The raw coordinate products of range-bounded vectors sum to well under
/// the 128-bit limit.
proof fn lemma_dot_sum_bound(u: Vec3, v: Vec3)
    requires
        vec_bounded(u, 2 * VEC_LIMIT as int),
        vec_bounded(v, 2 * VEC_LIMIT as int),
    ensures
        -0xC000_0000_0000_0000 <= u.x * v.x + u.y * v.y + u.z * v.z <= 0xC000_0000_0000_0000,
        -0x4000_0000_0000_0000 <= u.x * v.x <= 0x4000_0000_0000_0000,
        -0x4000_0000_0000_0000 <= u.y * v.y <= 0x4000_0000_0000_0000,
        -0x4000_0000_0000_0000 <= u.z * v.z <= 0x4000_0000_0000_0000,
        vec_in_range(u) && vec_in_range(v) ==> -0x3000_0000_0000_0000 <= u.x * v.x + u.y * v.y
            + u.z * v.z <= 0x3000_0000_0000_0000,
{
    assert(-0x4000_0000_0000_0000 <= u.x * v.x <= 0x4000_0000_0000_0000
        && -0x4000_0000_0000_0000 <= u.y * v.y <= 0x4000_0000_0000_0000
        && -0x4000_0000_0000_0000 <= u.z * v.z <= 0x4000_0000_0000_0000) by (nonlinear_arith)
        requires
            vec_bounded(u, 2 * VEC_LIMIT as int),
            vec_bounded(v, 2 * VEC_LIMIT as int),
    ;
    if vec_in_range(u) && vec_in_range(v) {
        assert(-0x1000_0000_0000_0000 <= u.x * v.x <= 0x1000_0000_0000_0000
            && -0x1000_0000_0000_0000 <= u.y * v.y <= 0x1000_0000_0000_0000
            && -0x1000_0000_0000_0000 <= u.z * v.z <= 0x1000_0000_0000_0000) by (nonlinear_arith)
            requires
                vec_in_range(u),
                vec_in_range(v),
        ;
    }
}

/// The fixed-point cross product of two in-range vectors.
pub fn cross(u: Vec3, v: Vec3) -> (r: Vec3)
    requires
        vec_in_range(u),
        vec_in_range(v),
    ensures
        r == cross_spec(u, v),
        vec_bounded(r, 0x2000_0000_0000),
        vec_bounded(u, 0x40_0000) && vec_bounded(v, 0x40_0000) ==> vec_bounded(r, 0x2000_0000),
{
    let x: i64 = cross_term(u.y, v.z, u.z, v.y);
    let y: i64 = cross_term(u.z, v.x, u.x, v.z);
    let z: i64 = cross_term(u.x, v.y, u.y, v.x);
    Vec3 { x, y, z }
}

/// One component of the cross product: `(a*b - c*d) / FP_ONE`, rounded
/// towards zero.
fn cross_term(a: i64, b: i64, c: i64, d: i64) -> (r: i64)
    requires
        -VEC_LIMIT <= a <= VEC_LIMIT,
        -VEC_LIMIT <= b <= VEC_LIMIT,
        -VEC_LIMIT <= c <= VEC_LIMIT,
        -VEC_LIMIT <= d <= VEC_LIMIT,
    ensures
        r == tpm(a as int * b as int - c as int * d as int),
        -0x2000_0000_0000 <= r <= 0x2000_0000_0000,
        ({
            &&& -0x40_0000 <= a <= 0x40_0000
            &&& -0x40_0000 <= b <= 0x40_0000
            &&& -0x40_0000 <= c <= 0x40_0000
            &&& -0x40_0000 <= d <= 0x40_0000
        }) ==> -0x2000_0000 <= r <= 0x2000_0000,
{
    proof {
        assert(-0x1000_0000_0000_0000 <= a as int * b as int <= 0x1000_0000_0000_0000
            && -0x1000_0000_0000_0000 <= c as int * d as int <= 0x1000_0000_0000_0000)
            by (nonlinear_arith)
            requires
                -VEC_LIMIT <= a <= VEC_LIMIT,
                -VEC_LIMIT <= b <= VEC_LIMIT,
                -VEC_LIMIT <= c <= VEC_LIMIT,
                -VEC_LIMIT <= d <= VEC_LIMIT,
        ;
    }
    let s: i128 = (a as i128) * (b as i128) - (c as i128) * (d as i128);
    let q: i128 = trunc_div_i128(s, FP_ONE as i128);
    proof {
        assert(0x2000_0000_0000int * FP_ONE as int == 0x2000_0000_0000_0000int);
        lemma_tdiv_abs_le(s as int, FP_ONE as int, 0x2000_0000_0000);
        if -0x40_0000 <= a <= 0x40_0000 && -0x40_0000 <= b <= 0x40_0000
            && -0x40_0000 <= c <= 0x40_0000 && -0x40_0000 <= d <= 0x40_0000 {
            assert(-0x2000_0000 * 0x1_0000 <= a as int * b as int - c as int * d as int
                <= 0x2000_0000 * 0x1_0000) by (nonlinear_arith)
                requires
                    -0x40_0000 <= a <= 0x40_0000,
                    -0x40_0000 <= b <= 0x40_0000,
                    -0x40_0000 <= c <= 0x40_0000,
                    -0x40_0000 <= d <= 0x40_0000,
            ;
            lemma_tdiv_abs_le(
                a as int * b as int - c as int * d as int,
                FP_ONE as int,
                0x2000_0000,
            );
        }
    }
    q as i64
}

/// Free-function form of `unit_vector`.
pub fn unit_vector(v: Vec3) -> (r: Vec3)
    requires
        vec_in_range(v),
    ensures
        r == normalize_spec(v),
        dot_spec(v, v) >= 1 ==> vec_bounded(r, 2 * FP_ONE as int),
{
    v.normalize()
}

/// The dot product of two direction-bounded vectors is small.
pub proof fn lemma_dot_dir_bound(u: Vec3, v: Vec3)
    requires
        vec_bounded(u, DIR_LIMIT as int),
        vec_bounded(v, DIR_LIMIT as int),
    ensures
        -0x30_0000_0000 <= dot_spec(u, v) <= 0x30_0000_0000,
{
    assert(-0x30_0000_0000_0000 <= u.x * v.x + u.y * v.y + u.z * v.z
        <= 0x30_0000_0000_0000) by (nonlinear_arith)
        requires
            vec_bounded(u, DIR_LIMIT as int),
            vec_bounded(v, DIR_LIMIT as int),
    ;
    assert(0x30_0000_0000int * FP_ONE as int == 0x30_0000_0000_0000int);
    lemma_fdiv_abs_le(u.x * v.x + u.y * v.y + u.z * v.z, FP_ONE as int, 0x30_0000_0000);
}

/// Mirror reflection of `v` about the normal `n`: `v - 2*dot(v,n)*n`.
pub fn reflect(v: Vec3, n: Vec3) -> (r: Vec3)
    requires
        vec_bounded(v, DIR_LIMIT as int),
        vec_bounded(n, DIR_LIMIT as int),
    ensures
        r == reflect_spec(v, n),
        vec_bounded(r, 0x20_0000_0000_0000),
        vec_bounded(v, 2 * FP_ONE as int) && vec_bounded(n, 2 * FP_ONE as int) ==> vec_bounded(
            r,
            64 * FP_ONE as int,
        ),
{
    let d: i64 = dot(v, n);
    proof {
        lemma_dot_dir_bound(v, n);
        crate::fixed::lemma_fpm_abs(n.x as int, 2 * d as int, DIR_LIMIT as int, 0x60_0000_0000, 0x18_0000_0000_0000);
        crate::fixed::lemma_fpm_abs(n.y as int, 2 * d as int, DIR_LIMIT as int, 0x60_0000_0000, 0x18_0000_0000_0000);
        crate::fixed::lemma_fpm_abs(n.z as int, 2 * d as int, DIR_LIMIT as int, 0x60_0000_0000, 0x18_0000_0000_0000);
        if vec_bounded(v, 2 * FP_ONE as int) && vec_bounded(n, 2 * FP_ONE as int) {
            assert(-(12 * FP_ONE as int * FP_ONE as int) <= v.x * n.x + v.y * n.y + v.z * n.z
                <= 12 * FP_ONE as int * FP_ONE as int) by (nonlinear_arith)
                requires
                    vec_bounded(v, 131072int),
                    vec_bounded(n, 131072int),
                    FP_ONE == 65536,
            ;
            assert(12 * FP_ONE as int * FP_ONE as int == 786432int * (FP_ONE as int))
                by (nonlinear_arith);
            crate::fixed::lemma_fdiv_abs_le(
                v.x * n.x + v.y * n.y + v.z * n.z,
                FP_ONE as int,
                786432int,
            );
            crate::fixed::lemma_fpm_abs(
                n.x as int,
                2 * d as int,
                2 * FP_ONE as int,
                24 * FP_ONE as int,
                48 * FP_ONE as int,
            );
            crate::fixed::lemma_fpm_abs(
                n.y as int,
                2 * d as int,
                2 * FP_ONE as int,
                24 * FP_ONE as int,
                48 * FP_ONE as int,
            );
            crate::fixed::lemma_fpm_abs(
                n.z as int,
                2 * d as int,
                2 * FP_ONE as int,
                24 * FP_ONE as int,
                48 * FP_ONE as int,
            );
        }
    }
    let s = n.scaled(2 * d);
    v.minus(&s)
}

/// The exact value of `refract`: the incidence cosine is clamped to
/// `[-1, 1]`, the perpendicular part is scaled by the index ratio, the
/// parallel part closes the unit length; `None` under total internal
/// reflection.
pub open spec fn refract_spec(v: Vec3, n: Vec3, eta: int) -> Option<Vec3> {
    let d = dot_spec(Vec3 { x: (-v.x) as i64, y: (-v.y) as i64, z: (-v.z) as i64 }, n);
    let cos = if d < -FP_ONE {
        -FP_ONE as int
    } else if d > FP_ONE {
        FP_ONE as int
    } else {
        d
    };
    let perp = Vec3 {
        x: fpm(v.x + fpm(n.x as int, cos), eta) as i64,
        y: fpm(v.y + fpm(n.y as int, cos), eta) as i64,
        z: fpm(v.z + fpm(n.z as int, cos), eta) as i64,
    };
    let par_sq = FP_ONE - dot_spec(perp, perp);
    if par_sq < 0 {
        None
    } else {
        let s = sqrt_floor(par_sq * FP_ONE as int);
        Some(
            Vec3 {
                x: (perp.x + fpm(n.x as int, -s)) as i64,
                y: (perp.y + fpm(n.y as int, -s)) as i64,
                z: (perp.z + fpm(n.z as int, -s)) as i64,
            },
        )
    }
}

/// Refract `v` about the normal `n` with index ratio `eta`; `None` means
/// total internal reflection.
pub fn refract(v: Vec3, n: Vec3, eta: i64) -> (r: Option<Vec3>)
    requires
        vec_bounded(v, 4 * FP_ONE as int),
        vec_bounded(n, 2 * FP_ONE as int),
        0 < eta <= 32 * FP_ONE as int,
    ensures
        r == refract_spec(v, n, eta as int),
        r matches Some(o) ==> vec_bounded(o, 0x100_0000),
{
    let vneg = v.neg();
    let d: i64 = dot(vneg, n);
    let cos: i64 = crate::fixed::fp_clamp(d, -FP_ONE, FP_ONE);
    let scaled_n = n.scaled(cos);
    proof {
        crate::fixed::lemma_fpm_abs(
            n.x as int,
            cos as int,
            2 * FP_ONE as int,
            FP_ONE as int,
            2 * FP_ONE as int,
        );
        crate::fixed::lemma_fpm_abs(
            n.y as int,
            cos as int,
            2 * FP_ONE as int,
            FP_ONE as int,
            2 * FP_ONE as int,
        );
        crate::fixed::lemma_fpm_abs(
            n.z as int,
            cos as int,
            2 * FP_ONE as int,
            FP_ONE as int,
            2 * FP_ONE as int,
        );
    }
    let sum = v.plus(&scaled_n);
    proof {
        crate::fixed::lemma_fpm_abs(
            sum.x as int,
            eta as int,
            6 * FP_ONE as int,
            32 * FP_ONE as int,
            192 * FP_ONE as int,
        );
        crate::fixed::lemma_fpm_abs(
            sum.y as int,
            eta as int,
            6 * FP_ONE as int,
            32 * FP_ONE as int,
            192 * FP_ONE as int,
        );
        crate::fixed::lemma_fpm_abs(
            sum.z as int,
            eta as int,
            6 * FP_ONE as int,
            32 * FP_ONE as int,
            192 * FP_ONE as int,
        );
    }
    let perp = Vec3 { x: fp_mul(sum.x, eta), y: fp_mul(sum.y, eta), z: fp_mul(sum.z, eta) };
    let len_sq: i64 = dot(perp, perp);
    proof {
        lemma_dot_self_nonneg(perp);
    }
    let par_sq: i64 = FP_ONE - len_sq;
    if par_sq < 0 {
        return None;
    }
    let s: i64 = crate::fixed::fp_sqrt(par_sq);
    proof {
        assert(s <= FP_ONE) by (nonlinear_arith)
            requires
                s as int * s as int <= par_sq as int * 65536,
                0 <= par_sq <= 65536,
                0 <= s,
        ;
        crate::fixed::lemma_fpm_abs(
            n.x as int,
            -s as int,
            2 * FP_ONE as int,
            FP_ONE as int,
            2 * FP_ONE as int,
        );
        crate::fixed::lemma_fpm_abs(
            n.y as int,
            -s as int,
            2 * FP_ONE as int,
            FP_ONE as int,
            2 * FP_ONE as int,
        );
        crate::fixed::lemma_fpm_abs(
            n.z as int,
            -s as int,
            2 * FP_ONE as int,
            FP_ONE as int,
            2 * FP_ONE as int,
        );
    }
    let par = Vec3 { x: fp_mul(n.x, -s), y: fp_mul(n.y, -s), z: fp_mul(n.z, -s) };
    Some(perp.plus(&par))
}

/// A random point strictly inside the unit sphere, by bounded rejection
/// sampling with a safe fallback.
pub fn random_in_unit_sphere() -> (r: Vec3)
    ensures
        vec_bounded(r, FP_ONE as int),
        dot_spec(r, r) < FP_ONE,
{
    let mut tries: usize = 0;
    while tries < 64
        invariant
            tries <= 64,
        decreases 64 - tries,
    {
        let p = Vec3 {
            x: crate::rng::random_double_range(-FP_ONE, FP_ONE),
            y: crate::rng::random_double_range(-FP_ONE, FP_ONE),
            z: crate::rng::random_double_range(-FP_ONE, FP_ONE),
        };
        let sq: i64 = p.length_squared();
        if sq < FP_ONE {
            return p;
        }
        tries += 1;
    }
    let fallback = Vec3 { x: FP_HALF, y: 0, z: 0 };
    proof {
        assert(dot_spec(fallback, fallback) < FP_ONE) by {
            assert(32768int * 32768int + 0int * 0int + 0int * 0int == 0x4000_0000int)
                by (nonlinear_arith);
            lemma_fdiv_abs_le(0x4000_0000, FP_ONE as int, FP_HALF as int / 2);
        }
    }
    fallback
}

/// A random direction of roughly unit length.
pub fn random_unit_vector() -> (r: Vec3)
    ensures
        vec_bounded(r, 2 * FP_ONE as int),
{
    let p = random_in_unit_sphere();
    let r = p.normalize();
    proof {
        crate::vec3::lemma_dot_self_nonneg(p);
        if dot_spec(p, p) == 0 {
            assert(dot_spec(p, p) * (FP_ONE as int) == 0) by (nonlinear_arith)
                requires
                    dot_spec(p, p) == 0,
            ;
            crate::fixed::lemma_sqrt_floor_unique(0, 0);
        }
    }
    r
}

/// Componentwise minimum.
pub fn min(v1: Vec3, v2: Vec3) -> (r: Vec3)
    ensures
        r.x == if v1.x <= v2.x { v1.x } else { v2.x },
        r.y == if v1.y <= v2.y { v1.y } else { v2.y },
        r.z == if v1.z <= v2.z { v1.z } else { v2.z },
{
    Vec3 {
        x: if v1.x <= v2.x { v1.x } else { v2.x },
        y: if v1.y <= v2.y { v1.y } else { v2.y },
        z: if v1.z <= v2.z { v1.z } else { v2.z },
    }
}

/// Componentwise maximum.
pub fn max(v1: Vec3, v2: Vec3) -> (r: Vec3)
    ensures
        r.x == if v1.x >= v2.x { v1.x } else { v2.x },
        r.y == if v1.y >= v2.y { v1.y } else { v2.y },
        r.z == if v1.z >= v2.z { v1.z } else { v2.z },
{
    Vec3 {
        x: if v1.x >= v2.x { v1.x } else { v2.x },
        y: if v1.y >= v2.y { v1.y } else { v2.y },
        z: if v1.z >= v2.z { v1.z } else { v2.z },
    }
}

} // verus!
