//! Rays: an origin, a direction and the refractive index of the medium the
//! ray currently travels through.

use vstd::prelude::*;

verus! {

use crate::fixed::{fpm, FP_ONE, FP_HALF, FP_MUL_LIMIT};
use crate::vec3::{Vec3, Point3, vec_bounded, vec_in_range, DIR_LIMIT};

/// Magnitude bound on ray parameters `t` (1 << 39, the scaling limit).
pub const T_LIMIT: i64 = 549755813888;

/// The upper end of a render's search window, standing in for infinity.
pub const T_INFINITY: i64 = 274877906944;

/// The lower end of a render's search window: about 0.001, it keeps
/// secondary rays from immediately re-hitting their own surface.
pub const T_EPSILON: i64 = 64;

#[derive(Clone, Copy, Debug, PartialEq, Eq, Structural)]
pub struct Ray {
    pub origin: Point3,
    pub direction: Vec3,
    /// The refractive index of the medium the ray travels through,
    /// consulted when it strikes a dielectric surface.
    pub current_ior: i64,
}

/// A well-formed ray: in-range origin, direction-bounded direction, and a
/// moderate refractive index.
pub open spec fn ray_wf(r: Ray) -> bool {
    &&& vec_in_range(r.origin)
    &&& vec_bounded(r.direction, DIR_LIMIT as int)
    &&& FP_HALF <= r.current_ior <= 16 * FP_ONE as int
}

/// The point the ray reaches at parameter `t`, in exact fixed-point terms.
pub open spec fn at_spec(r: Ray, t: int) -> Point3 {
    Vec3 {
        x: (r.origin.x + fpm(r.direction.x as int, t)) as i64,
        y: (r.origin.y + fpm(r.direction.y as int, t)) as i64,
        z: (r.origin.z + fpm(r.direction.z as int, t)) as i64,
    }
}

impl Ray {
    /// A ray starting in vacuum (refractive index 1).
    pub fn new(origin: Point3, direction: Vec3) -> (r: Ray)
        ensures
            r.origin == origin,
            r.direction == direction,
            r.current_ior == FP_ONE,
    {
        Ray { origin, direction, current_ior: FP_ONE }
    }

    /// A ray travelling in a medium with the given refractive index.
    pub fn with_ior(origin: Point3, direction: Vec3, ior: i64) -> (r: Ray)
        ensures
            r.origin == origin,
            r.direction == direction,
            r.current_ior == ior,
    {
        Ray { origin, direction, current_ior: ior }
    }

    pub fn origin(&self) -> (r: Point3)
        ensures
            r == self.origin,
    {
        self.origin
    }

    pub fn direction(&self) -> (r: Vec3)
        ensures
            r == self.direction,
    {
        self.direction
    }

    /// The point reached at parameter `t`.
    pub fn at(&self, t: i64) -> (p: Point3)
        requires
            ray_wf(*self),
            -T_LIMIT <= t <= T_LIMIT,
        ensures
            p == at_spec(*self, t as int),
            vec_bounded(p, 0x2_0000_4000_0000),
    {
        proof {
            lemma_at_bounded(*self, t as int);
        }
        Point3 {
            x: self.origin.x + crate::fixed::fp_mul(self.direction.x, t),
            y: self.origin.y + crate::fixed::fp_mul(self.direction.y, t),
            z: self.origin.z + crate::fixed::fp_mul(self.direction.z, t),
        }
    }
}

/// The reached point's coordinates stay comfortably inside `i64`.
pub proof fn lemma_at_bounded(r: Ray, t: int)
    requires
        ray_wf(r),
        -T_LIMIT <= t <= T_LIMIT,
    ensures
        vec_bounded(at_spec(r, t), 0x2_0000_4000_0000),
        -0x2_0000_0000_0000 <= fpm(r.direction.x as int, t) <= 0x2_0000_0000_0000,
        -0x2_0000_0000_0000 <= fpm(r.direction.y as int, t) <= 0x2_0000_0000_0000,
        -0x2_0000_0000_0000 <= fpm(r.direction.z as int, t) <= 0x2_0000_0000_0000,
{
    crate::fixed::lemma_fpm_abs(
        r.direction.x as int,
        t,
        DIR_LIMIT as int,
        T_LIMIT as int,
        0x2_0000_0000_0000,
    );
    crate::fixed::lemma_fpm_abs(
        r.direction.y as int,
        t,
        DIR_LIMIT as int,
        T_LIMIT as int,
        0x2_0000_0000_0000,
    );
    crate::fixed::lemma_fpm_abs(
        r.direction.z as int,
        t,
        DIR_LIMIT as int,
        T_LIMIT as int,
        0x2_0000_0000_0000,
    );
}

} // verus!
