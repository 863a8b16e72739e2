//! The record of a successful ray–geometry intersection.

use vstd::prelude::*;

verus! {

use crate::fixed::FP_ONE;
use crate::vec3::{Vec3, Point3, vec_in_range, vec_bounded, dot_spec};
use crate::ray::Ray;

/// Everything a shading step needs to know about the closest intersection:
/// the point, the surface normal oriented against the incoming ray, the
/// ray parameter, texture coordinates and a handle into the world's
/// material table.
#[derive(Clone, Copy, Debug, PartialEq, Eq, Structural)]
pub struct HitRecord {
    pub p: Point3,
    pub normal: Vec3,
    pub t: i64,
    pub front_face: bool,
    pub u: i64,
    pub v: i64,
    pub mat: usize,
}

/// A well-formed record: the point in scene range, a unit-scale normal,
/// and texture coordinates inside `[0, 1]`.
pub open spec fn rec_wf(rec: HitRecord) -> bool {
    &&& vec_in_range(rec.p)
    &&& vec_bounded(rec.normal, 2 * FP_ONE as int)
    &&& 0 <= rec.u <= FP_ONE
    &&& 0 <= rec.v <= FP_ONE
}

/// The face-orientation rule: the stored normal faces against the
/// incoming ray; `front_face` says whether the outward normal already did.
pub open spec fn face_normal_spec(r: Ray, outward: Vec3) -> (bool, Vec3) {
    let front = dot_spec(r.direction, outward) < 0;
    if front {
        (front, outward)
    } else {
        (front, Vec3 { x: (-outward.x) as i64, y: (-outward.y) as i64, z: (-outward.z) as i64 })
    }
}

/// Orient an outward normal against the incoming ray.
pub fn set_face_normal(r: &Ray, outward: Vec3) -> (res: (bool, Vec3))
    requires
        vec_in_range(r.direction),
        vec_in_range(outward),
    ensures
        res == face_normal_spec(*r, outward),
{
    let front = crate::vec3::dot(r.direction, outward) < 0;
    if front {
        (front, outward)
    } else {
        (front, outward.neg())
    }
}

} // verus!
