//! The closed set of scene primitives, dispatched as one enumeration.

use vstd::prelude::*;

verus! {

use crate::vec3::Point3;
use crate::ray::{Ray, ray_wf, at_spec, T_LIMIT};
use crate::aabb::{AABB, aabb_wf, contains_point, contains_box};
use crate::hit::{HitRecord, rec_wf};
use crate::sphere::{Sphere, sphere_wf, sphere_box_spec, sphere_hit_spec};
use crate::triangle::{Triangle, tri_wf, tri_box_spec, triangle_hit_spec};

#[derive(Clone, Copy, Debug)]
pub enum Primitive {
    Sphere(Sphere),
    Triangle(Triangle),
}

pub open spec fn prim_wf(p: Primitive) -> bool {
    match p {
        Primitive::Sphere(s) => sphere_wf(s),
        Primitive::Triangle(t) => tri_wf(t),
    }
}

/// The primitive's padded bounding box.
pub open spec fn prim_box_spec(p: Primitive) -> AABB {
    match p {
        Primitive::Sphere(s) => sphere_box_spec(s),
        Primitive::Triangle(t) => tri_box_spec(t),
    }
}

/// The exact intersection result of one primitive.
pub open spec fn prim_hit_spec(p: Primitive, r: Ray, t_min: int, t_max: int) -> Option<HitRecord> {
    match p {
        Primitive::Sphere(s) => sphere_hit_spec(s, r, t_min, t_max),
        Primitive::Triangle(t) => triangle_hit_spec(t, r, t_min, t_max),
    }
}

/// The material handle a primitive carries.
pub open spec fn prim_mat(p: Primitive) -> usize {
    match p {
        Primitive::Sphere(s) => s.mat,
        Primitive::Triangle(t) => t.mat,
    }
}

impl Primitive {
    /// Intersect the ray with this primitive inside the window.
    pub fn hit(&self, ray: &Ray, t_min: i64, t_max: i64) -> (res: Option<HitRecord>)
        requires
            prim_wf(*self),
            ray_wf(*ray),
            -T_LIMIT <= t_min <= t_max <= T_LIMIT,
        ensures
            res == prim_hit_spec(*self, *ray, t_min as int, t_max as int),
    {
        match self {
            Primitive::Sphere(s) => s.hit(ray, t_min, t_max),
            Primitive::Triangle(t) => t.hit(ray, t_min, t_max),
        }
    }

    /// The primitive's padded bounding box.
    pub fn bounding_box(&self) -> (b: AABB)
        requires
            prim_wf(*self),
        ensures
            b == prim_box_spec(*self),
            aabb_wf(b),
    {
        match self {
            Primitive::Sphere(s) => s.bounding_box(),
            Primitive::Triangle(t) => t.bounding_box(),
        }
    }
}

/// The closest hit a left-to-right scan over the primitives finds: each
/// primitive is probed inside the window shrunk to the closest parameter
/// found so far, and a hit there replaces the record.
pub open spec fn scan_spec(s: Seq<Primitive>, r: Ray, t_min: int, t_max: int) -> Option<HitRecord>
    decreases s.len(),
{
    if s.len() == 0 {
        None
    } else {
        match scan_spec(s.drop_last(), r, t_min, t_max) {
            Option::None => prim_hit_spec(s.last(), r, t_min, t_max),
            Option::Some(rec) => match prim_hit_spec(s.last(), r, t_min, rec.t as int) {
                Option::None => Option::Some(rec),
                Option::Some(r2) => Option::Some(r2),
            },
        }
    }
}

/// All primitives of a sequence are well-formed.
pub open spec fn prims_wf(s: Seq<Primitive>) -> bool {
    forall|i: int| 0 <= i < s.len() ==> prim_wf(#[trigger] s[i])
}

/// What holds of every scan result: the reported parameter lies in the
/// window and the record is well-formed.
pub proof fn lemma_scan_props(s: Seq<Primitive>, r: Ray, t_min: int, t_max: int, rec: HitRecord)
    requires
        prims_wf(s),
        ray_wf(r),
        -T_LIMIT <= t_min <= t_max <= T_LIMIT,
        scan_spec(s, r, t_min, t_max) == Some(rec),
    ensures
        t_min <= rec.t <= t_max,
        rec_wf(rec),
    decreases s.len(),
{
    assert(s.len() > 0);
    assert(prims_wf(s.drop_last())) by {
        assert(forall|i: int| 0 <= i < s.drop_last().len() ==> s.drop_last()[i]
            == #[trigger] s[i]);
    }
    match scan_spec(s.drop_last(), r, t_min, t_max) {
        Option::None => {
            lemma_prim_hit_props(s.last(), r, t_min, t_max, rec);
        },
        Option::Some(prev) => {
            lemma_scan_props(s.drop_last(), r, t_min, t_max, prev);
            match prim_hit_spec(s.last(), r, t_min, prev.t as int) {
                Option::None => {
                    assert(rec == prev);
                },
                Option::Some(r2) => {
                    lemma_prim_hit_props(s.last(), r, t_min, prev.t as int, r2);
                    assert(rec == r2);
                },
            }
        },
    }
}

/// A scan over primitives that all miss the full window reports nothing.
pub proof fn lemma_scan_none(s: Seq<Primitive>, r: Ray, t_min: int, t_max: int)
    requires
        forall|i: int| 0 <= i < s.len() ==> #[trigger] prim_hit_spec(s[i], r, t_min, t_max)
            == Option::<HitRecord>::None,
    ensures
        scan_spec(s, r, t_min, t_max) == Option::<HitRecord>::None,
    decreases s.len(),
{
    if s.len() > 0 {
        assert(forall|i: int| 0 <= i < s.drop_last().len() ==> s.drop_last()[i]
            == #[trigger] s[i]);
        assert(forall|i: int| 0 <= i < s.drop_last().len()
            ==> #[trigger] prim_hit_spec(s.drop_last()[i], r, t_min, t_max)
            == Option::<HitRecord>::None);
        lemma_scan_none(s.drop_last(), r, t_min, t_max);
        assert(prim_hit_spec(s.last(), r, t_min, t_max) == Option::<HitRecord>::None);
    }
}

/// Scanning a concatenation is scanning the first part, then the second
/// inside the window the first part left over.
pub proof fn lemma_scan_concat(s1: Seq<Primitive>, s2: Seq<Primitive>, r: Ray, t_min: int, t_max: int)
    ensures
        scan_spec(s1 + s2, r, t_min, t_max) == match scan_spec(s1, r, t_min, t_max) {
            Option::None => scan_spec(s2, r, t_min, t_max),
            Option::Some(rec) => match scan_spec(s2, r, t_min, rec.t as int) {
                Option::None => Option::Some(rec),
                Option::Some(r2) => Option::Some(r2),
            },
        },
    decreases s2.len(),
{
    if s2.len() == 0 {
        assert(s1 + s2 =~= s1);
        match scan_spec(s1, r, t_min, t_max) {
            Option::None => {
            },
            Option::Some(rec) => {
            },
        }
    } else {
        let s2p = s2.drop_last();
        lemma_scan_concat(s1, s2p, r, t_min, t_max);
        assert((s1 + s2).drop_last() =~= s1 + s2p);
        assert((s1 + s2).last() == s2.last());
        match scan_spec(s1, r, t_min, t_max) {
            Option::None => {
            },
            Option::Some(rec1) => {
                lemma_scan_concat_some_case(s1, s2, r, t_min, t_max, rec1);
            },
        }
    }
}

/// The inductive step of `lemma_scan_concat` when the first part hit.
proof fn lemma_scan_concat_some_case(
    s1: Seq<Primitive>,
    s2: Seq<Primitive>,
    r: Ray,
    t_min: int,
    t_max: int,
    rec1: HitRecord,
)
    requires
        s2.len() > 0,
        scan_spec(s1, r, t_min, t_max) == Some(rec1),
        scan_spec(s1 + s2.drop_last(), r, t_min, t_max) == match scan_spec(
            s2.drop_last(),
            r,
            t_min,
            rec1.t as int,
        ) {
            Option::None => Option::Some(rec1),
            Option::Some(r2) => Option::Some(r2),
        },
        (s1 + s2).drop_last() =~= s1 + s2.drop_last(),
        (s1 + s2).last() == s2.last(),
    ensures
        scan_spec(s1 + s2, r, t_min, t_max) == match scan_spec(s2, r, t_min, rec1.t as int) {
            Option::None => Option::Some(rec1),
            Option::Some(r2) => Option::Some(r2),
        },
{
    let s2p = s2.drop_last();
    match scan_spec(s2p, r, t_min, rec1.t as int) {
        Option::None => {
            assert(scan_spec(s1 + s2p, r, t_min, t_max) == Some(rec1));
        },
        Option::Some(rec2) => {
            assert(scan_spec(s1 + s2p, r, t_min, t_max) == Some(rec2));
        },
    }
}

/// What holds of every reported primitive hit: the parameter lies in the
/// closed window, the reached point lies inside the primitive's padded
/// box, and the record is well-formed and carries the primitive's
/// material.
pub proof fn lemma_prim_hit_props(p: Primitive, r: Ray, t_min: int, t_max: int, rec: HitRecord)
    requires
        prim_wf(p),
        ray_wf(r),
        -T_LIMIT <= t_min <= t_max <= T_LIMIT,
        prim_hit_spec(p, r, t_min, t_max) == Some(rec),
    ensures
        t_min <= rec.t <= t_max,
        contains_point(prim_box_spec(p), at_spec(r, rec.t as int)),
        rec.p == at_spec(r, rec.t as int),
        rec.mat == prim_mat(p),
        rec_wf(rec),
{
    match p {
        Primitive::Sphere(s) => {
            crate::sphere::lemma_sphere_hit_props(s, r, t_min, t_max, rec);
        },
        Primitive::Triangle(t) => {
            crate::triangle::lemma_triangle_hit_props(t, r, t_min, t_max, rec);
        },
    }
}

} // verus!
