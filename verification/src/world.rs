//! The scene aggregate: primitives (queried through the BVH once it is
//! built), point lights, and the material table the primitives index.

use vstd::prelude::*;

verus! {

use crate::ray::{Ray, ray_wf, T_LIMIT};
use crate::hit::HitRecord;
use crate::primitive::{Primitive, prim_wf, prim_mat, prims_wf, scan_spec};
use crate::bvh::{BVHNode, node_wf, node_prims};
use crate::light::{Light, light_wf};
use crate::material::{Material, mat_wf};

pub struct World {
    pub primitives: Vec<Primitive>,
    pub lights: Vec<Light>,
    pub materials: Vec<Material>,
    /// Built once from a snapshot of the primitives; `hit` prefers it.
    pub bvh: Option<BVHNode>,
}

/// A well-formed world: every part well-formed, and the tree (when
/// built) holds exactly the primitive collection.
pub open spec fn world_wf(w: World) -> bool {
    &&& prims_wf(w.primitives@)
    &&& (forall|i: int| 0 <= i < w.lights@.len() ==> light_wf(#[trigger] w.lights@[i]))
    &&& (forall|i: int| 0 <= i < w.materials@.len() ==> mat_wf(#[trigger] w.materials@[i]))
    &&& match w.bvh {
        Some(n) => node_wf(n) && node_prims(n).to_multiset() == w.primitives@.to_multiset()
            && node_prims(n).len() == w.primitives@.len(),
        None => true,
    }
}

/// The sequence a hit query is resolved against: the tree's primitives
/// once it is built, the plain collection before.
pub open spec fn world_seq(w: World) -> Seq<Primitive> {
    match w.bvh {
        Some(n) => node_prims(n),
        None => w.primitives@,
    }
}

/// The closest hit the world reports for a ray and window.
pub open spec fn world_hit_spec(w: World, r: Ray, t_min: int, t_max: int) -> Option<HitRecord> {
    scan_spec(world_seq(w), r, t_min, t_max)
}

/// Brute-force closest hit: probe every primitive in order, shrinking
/// the window to the closest parameter found.
pub fn hit_scan(prims: &Vec<Primitive>, ray: &Ray, t_min: i64, t_max: i64) -> (res: Option<
    HitRecord,
>)
    requires
        prims_wf(prims@),
        ray_wf(*ray),
        -T_LIMIT <= t_min <= t_max <= T_LIMIT,
    ensures
        res == scan_spec(prims@, *ray, t_min as int, t_max as int),
{
    let mut acc: Option<HitRecord> = None;
    let mut i: usize = 0;
    while i < prims.len()
        invariant
            prims_wf(prims@),
            ray_wf(*ray),
            -T_LIMIT <= t_min <= t_max <= T_LIMIT,
            i <= prims@.len(),
            acc == scan_spec(prims@.take(i as int), *ray, t_min as int, t_max as int),
        decreases prims@.len() - i,
    {
        let closest: i64 = match &acc {
            Some(rec) => {
                proof {
                    assert(prims_wf(prims@.take(i as int))) by {
                        assert(forall|k: int| 0 <= k < i ==> prims@.take(i as int)[k]
                            == #[trigger] prims@[k]);
                    }
                    crate::primitive::lemma_scan_props(
                        prims@.take(i as int),
                        *ray,
                        t_min as int,
                        t_max as int,
                        acc.unwrap(),
                    );
                }
                rec.t
            },
            None => t_max,
        };
        let cur = prims[i].hit(ray, t_min, closest);
        match cur {
            Some(rec2) => {
                acc = Some(rec2);
            },
            None => {
            },
        }
        proof {
            assert(prims@.take(i as int + 1).drop_last() =~= prims@.take(i as int));
            assert(prims@.take(i as int + 1).last() == prims@[i as int]);
        }
        i += 1;
    }
    proof {
        assert(prims@.take(prims@.len() as int) =~= prims@);
    }
    acc
}

/// What holds of every world hit: the parameter lies in the window and
/// the record is well-formed.
pub proof fn lemma_world_hit_props(w: World, r: Ray, t_min: int, t_max: int, rec: HitRecord)
    requires
        world_wf(w),
        ray_wf(r),
        -T_LIMIT <= t_min <= t_max <= T_LIMIT,
        world_hit_spec(w, r, t_min, t_max) == Some(rec),
    ensures
        t_min <= rec.t <= t_max,
        crate::hit::rec_wf(rec),
{
    match w.bvh {
        Some(n) => {
            crate::bvh::lemma_node_prims_wf(n);
            crate::primitive::lemma_scan_props(node_prims(n), r, t_min, t_max, rec);
        },
        None => {
            crate::primitive::lemma_scan_props(w.primitives@, r, t_min, t_max, rec);
        },
    }
}

impl World {
    /// An empty world.
    pub fn new() -> (w: World)
        ensures
            w.primitives@.len() == 0,
            w.lights@.len() == 0,
            w.materials@.len() == 0,
            w.bvh is None,
            world_wf(w),
    {
        World { primitives: Vec::new(), lights: Vec::new(), materials: Vec::new(), bvh: None }
    }

    /// Add a primitive; the tree is stale afterwards and is dropped.
    pub fn add_hittable(&mut self, p: Primitive)
        requires
            prim_wf(p),
            world_wf(*old(self)),
        ensures
            world_wf(*final(self)),
            final(self).primitives@ == old(self).primitives@.push(p),
            final(self).lights@ == old(self).lights@,
            final(self).materials@ == old(self).materials@,
            final(self).bvh is None,
    {
        self.primitives.push(p);
        self.bvh = None;
        proof {
            assert(forall|i: int| 0 <= i < old(self).primitives@.len()
                ==> self.primitives@[i] == #[trigger] old(self).primitives@[i]);
        }
    }

    /// Add a light.
    pub fn add_light(&mut self, light: Light)
        requires
            light_wf(light),
            world_wf(*old(self)),
        ensures
            world_wf(*final(self)),
            final(self).lights@ == old(self).lights@.push(light),
            final(self).primitives@ == old(self).primitives@,
            final(self).materials@ == old(self).materials@,
            final(self).bvh == old(self).bvh,
    {
        self.lights.push(light);
        proof {
            assert(forall|i: int| 0 <= i < old(self).lights@.len()
                ==> self.lights@[i] == #[trigger] old(self).lights@[i]);
        }
    }

    /// Register a material and hand back its handle.
    pub fn add_material(&mut self, m: Material) -> (h: usize)
        requires
            mat_wf(m),
            world_wf(*old(self)),
        ensures
            world_wf(*final(self)),
            final(self).materials@ == old(self).materials@.push(m),
            h as int == old(self).materials@.len(),
            final(self).primitives@ == old(self).primitives@,
            final(self).lights@ == old(self).lights@,
            final(self).bvh == old(self).bvh,
    {
        let h = self.materials.len();
        self.materials.push(m);
        proof {
            assert(forall|i: int| 0 <= i < old(self).materials@.len()
                ==> self.materials@[i] == #[trigger] old(self).materials@[i]);
        }
        h
    }

    /// Build the acceleration tree over the current primitives.
    pub fn build_bvh(&mut self)
        requires
            world_wf(*old(self)),
            old(self).primitives@.len() >= 1,
        ensures
            world_wf(*final(self)),
            final(self).bvh is Some,
            final(self).primitives@ == old(self).primitives@,
            final(self).lights@ == old(self).lights@,
            final(self).materials@ == old(self).materials@,
    {
        let snapshot = self.primitives.clone();
        proof {
            assert(snapshot@ =~= self.primitives@);
        }
        let tree = BVHNode::build(snapshot);
        self.bvh = Some(tree);
    }

    /// The closest hit in the open-ended window, through the tree when
    /// it is built, by linear scan otherwise.
    pub fn hit(&self, ray: &Ray, t_min: i64, t_max: i64) -> (res: Option<HitRecord>)
        requires
            world_wf(*self),
            ray_wf(*ray),
            -T_LIMIT <= t_min <= t_max <= T_LIMIT,
        ensures
            res == world_hit_spec(*self, *ray, t_min as int, t_max as int),
    {
        match &self.bvh {
            Some(n) => n.hit(ray, t_min, t_max),
            None => hit_scan(&self.primitives, ray, t_min, t_max),
        }
    }
}

} // verus!
