//! The bounding-volume hierarchy: a binary tree over primitives whose
//! traversal provably reports exactly the hit a linear scan over its
//! primitives would report (`BVHNode::hit`'s contract) — the slab test
//! only ever prunes subtrees that cannot contain a hit.

use vstd::prelude::*;

verus! {

use crate::vec3::Point3;
use crate::ray::{Ray, ray_wf, at_spec, T_LIMIT};
use crate::aabb::{
    AABB, aabb_wf, aabb_hit_spec, surrounding_box_spec, contains_point, contains_box,
    lemma_hit_contains,
};
use crate::hit::HitRecord;
use vstd::multiset::Multiset;
use crate::primitive::{
    Primitive, prim_wf, prim_box_spec, prim_hit_spec, prims_wf, scan_spec,
    lemma_prim_hit_props, lemma_scan_props, lemma_scan_none, lemma_scan_concat,
};

pub enum BVHNode {
    Leaf { bounding_box: AABB, object: Primitive },
    Internal { bounding_box: AABB, left: Box<BVHNode>, right: Box<BVHNode> },
}

/// The box stored at the root of a node.
pub open spec fn node_box(n: BVHNode) -> AABB {
    match n {
        BVHNode::Leaf { bounding_box, .. } => bounding_box,
        BVHNode::Internal { bounding_box, .. } => bounding_box,
    }
}

/// The primitives under a node, in tree order.
pub open spec fn node_prims(n: BVHNode) -> Seq<Primitive>
    decreases n,
{
    match n {
        BVHNode::Leaf { object, .. } => seq![object],
        BVHNode::Internal { left, right, .. } => node_prims(*left) + node_prims(*right),
    }
}

/// Tree well-formedness: a leaf stores exactly its primitive's box, an
/// internal node stores exactly the union of its children's boxes — so
/// every node's box contains everything beneath it — and every
/// primitive is well-formed.
pub open spec fn node_wf(n: BVHNode) -> bool
    decreases n,
{
    match n {
        BVHNode::Leaf { bounding_box, object } => {
            &&& aabb_wf(bounding_box)
            &&& prim_wf(object)
            &&& bounding_box == prim_box_spec(object)
            &&& contains_box(bounding_box, prim_box_spec(object))
        },
        BVHNode::Internal { bounding_box, left, right } => {
            &&& aabb_wf(bounding_box)
            &&& node_wf(*left)
            &&& node_wf(*right)
            &&& bounding_box == surrounding_box_spec(node_box(*left), node_box(*right))
            &&& contains_box(bounding_box, node_box(*left))
            &&& contains_box(bounding_box, node_box(*right))
        },
    }
}

/// Every primitive under a well-formed node is well-formed and sits, box
/// and all, inside the node's box.
pub proof fn lemma_node_prims_contained(n: BVHNode, i: int)
    requires
        node_wf(n),
        0 <= i < node_prims(n).len(),
    ensures
        prim_wf(node_prims(n)[i]),
        contains_box(node_box(n), prim_box_spec(node_prims(n)[i])),
    decreases n,
{
    match n {
        BVHNode::Leaf { bounding_box, object } => {
        },
        BVHNode::Internal { bounding_box, left, right } => {
            let ls = node_prims(*left);
            let rs = node_prims(*right);
            if i < ls.len() {
                lemma_node_prims_contained(*left, i);
                assert(node_prims(n)[i] == ls[i]);
            } else {
                lemma_node_prims_contained(*right, i - ls.len());
                assert(node_prims(n)[i] == rs[i - ls.len()]);
            }
        },
    }
}

/// The primitives of a well-formed node form a well-formed sequence.
pub proof fn lemma_node_prims_wf(n: BVHNode)
    requires
        node_wf(n),
    ensures
        prims_wf(node_prims(n)),
{
    assert forall|i: int| 0 <= i < node_prims(n).len() implies prim_wf(
        #[trigger] node_prims(n)[i],
    ) by {
        lemma_node_prims_contained(n, i);
    }
}

/// When the ray misses a node's box over a window, nothing beneath the
/// node can be hit in that window, so the scan reports nothing.
proof fn lemma_box_miss_scan_none(n: BVHNode, r: Ray, t_min: int, t_max: int)
    requires
        node_wf(n),
        ray_wf(r),
        -T_LIMIT <= t_min <= t_max <= T_LIMIT,
        !aabb_hit_spec(node_box(n), r, t_min, t_max),
    ensures
        scan_spec(node_prims(n), r, t_min, t_max) == Option::<HitRecord>::None,
{
    let s = node_prims(n);
    assert forall|i: int| 0 <= i < s.len() implies #[trigger] prim_hit_spec(s[i], r, t_min, t_max)
        == Option::<HitRecord>::None by {
        lemma_node_prims_contained(n, i);
        match prim_hit_spec(s[i], r, t_min, t_max) {
            Option::None => {
            },
            Option::Some(rec) => {
                lemma_prim_hit_props(s[i], r, t_min, t_max, rec);
                assert(contains_point(node_box(n), at_spec(r, rec.t as int)));
                lemma_hit_contains(node_box(n), r, t_min, t_max, rec.t as int);
                assert(false);
            },
        }
    }
    lemma_scan_none(s, r, t_min, t_max);
}

/// The key the builder sorts by: the box's minimum corner along an axis.
pub open spec fn axis_key_spec(p: Primitive, axis: int) -> int {
    let b = prim_box_spec(p);
    if axis == 0 {
        b.min.x as int
    } else if axis == 1 {
        b.min.y as int
    } else {
        b.min.z as int
    }
}

/// The sequence is ordered by the chosen axis key.
pub open spec fn sorted_by_axis(s: Seq<Primitive>, axis: int) -> bool {
    forall|i: int, j: int| 0 <= i < j < s.len() ==> axis_key_spec(#[trigger] s[i], axis)
        <= axis_key_spec(#[trigger] s[j], axis)
}

/// The box's minimum corner along the chosen axis.
fn axis_key(p: &Primitive, axis: usize) -> (k: i64)
    requires
        prim_wf(*p),
        axis < 3,
    ensures
        k == axis_key_spec(*p, axis as int),
{
    let b = p.bounding_box();
    b.min.get(axis)
}

/// Insertion sort by the axis key: same primitives, ordered.
fn sort_by_axis(objects: &Vec<Primitive>, axis: usize) -> (r: Vec<Primitive>)
    requires
        prims_wf(objects@),
        axis < 3,
    ensures
        r@.to_multiset() == objects@.to_multiset(),
        sorted_by_axis(r@, axis as int),
        prims_wf(r@),
        r@.len() == objects@.len(),
{
    broadcast use vstd::seq_lib::group_to_multiset_ensures;
    broadcast use vstd::multiset::group_multiset_axioms;

    let mut r: Vec<Primitive> = Vec::new();
    let mut i: usize = 0;
    while i < objects.len()
        invariant
            prims_wf(objects@),
            axis < 3,
            i <= objects.len(),
            r@.to_multiset() == objects@.take(i as int).to_multiset(),
            sorted_by_axis(r@, axis as int),
            prims_wf(r@),
            r@.len() == i,
        decreases objects.len() - i,
    {
        broadcast use vstd::seq_lib::group_to_multiset_ensures;
        broadcast use vstd::multiset::group_multiset_axioms;

        let x: Primitive = objects[i];
        let kx: i64 = axis_key(&x, axis);
        let mut j: usize = 0;
        while j < r.len() && axis_key(&r[j], axis) <= kx
            invariant
                prims_wf(r@),
                axis < 3,
                prim_wf(x),
                kx == axis_key_spec(x, axis as int),
                j <= r@.len(),
                forall|k: int| 0 <= k < j ==> axis_key_spec(#[trigger] r@[k], axis as int)
                    <= kx as int,
            decreases r.len() - j,
        {
            j += 1;
        }
        let ghost old_r = r@;
        r.insert(j, x);
        proof {
            assert(r@ =~= old_r.take(j as int) + seq![x] + old_r.skip(j as int));
            lemma_insert_multiset(old_r, j as int, x);
            assert(objects@.take(i as int + 1) =~= objects@.take(i as int).push(objects@[i as int]));
            assert(r@.to_multiset() =~= objects@.take(i as int + 1).to_multiset());
            assert(sorted_by_axis(r@, axis as int)) by {
                lemma_insert_sorted(old_r, j as int, x, axis as int);
            }
            assert(prims_wf(r@)) by {
                assert(forall|k: int| 0 <= k < r@.len() ==> r@[k] == old_r.insert(j as int, x)[k]);
            }
        }
        i += 1;
    }
    proof {
        assert(objects@.take(objects@.len() as int) =~= objects@);
    }
    r
}

/// Inserting an element adds exactly it to the sequence's multiset.
proof fn lemma_insert_multiset(s: Seq<Primitive>, j: int, x: Primitive)
    requires
        0 <= j <= s.len(),
    ensures
        s.insert(j, x).to_multiset() =~= s.to_multiset().insert(x),
{
    broadcast use vstd::seq_lib::group_to_multiset_ensures;
    broadcast use vstd::multiset::group_multiset_axioms;

    assert(s.insert(j, x) =~= s.take(j) + seq![x] + s.skip(j));
    vstd::seq_lib::lemma_multiset_commutative(s.take(j) + seq![x], s.skip(j));
    vstd::seq_lib::lemma_multiset_commutative(s.take(j), seq![x]);
    assert(seq![x].to_multiset() =~= Multiset::<Primitive>::empty().insert(x));
    assert(s.take(j) + s.skip(j) =~= s);
    vstd::seq_lib::lemma_multiset_commutative(s.take(j), s.skip(j));
}

/// Inserting at the boundary the search loop found keeps the order.
proof fn lemma_insert_sorted(s: Seq<Primitive>, j: int, x: Primitive, axis: int)
    requires
        0 <= j <= s.len(),
        sorted_by_axis(s, axis),
        forall|k: int| 0 <= k < j ==> axis_key_spec(#[trigger] s[k], axis) <= axis_key_spec(
            x,
            axis,
        ),
        j < s.len() ==> axis_key_spec(s[j], axis) > axis_key_spec(x, axis),
    ensures
        sorted_by_axis(s.insert(j, x), axis),
{
    let t = s.insert(j, x);
    assert forall|a: int, b: int| 0 <= a < b < t.len() implies axis_key_spec(
        #[trigger] t[a],
        axis,
    ) <= axis_key_spec(#[trigger] t[b], axis) by {
        if a < j {
            assert(t[a] == s[a]);
        } else if a == j {
            assert(t[a] == x);
        } else {
            assert(t[a] == s[a - 1]);
        }
        if b < j {
            assert(t[b] == s[b]);
        } else if b == j {
            assert(t[b] == x);
        } else {
            assert(t[b] == s[b - 1]);
        }
    }
}

/// A well-formed node stores a well-formed box.
pub proof fn lemma_node_box_wf(n: BVHNode)
    requires
        node_wf(n),
    ensures
        aabb_wf(node_box(n)),
{
    match n {
        BVHNode::Leaf { .. } => {
        },
        BVHNode::Internal { .. } => {
        },
    }
}

/// A scan over one primitive is that primitive's own test.
proof fn lemma_scan_singleton(p: Primitive, r: Ray, t_min: int, t_max: int)
    ensures
        scan_spec(seq![p], r, t_min, t_max) == prim_hit_spec(p, r, t_min, t_max),
{
    let s = seq![p];
    assert(s.drop_last() =~= Seq::<Primitive>::empty());
    assert(scan_spec(s.drop_last(), r, t_min, t_max) == Option::<HitRecord>::None);
    assert(s.last() == p);
}

impl BVHNode {
    /// The box stored at this node.
    pub fn bounding_box(&self) -> (b: AABB)
        ensures
            b == node_box(*self),
    {
        match self {
            BVHNode::Leaf { bounding_box, .. } => *bounding_box,
            BVHNode::Internal { bounding_box, .. } => *bounding_box,
        }
    }

    /// Build the tree over a non-empty primitive list: sort by a random
    /// axis, split at the middle index, recurse on both halves.  The tree
    /// holds exactly the given primitives and every node's box contains
    /// everything beneath it.
    pub fn build(objects: Vec<Primitive>) -> (r: BVHNode)
        requires
            objects@.len() >= 1,
            prims_wf(objects@),
        ensures
            node_wf(r),
            node_prims(r).to_multiset() == objects@.to_multiset(),
            node_prims(r).len() == objects@.len(),
        decreases objects@.len(),
    {
        broadcast use vstd::seq_lib::group_to_multiset_ensures;
        broadcast use vstd::multiset::group_multiset_axioms;

        let axis: usize = crate::rng::random_axis();
        let sorted: Vec<Primitive> = sort_by_axis(&objects, axis);
        if sorted.len() == 1 {
            let obj: Primitive = sorted[0];
            let bb: AABB = obj.bounding_box();
            let node = BVHNode::Leaf { bounding_box: bb, object: obj };
            proof {
                assert(node_prims(node) == seq![obj]);
                assert(sorted@ =~= seq![obj]);
            }
            node
        } else {
            let mid: usize = sorted.len() / 2;
            let mut leftv: Vec<Primitive> = Vec::new();
            let mut k: usize = 0;
            while k < mid
                invariant
                    k <= mid <= sorted@.len(),
                    leftv@ =~= sorted@.take(k as int),
                decreases mid - k,
            {
                leftv.push(sorted[k]);
                proof {
                    assert(leftv@ =~= sorted@.take(k as int).push(sorted@[k as int]));
                    assert(sorted@.take(k as int + 1) =~= sorted@.take(k as int).push(
                        sorted@[k as int],
                    ));
                }
                k += 1;
            }
            let mut rightv: Vec<Primitive> = Vec::new();
            let mut k2: usize = mid;
            while k2 < sorted.len()
                invariant
                    mid <= k2 <= sorted@.len(),
                    rightv@ =~= sorted@.subrange(mid as int, k2 as int),
                decreases sorted@.len() - k2,
            {
                rightv.push(sorted[k2]);
                proof {
                    assert(sorted@.subrange(mid as int, k2 as int + 1) =~= sorted@.subrange(
                        mid as int,
                        k2 as int,
                    ).push(sorted@[k2 as int]));
                }
                k2 += 1;
            }
            proof {
                assert(leftv@ =~= sorted@.take(mid as int));
                assert(rightv@ =~= sorted@.skip(mid as int));
                assert(prims_wf(leftv@)) by {
                    assert(forall|q: int| 0 <= q < leftv@.len() ==> leftv@[q]
                        == #[trigger] sorted@[q]);
                }
                assert(prims_wf(rightv@)) by {
                    assert(forall|q: int| 0 <= q < rightv@.len() ==> rightv@[q]
                        == #[trigger] sorted@[q + mid]);
                }
            }
            let left: BVHNode = BVHNode::build(leftv);
            let right: BVHNode = BVHNode::build(rightv);
            let lb: AABB = left.bounding_box();
            let rb: AABB = right.bounding_box();
            proof {
                lemma_node_box_wf(left);
                lemma_node_box_wf(right);
            }
            let bb: AABB = AABB::surrounding_box(&lb, &rb);
            let node = BVHNode::Internal {
                bounding_box: bb,
                left: Box::new(left),
                right: Box::new(right),
            };
            proof {
                vstd::seq_lib::lemma_multiset_commutative(node_prims(left), node_prims(right));
                vstd::seq_lib::lemma_multiset_commutative(
                    sorted@.take(mid as int),
                    sorted@.skip(mid as int),
                );
                assert(sorted@.take(mid as int) + sorted@.skip(mid as int) =~= sorted@);
                assert(node_prims(node) == node_prims(left) + node_prims(right));
            }
            node
        }
    }

    /// Traverse the tree for the closest hit.  The contract is the heart
    /// of the structure: the result is exactly what a linear scan over
    /// the node's primitives would report for the same window.
    #[verifier::rlimit(60)]
    pub fn hit(&self, ray: &Ray, t_min: i64, t_max: i64) -> (res: Option<HitRecord>)
        requires
            node_wf(*self),
            ray_wf(*ray),
            -T_LIMIT <= t_min <= t_max <= T_LIMIT,
        ensures
            res == scan_spec(node_prims(*self), *ray, t_min as int, t_max as int),
        decreases *self,
    {
        let bbox = self.bounding_box();
        if !bbox.prune_hit(ray, t_min, t_max) {
            proof {
                lemma_box_miss_scan_none(*self, *ray, t_min as int, t_max as int);
            }
            return None;
        }
        match self {
            BVHNode::Leaf { object, .. } => {
                let res = object.hit(ray, t_min, t_max);
                proof {
                    lemma_scan_singleton(*object, *ray, t_min as int, t_max as int);
                    assert(node_prims(*self) == seq![*object]);
                }
                res
            },
            BVHNode::Internal { left, right, .. } => {
                proof {
                    lemma_node_prims_wf(*self);
                    assert(prims_wf(node_prims(**left))) by {
                        lemma_node_prims_wf(**left);
                    }
                }
                let lres = left.hit(ray, t_min, t_max);
                let res = match lres {
                    None => right.hit(ray, t_min, t_max),
                    Some(rec) => {
                        proof {
                            lemma_scan_props(
                                node_prims(**left),
                                *ray,
                                t_min as int,
                                t_max as int,
                                rec,
                            );
                        }
                        match right.hit(ray, t_min, rec.t) {
                            None => Some(rec),
                            Some(r2) => Some(r2),
                        }
                    },
                };
                proof {
                    lemma_scan_concat(
                        node_prims(**left),
                        node_prims(**right),
                        *ray,
                        t_min as int,
                        t_max as int,
                    );
                }
                res
            },
        }
    }
}

} // verus!
