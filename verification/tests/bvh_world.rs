//! The acceleration structure: traversal must agree with the brute-force
//! scan, whatever split axes the builder drew.

use raytracer::bvh::BVHNode;
use raytracer::fixed::FP_ONE;
use raytracer::primitive::Primitive;
use raytracer::ray::{Ray, T_EPSILON, T_INFINITY};
use raytracer::sphere::Sphere;
use raytracer::triangle::Triangle;
use raytracer::vec3::Vec3;
use raytracer::world::{hit_scan, World};

fn v(x: i64, y: i64, z: i64) -> Vec3 {
    Vec3 { x: x * FP_ONE, y: y * FP_ONE, z: z * FP_ONE }
}

fn test_prims() -> Vec<Primitive> {
    vec![
        Primitive::Sphere(Sphere::new(v(0, 0, -3), FP_ONE, 0)),
        Primitive::Sphere(Sphere::new(v(2, 0, -5), FP_ONE / 2, 1)),
        Primitive::Sphere(Sphere::new(v(-2, 1, -4), FP_ONE, 2)),
        Primitive::Triangle(Triangle::new_untextured(v(-4, -1, -6), v(4, -1, -6), v(0, -1, 2), 3)),
        Primitive::Sphere(Sphere::new(v(0, 0, -8), 2 * FP_ONE, 4)),
        Primitive::Triangle(Triangle::new_untextured(v(-1, 2, -5), v(1, 2, -5), v(0, 4, -5), 5)),
        Primitive::Sphere(Sphere::new(v(1, -1, -2), FP_ONE / 2, 6)),
    ]
}

fn test_rays() -> Vec<Ray> {
    vec![
        Ray::new(v(0, 0, 0), v(0, 0, -1)),
        Ray::new(v(0, 0, 0), Vec3 { x: FP_ONE / 4, y: 0, z: -FP_ONE }),
        Ray::new(v(0, 5, 0), v(0, -1, 0)),
        Ray::new(v(-3, 0, 0), Vec3 { x: FP_ONE, y: 0, z: -FP_ONE }),
        Ray::new(v(0, 0, -10), v(0, 0, 1)),
        Ray::new(v(5, 5, 5), v(1, 1, 1)),
    ]
}

/// Traversal reports the same closest hit (same parameter, same
/// material identity) as the brute-force scan, on every ray tried —
/// the builder's random split axes cannot change the result.
#[test]
fn bvh_matches_brute_force_scan() {
    for _round in 0..8 {
        let prims = test_prims();
        let tree = BVHNode::build(prims.clone());
        for ray in test_rays() {
            let from_tree = tree.hit(&ray, T_EPSILON, T_INFINITY);
            let from_scan = hit_scan(&prims, &ray, T_EPSILON, T_INFINITY);
            match (from_tree, from_scan) {
                (None, None) => {}
                (Some(a), Some(b)) => {
                    assert_eq!(a.t, b.t, "closest parameter differs");
                    assert_eq!(a.mat, b.mat, "closest primitive differs");
                    assert_eq!(a.p, b.p);
                    assert_eq!(a.normal, b.normal);
                }
                (a, b) => panic!("tree {:?} but scan {:?}", a.is_some(), b.is_some()),
            }
        }
    }
}

/// A single-primitive tree behaves like that primitive.
#[test]
fn bvh_single_leaf() {
    let prims = vec![Primitive::Sphere(Sphere::new(v(0, 0, -3), FP_ONE, 9))];
    let tree = BVHNode::build(prims.clone());
    let ray = Ray::new(v(0, 0, 0), v(0, 0, -1));
    let rec = tree.hit(&ray, T_EPSILON, T_INFINITY).expect("hit expected");
    assert_eq!(rec.t, 2 * FP_ONE);
    assert_eq!(rec.mat, 9);
    assert!(tree.hit(&Ray::new(v(0, 5, 0), v(0, 0, -1)), T_EPSILON, T_INFINITY).is_none());
}

/// The world answers through the tree once it is built, identically to
/// the scan it replaces.
#[test]
fn world_hit_with_and_without_tree() {
    let mut world = World::new();
    for p in test_prims() {
        world.add_hittable(p);
    }
    let ray = Ray::new(v(0, 0, 0), v(0, 0, -1));
    let before = world.hit(&ray, T_EPSILON, T_INFINITY).expect("scan hit");
    world.build_bvh();
    let after = world.hit(&ray, T_EPSILON, T_INFINITY).expect("tree hit");
    assert_eq!(before.t, after.t);
    assert_eq!(before.mat, after.mat);
}
