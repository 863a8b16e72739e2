//! Geometry: the slab test's sign symmetry, barycentric vertex weights,
//! and the sphere quadratic's root selection.

use raytracer::aabb::AABB;
use raytracer::camera::Camera;
use raytracer::fixed::FP_ONE;
use raytracer::ray::{Ray, T_INFINITY};
use raytracer::sphere::Sphere;
use raytracer::triangle::{barycentric, Triangle};
use raytracer::mesh::{add_mesh, mesh_bounds};
use raytracer::vec3::{cross, Vec3};

fn v(x: i64, y: i64, z: i64) -> Vec3 {
    Vec3 { x: x * FP_ONE, y: y * FP_ONE, z: z * FP_ONE }
}

/// The slab test against an all-negative direction equals the test of
/// the origin-mirrored box (corners swapped and negated) against the
/// mirrored ray.
#[test]
fn aabb_hit_symmetric_under_mirror_for_negative_directions() {
    let boxes = [
        (v(-1, -1, -1), v(1, 1, 1)),
        (v(0, 2, -3), v(2, 4, 1)),
        (v(-5, -5, -5), v(-3, -2, -4)),
    ];
    let dirs = [v(-1, -1, -1), v(-2, -1, -3), v(-1, -4, -1)];
    let origins = [v(3, 3, 3), v(0, 5, 2), v(-2, 0, 0)];
    for (bmin, bmax) in boxes.iter() {
        for d in dirs.iter() {
            for o in origins.iter() {
                let b = AABB::new(*bmin, *bmax);
                let r = Ray::new(*o, *d);
                let mb = AABB::new(
                    Vec3 { x: -bmax.x, y: -bmax.y, z: -bmax.z },
                    Vec3 { x: -bmin.x, y: -bmin.y, z: -bmin.z },
                );
                let mr = Ray::new(
                    Vec3 { x: -o.x, y: -o.y, z: -o.z },
                    Vec3 { x: -d.x, y: -d.y, z: -d.z },
                );
                assert_eq!(
                    b.hit(&r, 0, 100 * FP_ONE),
                    mb.hit(&mr, 0, 100 * FP_ONE),
                    "mirrored slab test disagreed"
                );
            }
        }
    }
}

/// A box behind the ray is rejected, one ahead is hit.
#[test]
fn aabb_hit_basic() {
    let b = AABB::new(v(-1, -1, -3), v(1, 1, -2));
    let towards = Ray::new(v(0, 0, 0), v(0, 0, -1));
    let away = Ray::new(v(0, 0, 0), v(0, 0, 1));
    assert!(b.hit(&towards, 0, 100 * FP_ONE));
    assert!(!b.hit(&away, 1, 100 * FP_ONE));
}

/// Barycentric weights at the three vertices are exactly (1,0,0),
/// (0,1,0) and (0,0,1).
#[test]
fn barycentric_vertex_weights_are_exact() {
    let v0 = v(3, 0, 0);
    let v1 = v(0, 2, 0);
    let zero = Vec3 { x: 0, y: 0, z: 0 };
    assert_eq!(barycentric(v0, v1, zero), Some((FP_ONE, 0, 0)));
    assert_eq!(barycentric(v0, v1, v0), Some((0, FP_ONE, 0)));
    assert_eq!(barycentric(v0, v1, v1), Some((0, 0, FP_ONE)));

    // A skewed triangle behaves the same.
    let w0 = Vec3 { x: FP_ONE, y: FP_ONE / 2, z: 0 };
    let w1 = Vec3 { x: -FP_ONE / 4, y: 2 * FP_ONE, z: FP_ONE };
    assert_eq!(barycentric(w0, w1, zero), Some((FP_ONE, 0, 0)));
    assert_eq!(barycentric(w0, w1, w0), Some((0, FP_ONE, 0)));
    assert_eq!(barycentric(w0, w1, w1), Some((0, 0, FP_ONE)));
}

/// A ray from (0,0,2) along -z through a unit sphere at the origin hits
/// at t = 1; with the near root excluded the far root t = 3 is reported.
#[test]
fn sphere_reports_near_root_first() {
    let s = Sphere::new(Vec3 { x: 0, y: 0, z: 0 }, FP_ONE, 0);
    let r = Ray::new(v(0, 0, 2), v(0, 0, -1));
    let near = s.hit(&r, 64, T_INFINITY).expect("sphere should be hit");
    assert_eq!(near.t, FP_ONE);
    let far = s.hit(&r, 2 * FP_ONE, T_INFINITY).expect("far root should be hit");
    assert_eq!(far.t, 3 * FP_ONE);
    assert!(near.front_face);
    assert!(!far.front_face);
}

/// A ray that misses the sphere reports nothing.
#[test]
fn sphere_miss_is_none() {
    let s = Sphere::new(Vec3 { x: 0, y: 0, z: 0 }, FP_ONE, 0);
    let r = Ray::new(v(0, 3, 2), v(0, 0, -1));
    assert!(s.hit(&r, 64, T_INFINITY).is_none());
}

/// A grazing ray (denominator below the epsilon) is rejected by the
/// triangle.
#[test]
fn triangle_rejects_grazing_rays() {
    let t = Triangle::new_untextured(v(-1, 0, -1), v(1, 0, -1), v(0, 0, 1), 0);
    // Direction parallel to the triangle's plane.
    let r = Ray::new(v(0, 1, 5), v(0, 0, -1));
    assert!(t.hit(&r, 64, T_INFINITY).is_none());
}

/// A ray down onto a ground triangle hits it and interpolates texture
/// coordinates inside the unit square.
#[test]
fn triangle_hit_from_above() {
    let t = Triangle::new(
        v(-2, 0, -2),
        v(2, 0, -2),
        v(0, 0, 2),
        (0, 0),
        (FP_ONE, 0),
        (0, FP_ONE),
        7,
    );
    let r = Ray::new(v(0, 2, 0), v(0, -1, 0));
    let rec = t.hit(&r, 64, T_INFINITY).expect("triangle should be hit");
    assert_eq!(rec.t, 2 * FP_ONE);
    assert_eq!(rec.mat, 7);
    assert!(rec.u >= 0 && rec.u <= FP_ONE);
    assert!(rec.v >= 0 && rec.v <= FP_ONE);
}

/// Mesh assembly turns index triples into exactly that many triangles
/// and reports the vertex bounds.
#[test]
fn mesh_assembly_and_bounds() {
    let positions = vec![v(0, 0, 0), v(2, 0, 0), v(0, 2, 0), v(0, 0, 3)];
    let uvs: Vec<(i64, i64)> = vec![(0, 0), (FP_ONE, 0), (0, FP_ONE), (FP_ONE, FP_ONE)];
    let indices: Vec<usize> = vec![0, 1, 2, 1, 2, 3];

    let (min, max) = mesh_bounds(&positions);
    assert_eq!(min, v(0, 0, 0));
    assert_eq!(max, Vec3 { x: 2 * FP_ONE, y: 2 * FP_ONE, z: 3 * FP_ONE });

    let mut world = raytracer::world::World::new();
    let mat = {
        let m = raytracer::material::Material::Lambertian { albedo: Vec3 { x: 0, y: 0, z: 0 } };
        world.add_material(m)
    };
    add_mesh(&mut world, &positions, &uvs, &indices, mat);
    assert_eq!(world.primitives.len(), 2);
}

/// Swapping the cross product's factors negates every component exactly,
/// and a vector crossed with itself vanishes — even for sub-unit
/// coordinates, where floor rounding would have broken the law.
#[test]
fn cross_product_antisymmetric() {
    let pairs = [
        (Vec3 { x: 0, y: 1, z: 0 }, Vec3 { x: 0, y: 0, z: 1 }),
        (v(1, 2, 3), v(-4, 5, 6)),
        (Vec3 { x: 12345, y: -777, z: 3 }, Vec3 { x: -1, y: 65535, z: 9999 }),
    ];
    for (u, w) in pairs.iter() {
        let a = cross(*u, *w);
        let b = cross(*w, *u);
        assert_eq!(a, Vec3 { x: -b.x, y: -b.y, z: -b.z });
        assert_eq!(cross(*u, *u), Vec3 { x: 0, y: 0, z: 0 });
    }
}

/// The camera constructors are pinned to their arguments: the eye sits
/// at the requested position, and a degenerate view direction falls back
/// to the axis-aligned camera.
#[test]
fn camera_constructors_are_pinned() {
    let c = Camera::new(FP_ONE);
    assert_eq!(c.origin, Vec3 { x: 0, y: 0, z: 0 });
    assert_eq!(c.horizontal, Vec3 { x: 2 * FP_ONE, y: 0, z: 0 });
    assert_eq!(c.vertical, Vec3 { x: 0, y: 2 * FP_ONE, z: 0 });
    assert_eq!(c.lower_left_corner, Vec3 { x: -FP_ONE, y: -FP_ONE, z: -FP_ONE });

    let up = Vec3 { x: 0, y: FP_ONE, z: 0 };
    let p = Camera::perspective(v(0, 0, 3), v(0, 0, 0), up, FP_ONE, FP_ONE);
    assert_eq!(p.origin, v(0, 0, 3));

    let f = Camera::perspective(v(0, 0, 3), v(0, 0, 3), up, FP_ONE, FP_ONE);
    assert_eq!(f.origin, Vec3 { x: 0, y: 0, z: 0 });
}

/// A ray that only grazes a box corner exactly at the window edge is
/// rejected: the public slab test is the exact corner-to-corner form.
#[test]
fn aabb_hit_rejects_corner_graze()  {
    let b = AABB::new(v(0, 0, 0), v(2, 2, 2));
    let r = Ray::new(Vec3 { x: FP_ONE, y: FP_ONE, z: -FP_ONE }, v(1, 1, 1));
    assert!(!b.hit(&r, 0, 10 * FP_ONE));
    // Swapping the corner roles changes nothing.
    let swapped = AABB::new(v(2, 2, 2), v(0, 0, 0));
    assert_eq!(b.hit(&r, 0, 10 * FP_ONE), swapped.hit(&r, 0, 10 * FP_ONE));
    // A ray through the box interior still hits.
    let through = Ray::new(v(1, 1, -1), v(0, 0, 1));
    assert!(b.hit(&through, 0, 10 * FP_ONE));
}
