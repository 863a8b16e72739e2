//! Scene construction: the built-in scene and the shapes the scenes are
//! assembled from.

use vstd::prelude::*;

verus! {

use crate::fixed::{fdiv, fpm, fp_div, fp_clamp, FP_ONE, FP_HALF};
use crate::vec3::{Vec3, Point3, Color, vec_bounded, rot_x_spec, rot_y_spec, rot_z_spec};
use crate::sphere::Sphere;
use crate::triangle::{Triangle, tri_wf, tri_normal_spec, TRI_LIMIT};
use crate::primitive::Primitive;
use crate::light::Light;
use crate::material::Material;
use crate::world::{World, world_wf};
use crate::camera::Camera;

/// The scene with a glass sphere over a green ground triangle.
pub struct RequiredScene;

/// The scene with a ground sphere, a metal cube and a loaded model.
pub struct CustomScene;

/// The scene that places a loaded model over a huge ground sphere.
pub struct MuseumScene;

/// An untextured triangle, as a value.
pub open spec fn untextured_tri_spec(p0: Point3, p1: Point3, p2: Point3, mat: usize) -> Triangle {
    Triangle {
        p0,
        p1,
        p2,
        uv0: (0i64, 0i64),
        uv1: (0i64, 0i64),
        uv2: (0i64, 0i64),
        normal: tri_normal_spec(p0, p1, p2),
        mat,
    }
}

/// The exact position of a cube corner: rotate about x, y and z by the
/// given `(sin, cos)` pairs, then translate to the centre.
pub open spec fn corner_spec(
    x: i64,
    y: i64,
    z: i64,
    rot: ((i64, i64), (i64, i64), (i64, i64)),
    center: Point3,
) -> Point3 {
    let p1 = rot_x_spec(Vec3 { x, y, z }, rot.0.0 as int, rot.0.1 as int);
    let p2 = rot_y_spec(p1, rot.1.0 as int, rot.1.1 as int);
    let p3 = rot_z_spec(p2, rot.2.0 as int, rot.2.1 as int);
    Vec3 {
        x: (p3.x + center.x) as i64,
        y: (p3.y + center.y) as i64,
        z: (p3.z + center.z) as i64,
    }
}

/// The cube's twelve triangles, by value.
pub open spec fn cube_spec(
    center: Point3,
    size: i64,
    rot: ((i64, i64), (i64, i64), (i64, i64)),
    mat: usize,
) -> Seq<Triangle> {
    let hs = (size / 2) as i64;
    let p000 = corner_spec((-hs) as i64, (-hs) as i64, (-hs) as i64, rot, center);
    let p001 = corner_spec((-hs) as i64, (-hs) as i64, hs, rot, center);
    let p010 = corner_spec((-hs) as i64, hs, (-hs) as i64, rot, center);
    let p011 = corner_spec((-hs) as i64, hs, hs, rot, center);
    let p100 = corner_spec(hs, (-hs) as i64, (-hs) as i64, rot, center);
    let p101 = corner_spec(hs, (-hs) as i64, hs, rot, center);
    let p110 = corner_spec(hs, hs, (-hs) as i64, rot, center);
    let p111 = corner_spec(hs, hs, hs, rot, center);
    seq![
        untextured_tri_spec(p001, p101, p111, mat),
        untextured_tri_spec(p001, p111, p011, mat),
        untextured_tri_spec(p100, p000, p010, mat),
        untextured_tri_spec(p100, p010, p110, mat),
        untextured_tri_spec(p000, p001, p011, mat),
        untextured_tri_spec(p000, p011, p010, mat),
        untextured_tri_spec(p101, p100, p110, mat),
        untextured_tri_spec(p101, p110, p111, mat),
        untextured_tri_spec(p010, p011, p111, mat),
        untextured_tri_spec(p010, p111, p110, mat),
        untextured_tri_spec(p000, p100, p101, mat),
        untextured_tri_spec(p000, p101, p001, mat),
    ]
}

/// A room corner offset by the room's centre, as a value.
pub open spec fn room_pt_spec(x: i64, y: i64, z: i64, vec: Vec3) -> Point3 {
    Vec3 { x: (x + vec.x) as i64, y: (y + vec.y) as i64, z: (z + vec.z) as i64 }
}

/// The six wall triangles of the room, by value: left wall, back wall,
/// floor, each as a split quad.
pub open spec fn room_box_spec(a: i64, vec: Vec3, floor: usize, back: usize, left: usize)
    -> Seq<Triangle> {
    let na = (-a) as i64;
    seq![
        untextured_tri_spec(
            room_pt_spec(na, na, na, vec),
            room_pt_spec(na, na, a, vec),
            room_pt_spec(na, a, a, vec),
            left,
        ),
        untextured_tri_spec(
            room_pt_spec(na, na, na, vec),
            room_pt_spec(na, a, a, vec),
            room_pt_spec(na, a, na, vec),
            left,
        ),
        untextured_tri_spec(
            room_pt_spec(na, na, na, vec),
            room_pt_spec(a, na, na, vec),
            room_pt_spec(a, a, na, vec),
            back,
        ),
        untextured_tri_spec(
            room_pt_spec(na, na, na, vec),
            room_pt_spec(a, a, na, vec),
            room_pt_spec(na, a, na, vec),
            back,
        ),
        untextured_tri_spec(
            room_pt_spec(na, na, na, vec),
            room_pt_spec(a, na, na, vec),
            room_pt_spec(a, na, a, vec),
            floor,
        ),
        untextured_tri_spec(
            room_pt_spec(na, na, na, vec),
            room_pt_spec(a, na, a, vec),
            room_pt_spec(na, na, a, vec),
            floor,
        ),
    ]
}

/// The material handles of a walled room.
pub struct RoomMaterials {
    pub floor: usize,
    pub ceiling: usize,
    pub back: usize,
    pub front: usize,
    pub left: usize,
    pub right: usize,
}

impl RequiredScene {
    /// Populate the world: a glass sphere resting over a green ground
    /// triangle, lit by one point light, framed by a ring camera at the
    /// angle given as `(sin_a, cos_a)`.
    pub fn setup(
        &self,
        world: &mut World,
        sin_a: i64,
        cos_a: i64,
        width: usize,
        height: usize,
    ) -> (camera: Camera)
        requires
            world_wf(*old(world)),
            -FP_ONE <= sin_a <= FP_ONE,
            -FP_ONE <= cos_a <= FP_ONE,
            2 <= width <= 4096,
            2 <= height <= 4096,
        ensures
            world_wf(*final(world)),
            final(world).materials@ == old(world).materials@ + seq![
                Material::Glass {
                    albedo: Color { x: 52429i64, y: 58982i64, z: 65536i64 },
                    refractive_index: 98304i64,
                },
                Material::Lambertian { albedo: Color { x: 58982i64, y: 6554i64, z: 6554i64 } },
                Material::Lambertian { albedo: Color { x: 6554i64, y: 58982i64, z: 6554i64 } },
                Material::Lambertian { albedo: Color { x: 6554i64, y: 6554i64, z: 58982i64 } },
                Material::Lambertian { albedo: Color { x: 65536i64, y: 65536i64, z: 13107i64 } },
            ],
            final(world).primitives@ == old(world).primitives@.push(
                Primitive::Sphere(
                    Sphere {
                        center: Vec3 { x: 0i64, y: 131072i64, z: 0i64 },
                        radius: 98304,
                        mat: old(world).materials@.len() as usize,
                    },
                ),
            ).push(
                Primitive::Triangle(
                    untextured_tri_spec(
                        Vec3 { x: -327680i64, y: 0i64, z: -327680i64 },
                        Vec3 { x: 327680i64, y: 0i64, z: -327680i64 },
                        Vec3 { x: 0i64, y: 0i64, z: 327680i64 },
                        (old(world).materials@.len() + 2) as usize,
                    ),
                ),
            ),
            final(world).lights@ == old(world).lights@.push(
                Light {
                    p: Vec3 { x: 262144i64, y: 327680i64, z: 262144i64 },
                    intensity: Vec3 { x: 983040i64, y: 983040i64, z: 983040i64 },
                },
            ),
            camera == crate::camera::from_bounds_spec(
                Vec3 { x: -196608i64, y: -65536i64, z: -196608i64 },
                Vec3 { x: 196608i64, y: 327680i64, z: 196608i64 },
                aspect_ratio_spec(width as int, height as int),
                sin_a as int,
                cos_a as int,
            ),
            final(world).primitives@.len() == old(world).primitives@.len() + 2,
            final(world).lights@.len() == old(world).lights@.len() + 1,
            crate::camera::camera_wf(camera),
    {
        let glass = world.add_material(
            Material::Glass {
                albedo: Color { x: 52429, y: 58982, z: 65536 },
                refractive_index: 98304,
            },
        );
        let _red = world.add_material(
            Material::Lambertian { albedo: Color { x: 58982, y: 6554, z: 6554 } },
        );
        let green = world.add_material(
            Material::Lambertian { albedo: Color { x: 6554, y: 58982, z: 6554 } },
        );
        let _blue = world.add_material(
            Material::Lambertian { albedo: Color { x: 6554, y: 6554, z: 58982 } },
        );
        let _yellow = world.add_material(
            Material::Lambertian { albedo: Color { x: 65536, y: 65536, z: 13107 } },
        );

        let sphere_center = Point3 { x: 0, y: 2 * FP_ONE, z: 0 };
        world.add_hittable(
            Primitive::Sphere(Sphere::new(sphere_center, FP_ONE + FP_HALF, glass)),
        );

        let p0 = Point3 { x: -5 * FP_ONE, y: 0, z: -5 * FP_ONE };
        let p1 = Point3 { x: 5 * FP_ONE, y: 0, z: -5 * FP_ONE };
        let p2 = Point3 { x: 0, y: 0, z: 5 * FP_ONE };
        world.add_hittable(Primitive::Triangle(Triangle::new_untextured(p0, p1, p2, green)));

        let light_pos = Point3 { x: 4 * FP_ONE, y: 5 * FP_ONE, z: 4 * FP_ONE };
        let light_color = Color { x: 15 * FP_ONE, y: 15 * FP_ONE, z: 15 * FP_ONE };
        world.add_light(Light::new(light_pos, light_color));

        let min = Point3 {
            x: sphere_center.x - 3 * FP_ONE,
            y: sphere_center.y - 3 * FP_ONE,
            z: sphere_center.z - 3 * FP_ONE,
        };
        let max = Point3 {
            x: sphere_center.x + 3 * FP_ONE,
            y: sphere_center.y + 3 * FP_ONE,
            z: sphere_center.z + 3 * FP_ONE,
        };
        let aspect = aspect_ratio(width, height);
        Camera::from_bounds(min, max, aspect, sin_a, cos_a)
    }
}

/// The aspect ratio of an image, clamped into the camera's working
/// range, as a value.
pub open spec fn aspect_ratio_spec(width: int, height: int) -> int {
    let raw = fdiv(width * FP_ONE as int, height);
    let capped = if raw > 4 * FP_ONE as int {
        4 * FP_ONE as int
    } else {
        raw
    };
    if capped < FP_ONE as int / 4 {
        FP_ONE as int / 4
    } else if capped > 4 * FP_ONE as int {
        4 * FP_ONE as int
    } else {
        capped
    }
}

/// The aspect ratio of an image, clamped to the camera's working range.
pub fn aspect_ratio(width: usize, height: usize) -> (r: i64)
    requires
        2 <= width <= 4096,
        2 <= height <= 4096,
    ensures
        r == aspect_ratio_spec(width as int, height as int),
        FP_ONE / 4 <= r <= 4 * FP_ONE as int,
{
    proof {
        assert(0 <= width as int * 65536 <= 4096 * 65536) by (nonlinear_arith)
            requires
                width <= 4096,
        ;
        crate::fixed::lemma_fdiv_bounds(width as int * 65536, height as int, 268435456int);
    }
    let raw: u64 = (width as u64) * 65536 / (height as u64);
    let r: i64 = if raw > 4 * 65536 {
        4 * FP_ONE
    } else {
        raw as i64
    };
    fp_clamp(r, FP_ONE / 4, 4 * FP_ONE)
}

/// The twelve triangles of an axis-aligned cube of the given size,
/// rotated about each axis by angles given as `(sin, cos)` pairs and
/// moved to `center`.
#[verifier::rlimit(80)]
pub fn cube(
    center: Point3,
    size: i64,
    rot: ((i64, i64), (i64, i64), (i64, i64)),
    mat: usize,
) -> (tris: Vec<Triangle>)
    requires
        vec_bounded(center, 0xC_0000),
        0 < size <= 4 * FP_ONE as int,
        -FP_ONE <= rot.0.0 <= FP_ONE && -FP_ONE <= rot.0.1 <= FP_ONE,
        -FP_ONE <= rot.1.0 <= FP_ONE && -FP_ONE <= rot.1.1 <= FP_ONE,
        -FP_ONE <= rot.2.0 <= FP_ONE && -FP_ONE <= rot.2.1 <= FP_ONE,
    ensures
        tris@ == cube_spec(center, size, rot, mat),
        tris@.len() == 12,
        forall|i: int| 0 <= i < tris@.len() ==> tri_wf(#[trigger] tris@[i]),
        forall|i: int| 0 <= i < tris@.len() ==> (#[trigger] tris@[i]).mat == mat,
{
    let hs: i64 = size / 2;
    let p000 = corner(-hs, -hs, -hs, rot, center);
    let p001 = corner(-hs, -hs, hs, rot, center);
    let p010 = corner(-hs, hs, -hs, rot, center);
    let p011 = corner(-hs, hs, hs, rot, center);
    let p100 = corner(hs, -hs, -hs, rot, center);
    let p101 = corner(hs, -hs, hs, rot, center);
    let p110 = corner(hs, hs, -hs, rot, center);
    let p111 = corner(hs, hs, hs, rot, center);

    let mut tris: Vec<Triangle> = Vec::new();
    push_tri(&mut tris, p001, p101, p111, mat);
    push_tri(&mut tris, p001, p111, p011, mat);
    push_tri(&mut tris, p100, p000, p010, mat);
    push_tri(&mut tris, p100, p010, p110, mat);
    push_tri(&mut tris, p000, p001, p011, mat);
    push_tri(&mut tris, p000, p011, p010, mat);
    push_tri(&mut tris, p101, p100, p110, mat);
    push_tri(&mut tris, p101, p110, p111, mat);
    push_tri(&mut tris, p010, p011, p111, mat);
    push_tri(&mut tris, p010, p111, p110, mat);
    push_tri(&mut tris, p000, p100, p101, mat);
    push_tri(&mut tris, p000, p101, p001, mat);
    proof {
        assert(tris@ =~= cube_spec(center, size, rot, mat));
    }
    tris
}

/// One rotated, translated cube corner.
fn corner(
    x: i64,
    y: i64,
    z: i64,
    rot: ((i64, i64), (i64, i64), (i64, i64)),
    center: Point3,
) -> (p: Point3)
    requires
        -2 * FP_ONE as int <= x <= 2 * FP_ONE as int,
        -2 * FP_ONE as int <= y <= 2 * FP_ONE as int,
        -2 * FP_ONE as int <= z <= 2 * FP_ONE as int,
        vec_bounded(center, 0xC_0000),
        -FP_ONE <= rot.0.0 <= FP_ONE && -FP_ONE <= rot.0.1 <= FP_ONE,
        -FP_ONE <= rot.1.0 <= FP_ONE && -FP_ONE <= rot.1.1 <= FP_ONE,
        -FP_ONE <= rot.2.0 <= FP_ONE && -FP_ONE <= rot.2.1 <= FP_ONE,
    ensures
        p == corner_spec(x, y, z, rot, center),
        vec_bounded(p, TRI_LIMIT as int),
{
    let p0 = Vec3 { x, y, z };
    proof {
        lemma_rot_step(p0, rot.0.0 as int, rot.0.1 as int, 2 * FP_ONE as int);
    }
    let p1 = p0.rotate_x(rot.0.0, rot.0.1);
    proof {
        lemma_rot_step(p1, rot.1.0 as int, rot.1.1 as int, 4 * FP_ONE as int);
    }
    let p2 = p1.rotate_y(rot.1.0, rot.1.1);
    proof {
        lemma_rot_step(p2, rot.2.0 as int, rot.2.1 as int, 8 * FP_ONE as int);
    }
    let p3 = p2.rotate_z(rot.2.0, rot.2.1);
    p3.plus(&center)
}

/// One planar rotation at most doubles a coordinate bound.
proof fn lemma_rot_step(a: Vec3, s: int, c: int, m: int)
    requires
        0 <= m <= 0x10_0000,
        vec_bounded(a, m),
        -FP_ONE <= s <= FP_ONE,
        -FP_ONE <= c <= FP_ONE,
    ensures
        -m <= crate::fixed::fpm(s, a.x as int) <= m,
        -m <= crate::fixed::fpm(s, a.y as int) <= m,
        -m <= crate::fixed::fpm(s, a.z as int) <= m,
        -m <= crate::fixed::fpm(-s, a.x as int) <= m,
        -m <= crate::fixed::fpm(c, a.x as int) <= m,
        -m <= crate::fixed::fpm(c, a.y as int) <= m,
        -m <= crate::fixed::fpm(c, a.z as int) <= m,
{
    assert(FP_ONE as int * m <= m * (FP_ONE as int)) by (nonlinear_arith);
    crate::fixed::lemma_fpm_abs(s, a.x as int, FP_ONE as int, m, m);
    crate::fixed::lemma_fpm_abs(s, a.y as int, FP_ONE as int, m, m);
    crate::fixed::lemma_fpm_abs(s, a.z as int, FP_ONE as int, m, m);
    crate::fixed::lemma_fpm_abs(-s, a.x as int, FP_ONE as int, m, m);
    crate::fixed::lemma_fpm_abs(c, a.x as int, FP_ONE as int, m, m);
    crate::fixed::lemma_fpm_abs(c, a.y as int, FP_ONE as int, m, m);
    crate::fixed::lemma_fpm_abs(c, a.z as int, FP_ONE as int, m, m);
}

/// Append one untextured triangle.
fn push_tri(tris: &mut Vec<Triangle>, p0: Point3, p1: Point3, p2: Point3, mat: usize)
    requires
        vec_bounded(p0, TRI_LIMIT as int),
        vec_bounded(p1, TRI_LIMIT as int),
        vec_bounded(p2, TRI_LIMIT as int),
        forall|i: int| 0 <= i < old(tris)@.len() ==> tri_wf(#[trigger] old(tris)@[i]),
        forall|i: int| 0 <= i < old(tris)@.len() ==> (#[trigger] old(tris)@[i]).mat == mat,
    ensures
        final(tris)@ == old(tris)@.push(untextured_tri_spec(p0, p1, p2, mat)),
        final(tris)@.len() == old(tris)@.len() + 1,
        forall|i: int| 0 <= i < final(tris)@.len() ==> tri_wf(#[trigger] final(tris)@[i]),
        forall|i: int| 0 <= i < final(tris)@.len() ==> (#[trigger] final(tris)@[i]).mat == mat,
{
    let t = Triangle::new_untextured(p0, p1, p2, mat);
    proof {
        assert(t == untextured_tri_spec(p0, p1, p2, mat));
    }
    tris.push(t);
    proof {
        assert(forall|i: int| 0 <= i < old(tris)@.len() ==> final(tris)@[i]
            == #[trigger] old(tris)@[i]);
    }
}

/// The six wall triangles of a room of half-width `a` centred at `vec`:
/// left wall, back wall and floor, each as a split quad.
pub fn make_room_box(a: i64, vec: Vec3, materials: &RoomMaterials) -> (tris: Vec<Triangle>)
    requires
        0 < a <= 8 * FP_ONE as int,
        vec_bounded(vec, 8 * FP_ONE as int),
    ensures
        tris@ == room_box_spec(a, vec, materials.floor, materials.back, materials.left),
        tris@.len() == 6,
        forall|i: int| 0 <= i < tris@.len() ==> tri_wf(#[trigger] tris@[i]),
{
    let mut tris: Vec<Triangle> = Vec::new();
    // Floor (y = -a).
    let f1 = Triangle::new_untextured(
        room_pt(-a, -a, -a, vec),
        room_pt(a, -a, -a, vec),
        room_pt(a, -a, a, vec),
        materials.floor,
    );
    let f2 = Triangle::new_untextured(
        room_pt(-a, -a, -a, vec),
        room_pt(a, -a, a, vec),
        room_pt(-a, -a, a, vec),
        materials.floor,
    );
    // Back wall (z = -a).
    let b1 = Triangle::new_untextured(
        room_pt(-a, -a, -a, vec),
        room_pt(a, -a, -a, vec),
        room_pt(a, a, -a, vec),
        materials.back,
    );
    let b2 = Triangle::new_untextured(
        room_pt(-a, -a, -a, vec),
        room_pt(a, a, -a, vec),
        room_pt(-a, a, -a, vec),
        materials.back,
    );
    // Left wall (x = -a).
    let l1 = Triangle::new_untextured(
        room_pt(-a, -a, -a, vec),
        room_pt(-a, -a, a, vec),
        room_pt(-a, a, a, vec),
        materials.left,
    );
    let l2 = Triangle::new_untextured(
        room_pt(-a, -a, -a, vec),
        room_pt(-a, a, a, vec),
        room_pt(-a, a, -a, vec),
        materials.left,
    );
    tris.push(l1);
    tris.push(l2);
    tris.push(b1);
    tris.push(b2);
    tris.push(f1);
    tris.push(f2);
    proof {
        assert(tris@.len() == 6);
        assert(forall|i: int| 0 <= i < tris@.len() ==> tri_wf(#[trigger] tris@[i])) by {
            assert(tris@[0] == l1 && tris@[1] == l2 && tris@[2] == b1 && tris@[3] == b2
                && tris@[4] == f1 && tris@[5] == f2);
        }
        assert(tris@ =~= room_box_spec(a, vec, materials.floor, materials.back, materials.left));
    }
    tris
}

/// One corner of the room, offset by its centre.
fn room_pt(x: i64, y: i64, z: i64, vec: Vec3) -> (p: Point3)
    requires
        -8 * FP_ONE as int <= x <= 8 * FP_ONE as int,
        -8 * FP_ONE as int <= y <= 8 * FP_ONE as int,
        -8 * FP_ONE as int <= z <= 8 * FP_ONE as int,
        vec_bounded(vec, 8 * FP_ONE as int),
    ensures
        p == room_pt_spec(x, y, z, vec),
        vec_bounded(p, TRI_LIMIT as int),
{
    Vec3 { x: x + vec.x, y: y + vec.y, z: z + vec.z }
}

} // verus!
