//! Scattering and the integrator: perpendicular dielectric entry, the
//! Schlick base reflectance, shadowing, and a tiny end-to-end render.

use raytracer::camera::Camera;
use raytracer::fixed::{FP_HALF, FP_ONE};
use raytracer::hit::HitRecord;
use raytracer::light::Light;
use raytracer::material::{schlick, Material};
use raytracer::primitive::Primitive;
use raytracer::ray::{Ray, T_EPSILON, T_INFINITY};
use raytracer::renderer::{direct_light_one, ray_color, RenderConfig, Renderer};
use raytracer::sphere::Sphere;
use raytracer::texture::Texture;
use raytracer::vec3::{refract, Vec3};
use raytracer::world::World;

fn v(x: i64, y: i64, z: i64) -> Vec3 {
    Vec3 { x: x * FP_ONE, y: y * FP_ONE, z: z * FP_ONE }
}

/// A ray entering exactly along the normal refracts straight through:
/// the transmitted direction equals the incident direction, for any
/// index ratio with a real solution.
#[test]
fn perpendicular_entry_transmits_straight() {
    let n = Vec3 { x: 0, y: 0, z: FP_ONE };
    let incident = Vec3 { x: 0, y: 0, z: -FP_ONE };
    for eta in [FP_ONE / 2, FP_ONE, 98304, 2 * FP_ONE] {
        let out = refract(incident, n, eta).expect("perpendicular entry must refract");
        assert_eq!(out, incident, "direction changed at eta {}", eta);
    }
}

/// At normal incidence the Schlick term is the base reflectance: zero
/// for matching indices, about 0.04 for glass.
#[test]
fn schlick_base_reflectance() {
    assert_eq!(schlick(FP_ONE, FP_ONE), 0);
    // For an index of 1.5 the base reflectance is 0.04 (2621 in fixed
    // point, floored).
    assert_eq!(schlick(FP_ONE, 98304), 2621);
    // Reflectance rises towards grazing incidence.
    assert!(schlick(0, 98304) > schlick(FP_ONE, 98304));
}

/// A metal surface absorbs a ray whose mirror reflection ends up on the
/// back side of the surface.
#[test]
fn metal_absorbs_backfacing_reflection() {
    let metal = Material::Metal { albedo: v(1, 1, 1), fuzz: 0 };
    let rec = HitRecord {
        p: Vec3 { x: 0, y: 0, z: 0 },
        normal: Vec3 { x: 0, y: 0, z: FP_ONE },
        t: FP_ONE,
        front_face: true,
        u: 0,
        v: 0,
        mat: 0,
    };
    // Incoming along the normal from behind: the reflection points away.
    let r_in = Ray::new(v(0, 0, -2), Vec3 { x: 0, y: 0, z: FP_ONE });
    assert!(metal.scatter(&r_in, &rec).is_none());
}

/// Diffuse scattering always reports the albedo as attenuation, and the
/// scattered ray starts at the hit point.
#[test]
fn lambertian_scatters_with_albedo() {
    let albedo = Vec3 { x: 13107, y: 26214, z: 39321 };
    let mat = Material::Lambertian { albedo };
    let rec = HitRecord {
        p: v(1, 2, 3),
        normal: Vec3 { x: 0, y: FP_ONE, z: 0 },
        t: FP_ONE,
        front_face: true,
        u: 0,
        v: 0,
        mat: 0,
    };
    let r_in = Ray::new(v(0, 4, 0), Vec3 { x: 0, y: -FP_ONE, z: 0 });
    let (att, scattered) = mat.scatter(&r_in, &rec).expect("diffuse always scatters");
    assert_eq!(att, albedo);
    assert_eq!(scattered.origin, rec.p);
}

/// A textured material samples its attenuation from the image grid.
#[test]
fn textured_scatter_samples_image() {
    let pixels = vec![0xFF0000u32, 0x00FF00u32, 0x0000FFu32, 0xFFFFFFu32];
    let tex = Texture::new(2, 2, pixels).expect("well-formed texture");
    let sampled = tex.sample(0, FP_ONE);
    // Top-left pixel is pure red.
    assert_eq!(sampled.x, FP_ONE);
    assert_eq!(sampled.y, 0);
    assert_eq!(sampled.z, 0);
    let mat = Material::Textured { texture: tex };
    let rec = HitRecord {
        p: Vec3 { x: 0, y: 0, z: 0 },
        normal: Vec3 { x: 0, y: FP_ONE, z: 0 },
        t: FP_ONE,
        front_face: true,
        u: 0,
        v: FP_ONE,
        mat: 0,
    };
    let r_in = Ray::new(v(0, 1, 0), Vec3 { x: 0, y: -FP_ONE, z: 0 });
    let (att, _) = mat.scatter(&r_in, &rec).expect("textured diffuse always scatters");
    assert_eq!(att, sampled);
}

/// A perpendicular exit through a glass surface transmits
/// deterministically (the Schlick draw against the outer medium's equal
/// index is zero) and the transmitted ray carries the outer medium's
/// index, not the glass's.
#[test]
fn glass_exit_restores_outer_medium() {
    let glass = Material::Glass { albedo: v(1, 1, 1), refractive_index: 98304 };
    // Back face: the ray travels inside the glass and leaves it.
    let rec = HitRecord {
        p: Vec3 { x: 0, y: 0, z: 0 },
        normal: Vec3 { x: 0, y: 0, z: FP_ONE },
        t: FP_ONE,
        front_face: false,
        u: 0,
        v: 0,
        mat: 0,
    };
    let r_in = raytracer::ray::Ray::with_ior(
        v(0, 0, 1),
        Vec3 { x: 0, y: 0, z: -FP_ONE },
        98304,
    );
    let (_, scattered) = glass.scatter(&r_in, &rec).expect("dielectric always scatters");
    assert_eq!(scattered.current_ior, FP_ONE, "exit ray must carry the outer medium's index");
    assert_eq!(
        scattered.direction,
        Vec3 { x: 0, y: 0, z: -FP_ONE },
        "perpendicular exit transmits straight through"
    );
}

fn shadow_scene(with_occluder: bool) -> (World, HitRecord, Light) {
    let mut world = World::new();
    let grey = world.add_material(Material::Lambertian { albedo: v(0, 0, 0) });
    // The ground the hit point lies on.
    world.add_hittable(Primitive::Sphere(Sphere::new(v(0, -101, 0), 100 * FP_ONE, grey)));
    if with_occluder {
        // A small opaque sphere directly between the point and the light.
        world.add_hittable(Primitive::Sphere(Sphere::new(v(0, 3, 0), FP_ONE, grey)));
    }
    let light = Light::new(v(0, 6, 0), v(15, 15, 15));
    world.add_light(light);
    let rec = HitRecord {
        p: Vec3 { x: 0, y: -FP_ONE, z: 0 },
        normal: Vec3 { x: 0, y: FP_ONE, z: 0 },
        t: FP_ONE,
        front_face: true,
        u: 0,
        v: 0,
        mat: grey,
    };
    (world, rec, light)
}

/// An opaque occluder between the hit point and the light forces that
/// light's direct contribution to exactly zero; clearing it restores a
/// positive contribution.
#[test]
fn shadowed_light_contributes_nothing() {
    let albedo = Vec3 { x: FP_HALF, y: FP_HALF, z: FP_HALF };
    let view = Vec3 { x: 0, y: FP_ONE, z: 0 };

    let (blocked_world, rec, light) = shadow_scene(true);
    let blocked = direct_light_one(&blocked_world, albedo, &rec, view, &light);
    assert_eq!((blocked.x, blocked.y, blocked.z), (0, 0, 0));

    let (open_world, rec2, light2) = shadow_scene(false);
    let lit = direct_light_one(&open_world, albedo, &rec2, view, &light2);
    assert!(lit.x > 0 && lit.y > 0 && lit.z > 0, "unshadowed light must contribute");
}

/// The sky gradient for a straight-up ray is the exact blue blend.
#[test]
fn sky_gradient_exact_value() {
    let world = World::new();
    let up = Ray::new(Vec3 { x: 0, y: 0, z: 0 }, Vec3 { x: 0, y: FP_ONE, z: 0 });
    let c = ray_color(&up, &world, 1);
    assert_eq!((c.x, c.y, c.z), (FP_HALF, 45875, FP_ONE));
    // Depth zero is black, whatever the ray.
    let black = ray_color(&up, &world, 0);
    assert_eq!((black.x, black.y, black.z), (0, 0, 0));
}

/// The end-to-end scenario: a ground sphere and a unit sphere under one
/// overhead light, rendered two by two with one sample at depth one.
/// Every pixel is produced, and a ray into the foreground sphere shades
/// differently from a sky ray.
#[test]
fn tiny_end_to_end_render() {
    let mut world = World::new();
    let ground = world.add_material(Material::Lambertian { albedo: Vec3 {
        x: 52429,
        y: 52429,
        z: 0,
    } });
    let center = world.add_material(Material::Lambertian { albedo: Vec3 {
        x: 45875,
        y: 19661,
        z: 19661,
    } });
    world.add_hittable(Primitive::Sphere(Sphere::new(
        Vec3 { x: 0, y: -6586368, z: -FP_ONE },
        100 * FP_ONE,
        ground,
    )));
    world.add_hittable(Primitive::Sphere(Sphere::new(
        Vec3 { x: 0, y: 0, z: -2 * FP_ONE },
        FP_HALF,
        center,
    )));
    world.add_light(Light::new(v(0, 10, 0), v(15, 15, 15)));
    world.build_bvh();

    let camera = Camera::new(FP_ONE);
    let renderer = Renderer::new(camera, world);
    let cfg = RenderConfig { width: 2, height: 2, samples_per_pixel: 1, max_depth: 1 };
    let rows = renderer.render_scene(&cfg);
    assert_eq!(rows.len(), 2);
    for row in &rows {
        assert_eq!(row.len(), 2);
    }

    // Deterministic at depth 1: a sphere ray differs from a sky ray.
    let sphere_ray = Ray::new(Vec3 { x: 0, y: 0, z: 0 }, Vec3 { x: 0, y: 0, z: -FP_ONE });
    let sky_ray = Ray::new(Vec3 { x: 0, y: 0, z: 0 }, Vec3 { x: 0, y: FP_ONE, z: 0 });
    let hit_color = ray_color(&sphere_ray, &renderer.world, 1);
    let sky_color = ray_color(&sky_ray, &renderer.world, 1);
    assert!(hit_color != sky_color, "foreground shading must differ from the sky");
    assert!(hit_color.x >= 0 && hit_color.y >= 0 && hit_color.z >= 0);
}

/// The built-in scene builds a well-formed world and camera.
#[test]
fn required_scene_builds() {
    let mut world = World::new();
    let scene = raytracer::scene::RequiredScene;
    let _camera = scene.setup(&mut world, 0, FP_ONE, 512, 512);
    assert_eq!(world.primitives.len(), 2);
    assert_eq!(world.lights.len(), 1);
    world.build_bvh();
    // The glass sphere sits in front of the camera ring; a straight-down
    // ray from above it must hit something.
    let down = Ray::new(v(0, 10, 0), Vec3 { x: 0, y: -FP_ONE, z: 0 });
    assert!(world.hit(&down, T_EPSILON, T_INFINITY).is_some());
}
