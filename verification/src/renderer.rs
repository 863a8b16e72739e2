//! The light-transport integrator and the sampling loops.
//!
//! `ray_color` recurses on scattered rays down to a depth budget, adding
//! an ambient term, shadow-tested direct lighting and damped indirect
//! light.  Rows are rendered independently; the parallel fan-out happens
//! behind one trusted wrapper over `rayon`, and everything each worker
//! computes is verified.

use vstd::prelude::*;
use rayon::iter::{IndexedParallelIterator, IntoParallelIterator, ParallelIterator};

verus! {

use crate::fixed::{fdiv, fpm, fpd, sqrt_floor, fp_mul, fp_div, fp_sqrt, fp_clamp, FP_ONE, FP_HALF};
use crate::vec3::{
    Vec3, Point3, Color, vec_bounded, vec_in_range, dot_spec, normalize_spec, reflect_spec, dot,
    reflect, unit_vector,
};
use crate::ray::{Ray, ray_wf, T_LIMIT, T_INFINITY, T_EPSILON};
use crate::hit::{HitRecord, rec_wf};
use crate::world::{World, world_wf, world_hit_spec};
use crate::light::{Light, light_wf, LIGHT_LIMIT};
use crate::material::{Material, albedo_spec, color_wf};
use crate::camera::{Camera, camera_wf, get_ray_spec};

/// Magnitude bound on accumulated radiance channels (1 << 38).
pub const COLOR_LIMIT: i64 = 274877906944;

/// The damping weight on indirect light, about 0.8.
pub const INDIRECT_DAMP: i64 = 52429;

/// The ambient weight, about 0.1.
pub const AMBIENT_WEIGHT: i64 = 6554;

/// The largest channel value that survives the final clamp, just under
/// one.
pub const CLAMP_MAX: i64 = 65470;

/// Render dimensions and sampling budget.
#[derive(Clone, Copy, Debug, PartialEq, Eq, Structural)]
pub struct RenderConfig {
    pub width: usize,
    pub height: usize,
    pub samples_per_pixel: u32,
    pub max_depth: u32,
}

/// Admissible render parameters.
pub open spec fn config_wf(cfg: RenderConfig) -> bool {
    &&& 2 <= cfg.width <= 4096
    &&& 2 <= cfg.height <= 4096
    &&& 1 <= cfg.samples_per_pixel <= 1024
    &&& cfg.max_depth <= 64
}

/// The sky gradient: white blended towards light blue by the upward
/// component of the unit ray direction.
pub open spec fn background_spec(r: Ray) -> Color {
    let unit = normalize_spec(r.direction);
    let uy = if unit.y < -2 * FP_ONE {
        -2 * FP_ONE as int
    } else if unit.y > 2 * FP_ONE {
        2 * FP_ONE as int
    } else {
        unit.y as int
    };
    let t = fpm(FP_HALF as int, uy + FP_ONE);
    Color {
        x: (FP_ONE - t + fpm(t, FP_HALF as int)) as i64,
        y: (FP_ONE - t + fpm(t, 45875)) as i64,
        z: (FP_ONE - t + fpm(t, FP_ONE as int)) as i64,
    }
}

/// The sky colour for a ray.
pub fn background(r: &Ray) -> (c: Color)
    requires
        ray_wf(*r),
    ensures
        c == background_spec(*r),
        vec_bounded(c, 4 * FP_ONE as int),
        0 <= c.x && 0 <= c.y && 0 <= c.z,
{
    let unit = unit_vector(r.direction());
    proof {
        lemma_unit_y_bound(r.direction);
    }
    let uy: i64 = fp_clamp(unit.y, -2 * FP_ONE, 2 * FP_ONE);
    let t: i64 = fp_mul(FP_HALF, uy + FP_ONE);
    proof {
        crate::fixed::lemma_fpm_abs(
            FP_HALF as int,
            uy + FP_ONE,
            FP_HALF as int,
            3 * FP_ONE as int,
            2 * FP_ONE as int,
        );
        crate::fixed::lemma_fpm_abs(t as int, FP_HALF as int, 2 * FP_ONE as int, FP_ONE as int, 2 * FP_ONE as int);
        crate::fixed::lemma_fpm_abs(t as int, 45875, 2 * FP_ONE as int, FP_ONE as int, 2 * FP_ONE as int);
        crate::fixed::lemma_fpm_abs(t as int, FP_ONE as int, 2 * FP_ONE as int, FP_ONE as int, 2 * FP_ONE as int);
    }
    proof {
        lemma_background_nonneg(t as int);
    }
    Color {
        x: FP_ONE - t + fp_mul(t, FP_HALF),
        y: FP_ONE - t + fp_mul(t, 45875),
        z: FP_ONE - t + fp_mul(t, FP_ONE),
    }
}

/// The gradient's channels cannot go negative: the blend weight stays
/// between -1/2 and 3/2, and each blended colour at least half covers
/// the shortfall.
proof fn lemma_background_nonneg(t: int)
    requires
        -FP_HALF <= t <= FP_ONE + FP_HALF,
    ensures
        0 <= FP_ONE - t + fpm(t, FP_HALF as int),
        0 <= FP_ONE - t + fpm(t, 45875),
        FP_ONE - t + fpm(t, FP_ONE as int) == FP_ONE,
{
    crate::fixed::lemma_fdiv_range(t * FP_HALF as int, FP_ONE as int);
    crate::fixed::lemma_fdiv_range(t * 45875, FP_ONE as int);
    assert(65536 * (fpm(t, FP_HALF as int) + 1) > t * 32768 && 65536 * (fpm(t, 45875) + 1)
        > t * 45875);
    assert(2 * (FP_ONE - t + fpm(t, FP_HALF as int)) >= 0) by (nonlinear_arith)
        requires
            -32768 <= t <= 98304,
            65536 * (fpm(t, FP_HALF as int) + 1) > t * 32768,
            FP_ONE == 65536,
            FP_HALF == 32768,
    ;
    assert(65536 * (FP_ONE - t + fpm(t, 45875)) > 0) by (nonlinear_arith)
        requires
            -32768 <= t <= 98304,
            65536 * (fpm(t, 45875) + 1) > t * 45875,
            FP_ONE == 65536,
    ;
    crate::fixed::lemma_fpm_one(t);
}

/// A normalized direction's components stay within two units.
proof fn lemma_unit_y_bound(d: Vec3)
    requires
        vec_in_range(d),
    ensures
        vec_bounded(normalize_spec(d), 0x7_0000_0000_0000),
        dot_spec(d, d) >= 1 ==> vec_bounded(normalize_spec(d), 2 * FP_ONE as int),
        dot_spec(d, d) == 0 ==> normalize_spec(d) == (Vec3 { x: 0i64, y: 0i64, z: 0i64 }),
{
    crate::vec3::lemma_dot_self_nonneg(d);
    crate::fixed::lemma_sqrt_floor_exists(dot_spec(d, d) * FP_ONE as int);
    let mag = sqrt_floor(dot_spec(d, d) * FP_ONE as int);
    if dot_spec(d, d) == 0 {
        assert(dot_spec(d, d) * (FP_ONE as int) == 0) by (nonlinear_arith)
            requires
                dot_spec(d, d) == 0,
        ;
        crate::fixed::lemma_sqrt_floor_unique(0, 0);
    } else {
        crate::vec3::lemma_normalize_spec_bounds(d);
    }
}

/// The shadow ray cast from a hit point towards a light, and its length.
pub open spec fn shadow_dir_spec(rec: HitRecord, light: Light) -> Vec3 {
    Vec3 {
        x: (light.p.x - rec.p.x) as i64,
        y: (light.p.y - rec.p.y) as i64,
        z: (light.p.z - rec.p.z) as i64,
    }
}

/// One light's direct contribution: zero when the offset leaves the
/// working range, when the light sits on the surface, or when an
/// occluder blocks the shadow ray; otherwise the shadow-tested Lambert
/// plus Blinn-style specular term, attenuated by distance.
pub open spec fn direct_one_spec(
    w: World,
    albedo: Color,
    rec: HitRecord,
    view_dir: Vec3,
    light: Light,
) -> Color {
    let diff = shadow_dir_spec(rec, light);
    if !vec_in_range(diff) {
        Color { x: 0i64, y: 0i64, z: 0i64 }
    } else {
        let dist = sqrt_floor(dot_spec(diff, diff) * FP_ONE as int);
        if dist < T_EPSILON {
            Color { x: 0i64, y: 0i64, z: 0i64 }
        } else {
            let light_dir = normalize_spec(diff);
            let shadow_ray = Ray { origin: rec.p, direction: light_dir, current_ior: FP_ONE };
            if world_hit_spec(w, shadow_ray, T_EPSILON as int, dist) is Some {
                Color { x: 0i64, y: 0i64, z: 0i64 }
            } else {
                lit_spec(albedo, rec, view_dir, light, light_dir, dist)
            }
        }
    }
}

/// The unshadowed lighting formula.
pub open spec fn lit_spec(
    albedo: Color,
    rec: HitRecord,
    view_dir: Vec3,
    light: Light,
    light_dir: Vec3,
    dist: int,
) -> Color {
    let diffuse_int = if dot_spec(light_dir, rec.normal) >= 0 {
        dot_spec(light_dir, rec.normal)
    } else {
        0
    };
    let refl = reflect_spec(crate::vec3::neg_spec(light_dir), rec.normal);
    let spec_strength = if dot_spec(refl, refl) < 1 {
        0
    } else {
        let rd = normalize_spec(refl);
        let s0 = if dot_spec(rd, view_dir) >= 0 {
            dot_spec(rd, view_dir)
        } else {
            0
        };
        pow32_spec(if s0 > FP_ONE {
            FP_ONE as int
        } else {
            s0
        })
    };
    let att = fpd(FP_ONE as int, fpm(dist, dist) + FP_ONE);
    Color {
        x: fpm(fpm((fpm(albedo.x as int, diffuse_int) + spec_strength), light.intensity.x as int), att) as i64,
        y: fpm(fpm((fpm(albedo.y as int, diffuse_int) + spec_strength), light.intensity.y as int), att) as i64,
        z: fpm(fpm((fpm(albedo.z as int, diffuse_int) + spec_strength), light.intensity.z as int), att) as i64,
    }
}

/// The 32nd power of a unit-interval scalar, by five squarings.
pub open spec fn pow32_spec(s: int) -> int {
    let s2 = fpm(s, s);
    let s4 = fpm(s2, s2);
    let s8 = fpm(s4, s4);
    let s16 = fpm(s8, s8);
    fpm(s16, s16)
}

/// A light blocked by any occluder between the surface and the light
/// contributes exactly nothing: the shadow test's half of the shadow
/// law.  (A test exercises the other half, that clearing the occluder
/// restores a positive contribution.)
pub proof fn lemma_occluded_light_is_zero(
    w: World,
    albedo: Color,
    rec: HitRecord,
    view_dir: Vec3,
    light: Light,
)
    requires
        vec_in_range(shadow_dir_spec(rec, light)),
        sqrt_floor(dot_spec(shadow_dir_spec(rec, light), shadow_dir_spec(rec, light)) * FP_ONE
            as int) >= T_EPSILON,
        world_hit_spec(
            w,
            Ray {
                origin: rec.p,
                direction: normalize_spec(shadow_dir_spec(rec, light)),
                current_ior: FP_ONE,
            },
            T_EPSILON as int,
            sqrt_floor(dot_spec(shadow_dir_spec(rec, light), shadow_dir_spec(rec, light))
                * FP_ONE as int),
        ) is Some,
    ensures
        direct_one_spec(w, albedo, rec, view_dir, light) == (Color { x: 0i64, y: 0i64, z: 0i64 }),
{
}

/// The 32nd power of a unit-interval scalar stays in the unit interval.
proof fn lemma_pow32_unit(s: int)
    requires
        0 <= s <= FP_ONE,
    ensures
        0 <= pow32_spec(s) <= FP_ONE,
{
    crate::material::lemma_unit_product(s, s);
    let s2 = fpm(s, s);
    crate::material::lemma_unit_product(s2, s2);
    let s4 = fpm(s2, s2);
    crate::material::lemma_unit_product(s4, s4);
    let s8 = fpm(s4, s4);
    crate::material::lemma_unit_product(s8, s8);
    let s16 = fpm(s8, s8);
    crate::material::lemma_unit_product(s16, s16);
}

/// One channel of the lighting formula is at least one bit when every
/// factor clears its threshold.
proof fn lemma_lit_channel_positive(alb: int, di: int, ss: int, inten: int, dist: int)
    requires
        FP_ONE / 4 <= alb <= FP_ONE,
        FP_ONE / 4 <= di <= 12 * FP_ONE as int,
        0 <= ss <= FP_ONE,
        8 * FP_ONE as int <= inten <= LIGHT_LIMIT,
        0 <= dist <= 4 * FP_ONE as int,
    ensures
        1 <= fpm(fpm((fpm(alb, di) + ss), inten), fpd(FP_ONE as int, fpm(dist, dist) + FP_ONE))
            <= 0xD00_0000,
{
    assert(FP_ONE as int * (12 * FP_ONE as int) <= 12 * FP_ONE as int * (FP_ONE as int))
        by (nonlinear_arith);
    crate::fixed::lemma_fpm_abs(alb, di, FP_ONE as int, 12 * FP_ONE as int, 12 * FP_ONE as int);

    let b1 = fpm(alb, di);
    assert(alb * di >= 0x1000_0000) by (nonlinear_arith)
        requires
            alb >= 16384,
            di >= 16384,
    ;
    crate::fixed::lemma_fdiv_mono(0x1000_0000, alb * di, FP_ONE as int);
    assert(fdiv(0x1000_0000, FP_ONE as int) == 4096) by {
        vstd::arithmetic::div_mod::lemma_fundamental_div_mod_converse(
            0x1000_0000,
            65536,
            4096,
            0,
        );
    }
    let base = b1 + ss;
    assert((13 * FP_ONE as int) * LIGHT_LIMIT as int <= 0xD00_0000int * (FP_ONE as int))
        by (nonlinear_arith)
        requires
            LIGHT_LIMIT == 0x100_0000,
            FP_ONE == 65536,
    ;
    crate::fixed::lemma_fpm_abs(base, inten, 13 * FP_ONE as int, LIGHT_LIMIT as int, 0xD00_0000);
    let scaled = fpm(base, inten);
    assert(base * inten >= 0x8000_0000) by (nonlinear_arith)
        requires
            base >= 4096,
            inten >= 524288,
    ;
    crate::fixed::lemma_fdiv_mono(0x8000_0000, base * inten, FP_ONE as int);
    assert(fdiv(0x8000_0000, FP_ONE as int) == 32768) by {
        vstd::arithmetic::div_mod::lemma_fundamental_div_mod_converse(
            0x8000_0000,
            65536,
            32768,
            0,
        );
    }
    let dsq = fpm(dist, dist);
    assert(0 <= dist * dist <= 0x10_0000_0000) by (nonlinear_arith)
        requires
            0 <= dist <= 262144,
    ;
    crate::fixed::lemma_fdiv_mono(dist * dist, 0x10_0000_0000, FP_ONE as int);
    crate::fixed::lemma_fdiv_bounds(dist * dist, FP_ONE as int, 0x10_0000_0000);
    assert(fdiv(0x10_0000_0000, FP_ONE as int) == 0x10_0000) by {
        vstd::arithmetic::div_mod::lemma_fundamental_div_mod_converse(
            0x10_0000_0000,
            65536,
            0x10_0000,
            0,
        );
    }
    let att = fpd(FP_ONE as int, dsq + FP_ONE);
    assert(att >= 3855) by {
        vstd::arithmetic::div_mod::lemma_div_is_ordered_by_denominator(
            0x1_0000_0000,
            dsq + FP_ONE as int,
            0x11_0000,
        );
        assert(fdiv(0x1_0000_0000, 0x11_0000) == 3855) by {
            vstd::arithmetic::div_mod::lemma_fundamental_div_mod_converse(
                0x1_0000_0000,
                0x11_0000,
                3855,
                65536,
            );
        }
    }
    lemma_att_unit(dsq);
    assert(0xD00_0000int * (FP_ONE as int) <= 0xD00_0000int * (FP_ONE as int));
    crate::fixed::lemma_fpm_abs(scaled, att, 0xD00_0000, FP_ONE as int, 0xD00_0000);
    assert(scaled * att >= 126320640int) by (nonlinear_arith)
        requires
            scaled >= 32768,
            att >= 3855,
    ;
    crate::fixed::lemma_fdiv_mono(126320640int, scaled * att, FP_ONE as int);
    assert(fdiv(126320640int, FP_ONE as int) == 1927) by {
        vstd::arithmetic::div_mod::lemma_fundamental_div_mod_converse(
            126320640,
            65536,
            1927,
            32768,
        );
    }
}

/// The shadow law's positive half, under explicit magnitude thresholds:
/// an unoccluded light of at least eight units intensity, within four
/// units of the surface but past the self-intersection epsilon, lighting
/// a face whose albedo channels and incidence cosine are at least a
/// quarter, contributes at least one least-significant bit in every
/// channel.  Below the thresholds fixed-point products can floor to
/// zero (a one-bit albedo under a grazing light contributes nothing),
/// which is why the thresholds are part of the statement.
pub proof fn lemma_unshadowed_light_positive(
    w: World,
    albedo: Color,
    rec: HitRecord,
    view_dir: Vec3,
    light: Light,
)
    requires
        rec_wf(rec),
        vec_in_range(shadow_dir_spec(rec, light)),
        ({
            let dist = sqrt_floor(
                dot_spec(shadow_dir_spec(rec, light), shadow_dir_spec(rec, light)) * FP_ONE
                    as int,
            );
            T_EPSILON <= dist <= 4 * FP_ONE as int
        }),
        world_hit_spec(
            w,
            Ray {
                origin: rec.p,
                direction: normalize_spec(shadow_dir_spec(rec, light)),
                current_ior: FP_ONE,
            },
            T_EPSILON as int,
            sqrt_floor(
                dot_spec(shadow_dir_spec(rec, light), shadow_dir_spec(rec, light)) * FP_ONE
                    as int,
            ),
        ) is None,
        FP_ONE / 4 <= albedo.x <= FP_ONE,
        FP_ONE / 4 <= albedo.y <= FP_ONE,
        FP_ONE / 4 <= albedo.z <= FP_ONE,
        dot_spec(normalize_spec(shadow_dir_spec(rec, light)), rec.normal) >= FP_ONE / 4,
        8 * FP_ONE as int <= light.intensity.x <= LIGHT_LIMIT,
        8 * FP_ONE as int <= light.intensity.y <= LIGHT_LIMIT,
        8 * FP_ONE as int <= light.intensity.z <= LIGHT_LIMIT,
    ensures
        direct_one_spec(w, albedo, rec, view_dir, light).x >= 1,
        direct_one_spec(w, albedo, rec, view_dir, light).y >= 1,
        direct_one_spec(w, albedo, rec, view_dir, light).z >= 1,
{
    let diff = shadow_dir_spec(rec, light);
    let dist = sqrt_floor(dot_spec(diff, diff) * FP_ONE as int);
    lemma_dist_implies_unit(diff, dist);
    crate::vec3::lemma_normalize_spec_bounds(diff);
    let light_dir = normalize_spec(diff);
    lemma_dot_unit12(light_dir, rec.normal);
    let di = dot_spec(light_dir, rec.normal);
    let refl = reflect_spec(crate::vec3::neg_spec(light_dir), rec.normal);
    let ss = if dot_spec(refl, refl) < 1 {
        0int
    } else {
        let rd = normalize_spec(refl);
        let s0 = if dot_spec(rd, view_dir) >= 0 {
            dot_spec(rd, view_dir)
        } else {
            0int
        };
        pow32_spec(
            if s0 > FP_ONE {
                FP_ONE as int
            } else {
                s0
            },
        )
    };
    assert(0 <= ss <= FP_ONE) by {
        if dot_spec(refl, refl) >= 1 {
            let rd = normalize_spec(refl);
            let s0 = if dot_spec(rd, view_dir) >= 0 {
                dot_spec(rd, view_dir)
            } else {
                0int
            };
            lemma_pow32_unit(
                if s0 > FP_ONE {
                    FP_ONE as int
                } else {
                    s0
                },
            );
        }
    }
    lemma_lit_channel_positive(albedo.x as int, di, ss, light.intensity.x as int, dist);
    lemma_lit_channel_positive(albedo.y as int, di, ss, light.intensity.y as int, dist);
    lemma_lit_channel_positive(albedo.z as int, di, ss, light.intensity.z as int, dist);
}

/// The 32nd power of a unit-interval scalar.
fn pow32(s: i64) -> (r: i64)
    requires
        0 <= s <= FP_ONE,
    ensures
        r == pow32_spec(s as int),
        0 <= r <= FP_ONE,
{
    let s2: i64 = fp_mul(s, s);
    proof {
        crate::material::lemma_unit_product(s as int, s as int);
    }
    let s4: i64 = fp_mul(s2, s2);
    proof {
        crate::material::lemma_unit_product(s2 as int, s2 as int);
    }
    let s8: i64 = fp_mul(s4, s4);
    proof {
        crate::material::lemma_unit_product(s4 as int, s4 as int);
    }
    let s16: i64 = fp_mul(s8, s8);
    proof {
        crate::material::lemma_unit_product(s8 as int, s8 as int);
    }
    let r = fp_mul(s16, s16);
    proof {
        crate::material::lemma_unit_product(s16 as int, s16 as int);
    }
    r
}

/// One light's direct contribution at a hit point.
pub fn direct_light_one(
    w: &World,
    albedo: Color,
    rec: &HitRecord,
    view_dir: Vec3,
    light: &Light,
) -> (c: Color)
    requires
        world_wf(*w),
        crate::material::color_wf(albedo),
        rec_wf(*rec),
        vec_bounded(view_dir, 2 * FP_ONE as int),
        light_wf(*light),
    ensures
        c == direct_one_spec(*w, albedo, *rec, view_dir, *light),
        vec_bounded(c, 0x2000_0000),
        0 <= c.x && 0 <= c.y && 0 <= c.z,
{
    let diff = light.p.minus(&rec.p);
    if !(-crate::vec3::VEC_LIMIT <= diff.x && diff.x <= crate::vec3::VEC_LIMIT
        && -crate::vec3::VEC_LIMIT <= diff.y && diff.y <= crate::vec3::VEC_LIMIT
        && -crate::vec3::VEC_LIMIT <= diff.z && diff.z <= crate::vec3::VEC_LIMIT) {
        return Color { x: 0, y: 0, z: 0 };
    }
    let dist: i64 = diff.length();
    if dist < T_EPSILON {
        return Color { x: 0, y: 0, z: 0 };
    }
    proof {
        lemma_dist_implies_unit(diff, dist as int);
    }
    let light_dir = diff.normalize();
    let shadow_ray = Ray::new(rec.p, light_dir);
    let shadow_hit = w.hit(&shadow_ray, T_EPSILON, dist);
    if shadow_hit.is_some() {
        return Color { x: 0, y: 0, z: 0 };
    }
    // Lambert term.
    let dln: i64 = dot(light_dir, rec.normal);
    let diffuse_int: i64 = if dln >= 0 {
        dln
    } else {
        0
    };
    proof {
        lemma_dot_unit12(light_dir, rec.normal);
    }
    // Blinn-style specular term.
    let refl = reflect(light_dir.neg(), rec.normal);
    let rsq: i64 = dot(refl, refl);
    proof {
        crate::vec3::lemma_dot_self_nonneg(refl);
    }
    let spec_strength: i64 = if rsq < 1 {
        0
    } else {
        proof {
            crate::vec3::lemma_normalize_spec_bounds(refl);
        }
        let rd = refl.normalize();
        let sv: i64 = dot(rd, view_dir);
        let s0: i64 = if sv >= 0 {
            sv
        } else {
            0
        };
        pow32(fp_clamp(s0, 0, FP_ONE))
    };
    proof {
        assert(spec_strength == ({
            let refl_s = reflect_spec(crate::vec3::neg_spec(light_dir), rec.normal);
            if dot_spec(refl_s, refl_s) < 1 {
                0int
            } else {
                let rd = normalize_spec(refl_s);
                let s0 = if dot_spec(rd, view_dir) >= 0 {
                    dot_spec(rd, view_dir)
                } else {
                    0int
                };
                pow32_spec(
                    if s0 > FP_ONE {
                        FP_ONE as int
                    } else {
                        s0
                    },
                )
            }
        }));
    }
    // Distance attenuation.
    let dsq: i64 = fp_mul(dist, dist);
    proof {
        lemma_square_nonneg(dist as int);
        crate::fixed::lemma_fpm_abs(dist as int, dist as int, 0x8000_0000, 0x8000_0000, 0x4000_0000_0000);
    }
    let att: i64 = fp_div(FP_ONE, dsq + FP_ONE);
    proof {
        lemma_att_unit(dsq as int);
    }
    let cx = lit_channel(albedo.x, diffuse_int, spec_strength, light.intensity.x, att);
    let cy = lit_channel(albedo.y, diffuse_int, spec_strength, light.intensity.y, att);
    let cz = lit_channel(albedo.z, diffuse_int, spec_strength, light.intensity.z, att);
    Color { x: cx, y: cy, z: cz }
}

/// A floor length of at least the epsilon threshold means the squared
/// length is at least one unit, so normalization stays near unit scale.
proof fn lemma_dist_implies_unit(diff: Vec3, dist: int)
    requires
        vec_in_range(diff),
        dist == sqrt_floor(dot_spec(diff, diff) * FP_ONE as int),
        dist >= T_EPSILON,
    ensures
        dot_spec(diff, diff) >= 1,
{
    crate::vec3::lemma_dot_self_nonneg(diff);
    crate::fixed::lemma_sqrt_floor_exists(dot_spec(diff, diff) * FP_ONE as int);
    if dot_spec(diff, diff) == 0 {
        assert(dot_spec(diff, diff) * (FP_ONE as int) == 0) by (nonlinear_arith)
            requires
                dot_spec(diff, diff) == 0,
        ;
        crate::fixed::lemma_sqrt_floor_unique(0, 0);
        assert(false);
    }
}

/// A fixed-point square is non-negative.
proof fn lemma_square_nonneg(a: int)
    ensures
        fpm(a, a) >= 0,
{
    assert(a * a >= 0) by (nonlinear_arith);
    crate::fixed::lemma_fdiv_bounds(a * a, FP_ONE as int, a * a);
}

/// `1 / (d^2 + 1)` lies in `[0, 1]`.
proof fn lemma_att_unit(dsq: int)
    requires
        0 <= dsq,
    ensures
        0 <= fpd(FP_ONE as int, dsq + FP_ONE) <= FP_ONE,
{
    assert(FP_ONE as int * FP_ONE as int <= FP_ONE as int * (dsq + FP_ONE as int))
        by (nonlinear_arith)
        requires
            0 <= dsq,
            FP_ONE == 65536,
    ;
    crate::fixed::lemma_fdiv_abs_le(FP_ONE as int * FP_ONE as int, dsq + FP_ONE as int, FP_ONE as int);
    crate::fixed::lemma_fdiv_bounds(
        FP_ONE as int * FP_ONE as int,
        dsq + FP_ONE as int,
        FP_ONE as int * FP_ONE as int,
    );
}

/// One colour channel of the lighting formula.
fn lit_channel(alb: i64, diffuse_int: i64, spec_strength: i64, intensity: i64, att: i64) -> (r:
    i64)
    requires
        0 <= alb <= FP_ONE,
        0 <= diffuse_int <= 12 * FP_ONE as int,
        0 <= spec_strength <= FP_ONE,
        0 <= intensity <= LIGHT_LIMIT,
        0 <= att <= FP_ONE,
    ensures
        r == fpm(fpm((fpm(alb as int, diffuse_int as int) + spec_strength), intensity as int), att as int),
        0 <= r <= 0x2000_0000,
{
    proof {
        lemma_nonneg_product(alb as int, diffuse_int as int);
        assert(FP_ONE as int * (12 * FP_ONE as int) <= 12 * FP_ONE as int * (FP_ONE as int))
            by (nonlinear_arith);
        crate::fixed::lemma_fpm_abs(alb as int, diffuse_int as int, FP_ONE as int, 12 * FP_ONE as int, 12 * FP_ONE as int);
    }
    let base: i64 = fp_mul(alb, diffuse_int) + spec_strength;
    proof {
        lemma_nonneg_product(base as int, intensity as int);
        assert((13 * FP_ONE as int) * LIGHT_LIMIT as int <= 0xD00_0000int * (FP_ONE as int))
            by (nonlinear_arith)
            requires
                LIGHT_LIMIT == 0x100_0000,
                FP_ONE == 65536,
        ;
        crate::fixed::lemma_fpm_abs(base as int, intensity as int, 13 * FP_ONE as int, LIGHT_LIMIT as int, 0xD00_0000);
    }
    let scaled: i64 = fp_mul(base, intensity);
    proof {
        lemma_nonneg_product(scaled as int, att as int);
        assert(0xD00_0000int * (FP_ONE as int) <= 0xD00_0000int * (FP_ONE as int));
        crate::fixed::lemma_fpm_abs(scaled as int, att as int, 0xD00_0000, FP_ONE as int, 0xD00_0000);
    }
    fp_mul(scaled, att)
}

/// The dot product of two vectors bounded by 2.0 is at most 12.
proof fn lemma_dot_unit12(u: Vec3, v: Vec3)
    requires
        vec_bounded(u, 2 * FP_ONE as int),
        vec_bounded(v, 2 * FP_ONE as int),
    ensures
        -12 * FP_ONE as int <= dot_spec(u, v) <= 12 * FP_ONE as int,
{
    assert(-(12 * 65536int * 65536int) <= u.x * v.x + u.y * v.y + u.z * v.z
        <= 12 * 65536int * 65536int) by (nonlinear_arith)
        requires
            vec_bounded(u, 131072int),
            vec_bounded(v, 131072int),
    ;
    assert(12 * FP_ONE as int * (FP_ONE as int) == 12 * 65536int * 65536int)
        by (nonlinear_arith)
        requires
            FP_ONE == 65536,
    ;
    crate::fixed::lemma_fdiv_abs_le(
        u.x * v.x + u.y * v.y + u.z * v.z,
        FP_ONE as int,
        12 * FP_ONE as int,
    );
}

/// The fixed-point product of non-negative scalars is non-negative.
proof fn lemma_nonneg_product(a: int, b: int)
    requires
        0 <= a,
        0 <= b,
    ensures
        0 <= fpm(a, b),
{
    assert(0 <= a * b) by (nonlinear_arith)
        requires
            0 <= a,
            0 <= b,
    ;
    crate::fixed::lemma_fdiv_bounds(a * b, FP_ONE as int, a * b);
}

/// The view direction the integrator hands to the specular term: the
/// reversed unit ray direction, or zero for a degenerate ray.
pub open spec fn view_dir_spec(r: Ray) -> Vec3 {
    if dot_spec(r.direction, r.direction) < 1 {
        Vec3 { x: 0i64, y: 0i64, z: 0i64 }
    } else {
        normalize_spec(crate::vec3::neg_spec(r.direction))
    }
}

/// The shading equation at a hit: one tenth of the albedo as ambient,
/// the shadow-tested direct sum, and the damped indirect radiance.
pub open spec fn shade_hit_spec(w: World, r: Ray, rec: HitRecord, indirect: Color) -> Color {
    let albedo = albedo_spec(w.materials@[rec.mat as int]);
    let direct = direct_sum_spec(w, albedo, rec, view_dir_spec(r), w.lights@);
    Color {
        x: (fpm(albedo.x as int, AMBIENT_WEIGHT as int) + direct.x + fpm(
            indirect.x as int,
            INDIRECT_DAMP as int,
        )) as i64,
        y: (fpm(albedo.y as int, AMBIENT_WEIGHT as int) + direct.y + fpm(
            indirect.y as int,
            INDIRECT_DAMP as int,
        )) as i64,
        z: (fpm(albedo.z as int, AMBIENT_WEIGHT as int) + direct.z + fpm(
            indirect.z as int,
            INDIRECT_DAMP as int,
        )) as i64,
    }
}

/// The sum of every light's direct contribution, in collection order.
pub open spec fn direct_sum_spec(
    w: World,
    albedo: Color,
    rec: HitRecord,
    view_dir: Vec3,
    lights: Seq<Light>,
) -> Color
    decreases lights.len(),
{
    if lights.len() == 0 {
        Color { x: 0i64, y: 0i64, z: 0i64 }
    } else {
        let prev = direct_sum_spec(w, albedo, rec, view_dir, lights.drop_last());
        let one = direct_one_spec(w, albedo, rec, view_dir, lights.last());
        Color {
            x: (prev.x + one.x) as i64,
            y: (prev.y + one.y) as i64,
            z: (prev.z + one.z) as i64,
        }
    }
}

/// Direct lighting at a hit: the per-light contributions summed.
pub fn direct_light(w: &World, albedo: Color, rec: &HitRecord, view_dir: Vec3) -> (c: Color)
    requires
        world_wf(*w),
        crate::material::color_wf(albedo),
        rec_wf(*rec),
        vec_bounded(view_dir, 2 * FP_ONE as int),
        w.lights@.len() <= 64,
    ensures
        c == direct_sum_spec(*w, albedo, *rec, view_dir, w.lights@),
        vec_bounded(c, 0x8_0000_0000),
        0 <= c.x && 0 <= c.y && 0 <= c.z,
{
    let mut acc = Color { x: 0, y: 0, z: 0 };
    let mut i: usize = 0;
    while i < w.lights.len()
        invariant
            world_wf(*w),
            crate::material::color_wf(albedo),
            rec_wf(*rec),
            vec_bounded(view_dir, 2 * FP_ONE as int),
            w.lights@.len() <= 64,
            i <= w.lights@.len(),
            acc == direct_sum_spec(*w, albedo, *rec, view_dir, w.lights@.take(i as int)),
            vec_bounded(acc, 0x2000_0000 * i as int),
            0 <= acc.x && 0 <= acc.y && 0 <= acc.z,
        decreases w.lights@.len() - i,
    {
        let one = direct_light_one(w, albedo, rec, view_dir, &w.lights[i]);
        acc = Color { x: acc.x + one.x, y: acc.y + one.y, z: acc.z + one.z };
        proof {
            assert(w.lights@.take(i as int + 1).drop_last() =~= w.lights@.take(i as int));
            assert(w.lights@.take(i as int + 1).last() == w.lights@[i as int]);
        }
        i += 1;
    }
    proof {
        assert(w.lights@.take(w.lights@.len() as int) =~= w.lights@);
    }
    acc
}

/// The recursive shading function.  Its exact value depends on random
/// sampling, but its contract pins the deterministic cases: an exhausted
/// depth budget is black, a miss is the sky gradient, and every result
/// stays within the radiance range.
#[verifier::rlimit(80)]
pub fn ray_color(r: &Ray, world: &World, depth: u32) -> (c: Color)
    requires
        ray_wf(*r),
        world_wf(*world),
        world.lights@.len() <= 64,
        depth <= 64,
    ensures
        vec_bounded(c, COLOR_LIMIT as int),
        0 <= c.x && 0 <= c.y && 0 <= c.z,
        depth == 0 ==> c == (Color { x: 0i64, y: 0i64, z: 0i64 }),
        depth > 0 ==> match world_hit_spec(*world, *r, T_EPSILON as int, T_INFINITY as int) {
            Some(rec) => if rec.mat < world.materials@.len() {
                exists|ind: Color|
                    #![auto]
                    {
                        &&& vec_bounded(ind, COLOR_LIMIT as int)
                        &&& 0 <= ind.x && 0 <= ind.y && 0 <= ind.z
                        &&& c == shade_hit_spec(*world, *r, rec, ind)
                    }
            } else {
                c == (Color { x: 0i64, y: 0i64, z: 0i64 })
            },
            None => c == background_spec(*r),
        },
    decreases depth,
{
    if depth == 0 {
        return Color { x: 0, y: 0, z: 0 };
    }
    let hit = world.hit(r, T_EPSILON, T_INFINITY);
    match hit {
        None => background(r),
        Some(rec) => {
            proof {
                crate::world::lemma_world_hit_props(
                    *world,
                    *r,
                    T_EPSILON as int,
                    T_INFINITY as int,
                    rec,
                );
            }
            if rec.mat >= world.materials.len() {
                return Color { x: 0, y: 0, z: 0 };
            }
            let albedo = world.materials[rec.mat].albedo();
            proof {
                crate::material::lemma_albedo_wf(world.materials@[rec.mat as int]);
            }
            let dd: i64 = dot(r.direction(), r.direction());
            proof {
                crate::vec3::lemma_dot_self_nonneg(r.direction);
                crate::vec3::lemma_normalize_spec_bounds(r.direction);
            }
            let view_dir: Vec3 = if dd < 1 {
                Vec3 { x: 0, y: 0, z: 0 }
            } else {
                unit_vector(r.direction().neg())
            };
            proof {
                if dd >= 1 {
                    crate::vec3::lemma_normalize_spec_bounds(
                        crate::vec3::neg_spec(r.direction),
                    );
                    lemma_neg_dot_ge(r.direction);
                }
            }
            let direct = direct_light(world, albedo, &rec, view_dir);
            let ambient = albedo.scaled(AMBIENT_WEIGHT);
            proof {
                crate::fixed::lemma_fpm_abs(albedo.x as int, AMBIENT_WEIGHT as int, FP_ONE as int, FP_ONE as int, FP_ONE as int);
                crate::fixed::lemma_fpm_abs(albedo.y as int, AMBIENT_WEIGHT as int, FP_ONE as int, FP_ONE as int, FP_ONE as int);
                crate::fixed::lemma_fpm_abs(albedo.z as int, AMBIENT_WEIGHT as int, FP_ONE as int, FP_ONE as int, FP_ONE as int);
                lemma_nonneg_product(albedo.x as int, AMBIENT_WEIGHT as int);
                lemma_nonneg_product(albedo.y as int, AMBIENT_WEIGHT as int);
                lemma_nonneg_product(albedo.z as int, AMBIENT_WEIGHT as int);
            }
            let indirect: Color = match world.materials[rec.mat].scatter(r, &rec) {
                Some(pair) => {
                    let att = pair.0;
                    let sc = pair.1;
                    let rec_col = ray_color(&sc, world, depth - 1);
                    proof {
                        lemma_times_color_bounded(att, rec_col);
                        lemma_nonneg_product(att.x as int, rec_col.x as int);
                        lemma_nonneg_product(att.y as int, rec_col.y as int);
                        lemma_nonneg_product(att.z as int, rec_col.z as int);
                    }
                    att.times(&rec_col)
                },
                None => Color { x: 0, y: 0, z: 0 },
            };
            let damped = indirect.scaled(INDIRECT_DAMP);
            proof {
                lemma_damp_bounded(indirect);
                lemma_nonneg_product(indirect.x as int, INDIRECT_DAMP as int);
                lemma_nonneg_product(indirect.y as int, INDIRECT_DAMP as int);
                lemma_nonneg_product(indirect.z as int, INDIRECT_DAMP as int);
            }
            let out = Color {
                x: ambient.x + direct.x + damped.x,
                y: ambient.y + direct.y + damped.y,
                z: ambient.z + direct.z + damped.z,
            };
            proof {
                assert(view_dir == view_dir_spec(*r));
                assert(out == shade_hit_spec(*world, *r, rec, indirect));
                assert(exists|ind: Color|
                    #![auto]
                    {
                        &&& vec_bounded(ind, COLOR_LIMIT as int)
                        &&& 0 <= ind.x && 0 <= ind.y && 0 <= ind.z
                        &&& out == shade_hit_spec(*world, *r, rec, ind)
                    }) by {
                    assert({
                        &&& vec_bounded(indirect, COLOR_LIMIT as int)
                        &&& 0 <= indirect.x && 0 <= indirect.y && 0 <= indirect.z
                        &&& out == shade_hit_spec(*world, *r, rec, indirect)
                    });
                }
            }
            out
        },
    }
}

/// Negating a vector of at least unit squared length keeps that length.
proof fn lemma_neg_dot_ge(d: Vec3)
    requires
        vec_bounded(d, 0x2000_0000_0000_0000),
        dot_spec(d, d) >= 1,
    ensures
        dot_spec(crate::vec3::neg_spec(d), crate::vec3::neg_spec(d)) >= 1,
{
    let n = crate::vec3::neg_spec(d);
    assert(n.x * n.x == d.x * d.x && n.y * n.y == d.y * d.y && n.z * n.z == d.z * d.z)
        by (nonlinear_arith)
        requires
            n.x == -d.x,
            n.y == -d.y,
            n.z == -d.z,
    ;
}

/// Filtering a radiance-bounded colour by a unit-interval attenuation
/// keeps it radiance-bounded.
proof fn lemma_times_color_bounded(att: Color, c: Color)
    requires
        crate::material::color_wf(att),
        vec_bounded(c, COLOR_LIMIT as int),
    ensures
        -COLOR_LIMIT as int <= fpm(att.x as int, c.x as int) <= COLOR_LIMIT as int,
        -COLOR_LIMIT as int <= fpm(att.y as int, c.y as int) <= COLOR_LIMIT as int,
        -COLOR_LIMIT as int <= fpm(att.z as int, c.z as int) <= COLOR_LIMIT as int,
{
    assert(FP_ONE as int * COLOR_LIMIT as int <= COLOR_LIMIT as int * (FP_ONE as int))
        by (nonlinear_arith);
    crate::fixed::lemma_fpm_abs(att.x as int, c.x as int, FP_ONE as int, COLOR_LIMIT as int, COLOR_LIMIT as int);
    crate::fixed::lemma_fpm_abs(att.y as int, c.y as int, FP_ONE as int, COLOR_LIMIT as int, COLOR_LIMIT as int);
    crate::fixed::lemma_fpm_abs(att.z as int, c.z as int, FP_ONE as int, COLOR_LIMIT as int, COLOR_LIMIT as int);
}

/// Damping a radiance-bounded colour by 0.8 leaves room for the ambient
/// and direct terms.
proof fn lemma_damp_bounded(c: Color)
    requires
        vec_bounded(c, COLOR_LIMIT as int),
    ensures
        -0x34_0000_0000 <= fpm(c.x as int, INDIRECT_DAMP as int) <= 0x34_0000_0000,
        -0x34_0000_0000 <= fpm(c.y as int, INDIRECT_DAMP as int) <= 0x34_0000_0000,
        -0x34_0000_0000 <= fpm(c.z as int, INDIRECT_DAMP as int) <= 0x34_0000_0000,
{
    assert(COLOR_LIMIT as int * (INDIRECT_DAMP as int) <= 0x34_0000_0000int * (FP_ONE as int))
        by (nonlinear_arith)
        requires
            COLOR_LIMIT == 0x40_0000_0000,
            INDIRECT_DAMP == 52429,
            FP_ONE == 65536,
    ;
    crate::fixed::lemma_fpm_abs(c.x as int, INDIRECT_DAMP as int, COLOR_LIMIT as int, INDIRECT_DAMP as int, 0x34_0000_0000);
    crate::fixed::lemma_fpm_abs(c.y as int, INDIRECT_DAMP as int, COLOR_LIMIT as int, INDIRECT_DAMP as int, 0x34_0000_0000);
    crate::fixed::lemma_fpm_abs(c.z as int, INDIRECT_DAMP as int, COLOR_LIMIT as int, INDIRECT_DAMP as int, 0x34_0000_0000);
}

/// Add two colours channel by channel, clamping into the unit interval.
pub fn clamp_add(color1: &Color, color2: &Color) -> (r: Color)
    requires
        vec_bounded(*color1, 0x1000_0000_0000_0000),
        vec_bounded(*color2, 0x1000_0000_0000_0000),
    ensures
        r.x == clamp_unit(color1.x + color2.x),
        r.y == clamp_unit(color1.y + color2.y),
        r.z == clamp_unit(color1.z + color2.z),
{
    Color {
        x: fp_clamp(color1.x + color2.x, 0, FP_ONE),
        y: fp_clamp(color1.y + color2.y, 0, FP_ONE),
        z: fp_clamp(color1.z + color2.z, 0, FP_ONE),
    }
}

/// Clamp a scalar into the unit interval.
pub open spec fn clamp_unit(x: int) -> int {
    if x < 0 {
        0
    } else if x > FP_ONE {
        FP_ONE as int
    } else {
        x
    }
}

/// The exact quantization of one accumulated channel: average over the
/// samples, gamma-correct by square root, clamp just below one, widen to
/// an 8-bit value.
pub open spec fn quantize_spec(c: int, samples: int) -> int {
    let avg = fdiv(c, samples);
    let nn = if avg < 0 {
        0
    } else {
        avg
    };
    let g = sqrt_floor(nn * FP_ONE as int);
    let cl = if g > CLAMP_MAX {
        CLAMP_MAX as int
    } else {
        g
    };
    fdiv(cl * 256, FP_ONE as int)
}

/// Quantize one accumulated channel to 8 bits.
pub fn quantize_channel(c: i64, samples: u32) -> (r: u8)
    requires
        1 <= samples <= 1024,
        -0x4_0000_0000_0000 <= c <= 0x4_0000_0000_0000,
    ensures
        r == quantize_spec(c as int, samples as int),
{
    let avg128: i128 = crate::fixed::floor_div_i128(c as i128, samples as i128);
    proof {
        crate::fixed::lemma_fdiv_bounds(c as int, samples as int, 0x4_0000_0000_0000);
    }
    let avg: i64 = avg128 as i64;
    let nn: i64 = if avg < 0 {
        0
    } else {
        avg
    };
    let g: i64 = fp_sqrt(nn);
    let cl: i64 = if g > CLAMP_MAX {
        CLAMP_MAX
    } else {
        g
    };
    proof {
        assert(fdiv(cl as int * 256, FP_ONE as int) <= 255) by {
            crate::fixed::lemma_fdiv_mono(cl as int * 256, 0xFF_C000, FP_ONE as int);
            assert(fdiv(0xFF_C000, FP_ONE as int) == 255) by {
                vstd::arithmetic::div_mod::lemma_fundamental_div_mod_converse(
                    0xFF_C000,
                    65536,
                    255,
                    49152,
                );
            }
        }
        crate::fixed::lemma_fdiv_bounds(cl as int * 256, FP_ONE as int, 0xFF_C000);
    }
    let out128: i128 = crate::fixed::floor_div_i128((cl as i128) * 256, FP_ONE as i128);
    out128 as u8
}

/// Quantize an accumulated pixel colour.
pub fn quantize_color(c: Color, samples: u32) -> (r: (u8, u8, u8))
    requires
        1 <= samples <= 1024,
        vec_bounded(c, 0x4_0000_0000_0000),
    ensures
        r.0 == quantize_spec(c.x as int, samples as int),
        r.1 == quantize_spec(c.y as int, samples as int),
        r.2 == quantize_spec(c.z as int, samples as int),
{
    (
        quantize_channel(c.x, samples),
        quantize_channel(c.y, samples),
        quantize_channel(c.z, samples),
    )
}

/// A jittered normalized coordinate for cell `i` of an axis with `n`
/// cells: the cell index plus a sub-unit random offset, over the axis
/// span, exactly as the sampling loop computes it.
pub open spec fn jitter_ok(u: int, i: int, n: int) -> bool {
    exists|j: int| 0 <= j < FP_ONE && u == #[trigger] fdiv(i * FP_ONE + j, n - 1)
}

/// What the integrator guarantees of one radiance sample: bounded,
/// non-negative, black at an exhausted depth, the sky gradient on a
/// miss, and the shading equation (for some admissible indirect term)
/// on a hit.
pub open spec fn sample_ok(c: Color, w: World, r: Ray, depth: int) -> bool {
    &&& vec_bounded(c, COLOR_LIMIT as int)
    &&& 0 <= c.x && 0 <= c.y && 0 <= c.z
    &&& depth == 0 ==> c == (Color { x: 0i64, y: 0i64, z: 0i64 })
    &&& depth > 0 ==> match world_hit_spec(w, r, T_EPSILON as int, T_INFINITY as int) {
        Some(rec) => if rec.mat < w.materials@.len() {
            exists|ind: Color|
                #![auto]
                {
                    &&& vec_bounded(ind, COLOR_LIMIT as int)
                    &&& 0 <= ind.x && 0 <= ind.y && 0 <= ind.z
                    &&& c == shade_hit_spec(w, r, rec, ind)
                }
        } else {
            c == (Color { x: 0i64, y: 0i64, z: 0i64 })
        },
        None => c == background_spec(r),
    }
}

/// The componentwise sum of a sample sequence.
pub open spec fn color_sum_spec(s: Seq<Color>) -> Color
    decreases s.len(),
{
    if s.len() == 0 {
        Color { x: 0i64, y: 0i64, z: 0i64 }
    } else {
        let prev = color_sum_spec(s.drop_last());
        Color {
            x: (prev.x + s.last().x) as i64,
            y: (prev.y + s.last().y) as i64,
            z: (prev.z + s.last().z) as i64,
        }
    }
}

/// One pixel at column `i` of image row `row`: there is a sequence of
/// `samples_per_pixel` radiance samples, each the shaded value of a
/// jittered camera ray through that pixel's cell, whose sum this pixel
/// quantizes.
pub open spec fn pixel_ok(
    px: (u8, u8, u8),
    w: World,
    cam: Camera,
    cfg: RenderConfig,
    i: int,
    row: int,
) -> bool {
    exists|smp: Seq<Color>|
        #![auto]
        {
            &&& smp.len() == cfg.samples_per_pixel
            &&& (forall|k: int|
                0 <= k < smp.len() ==> exists|u: int, v: int|
                    #![auto]
                    {
                        &&& jitter_ok(u, i, cfg.width as int)
                        &&& jitter_ok(v, cfg.height as int - 1 - row, cfg.height as int)
                        &&& sample_ok(
                            #[trigger] smp[k],
                            w,
                            get_ray_spec(cam, u, v),
                            cfg.max_depth as int,
                        )
                    })
            &&& px.0 == quantize_spec(
                color_sum_spec(smp).x as int,
                cfg.samples_per_pixel as int,
            )
            &&& px.1 == quantize_spec(
                color_sum_spec(smp).y as int,
                cfg.samples_per_pixel as int,
            )
            &&& px.2 == quantize_spec(
                color_sum_spec(smp).z as int,
                cfg.samples_per_pixel as int,
            )
        }
}

/// A rendered row for image row `row`: configured width, and every pixel
/// quantizes the shaded samples of its own cell.
pub open spec fn row_ok(
    rowv: Vec<(u8, u8, u8)>,
    w: World,
    cam: Camera,
    cfg: RenderConfig,
    row: int,
) -> bool {
    &&& rowv@.len() == cfg.width
    &&& forall|i: int| 0 <= i < rowv@.len() ==> pixel_ok(#[trigger] rowv@[i], w, cam, cfg, i, row)
}

/// Render one image row (row 0 is the top of the picture): for each
/// pixel, accumulate `samples_per_pixel` jittered radiance samples and
/// quantize their sum.
#[verifier::rlimit(100)]
pub fn render_row(world: &World, camera: &Camera, cfg: &RenderConfig, row: usize) -> (out: Vec<
    (u8, u8, u8),
>)
    requires
        world_wf(*world),
        camera_wf(*camera),
        config_wf(*cfg),
        world.lights@.len() <= 64,
        row < cfg.height,
    ensures
        row_ok(out, *world, *camera, *cfg, row as int),
        out@.len() == cfg.width,
{
    let mut out: Vec<(u8, u8, u8)> = Vec::new();
    let jj: usize = cfg.height - 1 - row;
    let mut i: usize = 0;
    while i < cfg.width
        invariant
            world_wf(*world),
            camera_wf(*camera),
            config_wf(*cfg),
            world.lights@.len() <= 64,
            row < cfg.height,
            jj == cfg.height - 1 - row,
            out@.len() == i,
            i <= cfg.width,
            forall|j: int| 0 <= j < out@.len() ==> pixel_ok(
                #[trigger] out@[j],
                *world,
                *camera,
                *cfg,
                j,
                row as int,
            ),
        decreases cfg.width - i,
    {
        let mut acc = Color { x: 0, y: 0, z: 0 };
        let ghost mut smp: Seq<Color> = Seq::empty();
        let mut s: u32 = 0;
        while s < cfg.samples_per_pixel
            invariant
                world_wf(*world),
                camera_wf(*camera),
                config_wf(*cfg),
                world.lights@.len() <= 64,
                row < cfg.height,
                jj == cfg.height - 1 - row,
                i < cfg.width,
                s <= cfg.samples_per_pixel,
                smp.len() == s,
                acc == color_sum_spec(smp),
                vec_bounded(acc, s as int * COLOR_LIMIT as int),
                0 <= acc.x && 0 <= acc.y && 0 <= acc.z,
                forall|k: int|
                    0 <= k < smp.len() ==> exists|u: int, v: int|
                        #![auto]
                        {
                            &&& jitter_ok(u, i as int, cfg.width as int)
                            &&& jitter_ok(
                                v,
                                cfg.height as int - 1 - row,
                                cfg.height as int,
                            )
                            &&& sample_ok(
                                #[trigger] smp[k],
                                *world,
                                get_ray_spec(*camera, u, v),
                                cfg.max_depth as int,
                            )
                        },
            decreases cfg.samples_per_pixel - s,
        {
            let u: i64 = pixel_coord(i, cfg.width);
            let v: i64 = pixel_coord(jj, cfg.height);
            let ray = camera.get_ray(u, v);
            let c = ray_color(&ray, world, cfg.max_depth);
            proof {
                assert(ray == get_ray_spec(*camera, u as int, v as int));
                assert(sample_ok(c, *world, get_ray_spec(*camera, u as int, v as int), cfg.max_depth as int));
            }
            let ghost prev = smp;
            acc = Color { x: acc.x + c.x, y: acc.y + c.y, z: acc.z + c.z };
            proof {
                smp = smp.push(c);
                assert(smp.drop_last() =~= prev);
                assert(smp.last() == c);
                assert(acc == color_sum_spec(smp));
                assert forall|k: int| 0 <= k < smp.len() implies exists|uu: int, vv: int|
                    #![auto]
                    {
                        &&& jitter_ok(uu, i as int, cfg.width as int)
                        &&& jitter_ok(vv, cfg.height as int - 1 - row, cfg.height as int)
                        &&& sample_ok(
                            #[trigger] smp[k],
                            *world,
                            get_ray_spec(*camera, uu, vv),
                            cfg.max_depth as int,
                        )
                    } by {
                    if k < prev.len() {
                        assert(smp[k] == prev[k]);
                    } else {
                        assert(smp[k] == c);
                        assert(jitter_ok(u as int, i as int, cfg.width as int) && jitter_ok(
                            v as int,
                            cfg.height as int - 1 - row,
                            cfg.height as int,
                        ) && sample_ok(
                            smp[k],
                            *world,
                            get_ray_spec(*camera, u as int, v as int),
                            cfg.max_depth as int,
                        ));
                    }
                }
            }
            s += 1;
        }
        proof {
            assert(s as int * COLOR_LIMIT as int <= 1024 * COLOR_LIMIT as int)
                by (nonlinear_arith)
                requires
                    s <= 1024,
                    COLOR_LIMIT == 0x40_0000_0000,
            ;
        }
        let pixel = quantize_color(acc, cfg.samples_per_pixel);
        proof {
            assert(pixel_ok(pixel, *world, *camera, *cfg, i as int, row as int)) by {
                assert({
                    &&& smp.len() == cfg.samples_per_pixel
                    &&& pixel.0 == quantize_spec(
                        color_sum_spec(smp).x as int,
                        cfg.samples_per_pixel as int,
                    )
                    &&& pixel.1 == quantize_spec(
                        color_sum_spec(smp).y as int,
                        cfg.samples_per_pixel as int,
                    )
                    &&& pixel.2 == quantize_spec(
                        color_sum_spec(smp).z as int,
                        cfg.samples_per_pixel as int,
                    )
                });
            }
        }
        out.push(pixel);
        i += 1;
    }
    out
}

/// The jittered normalized coordinate of pixel `i` on an axis with `n`
/// pixels: `(i + random) / (n - 1)`, always within `[0, 2]`.
fn pixel_coord(i: usize, n: usize) -> (u: i64)
    requires
        2 <= n <= 4096,
        i < n,
    ensures
        0 <= u <= 2 * FP_ONE as int,
        jitter_ok(u as int, i as int, n as int),
{
    let jitter: i64 = crate::rng::random_double();
    let num: i64 = (i as i64) * 65536 + jitter;
    proof {
        assert(0 <= i as int * 65536 <= 4095 * 65536) by (nonlinear_arith)
            requires
                0 <= i < 4096,
        ;
        assert(num as int <= 2 * FP_ONE as int * (n as int - 1)) by (nonlinear_arith)
            requires
                num as int <= (n as int - 1) * 65536 + 65536,
                2 <= n,
                FP_ONE == 65536,
        ;
        crate::fixed::lemma_fdiv_bounds(num as int, n as int - 1, 0x1000_0000);
        crate::fixed::lemma_fdiv_abs_le(num as int, n as int - 1, 2 * FP_ONE as int);
    }
    let q: i128 = crate::fixed::floor_div_i128(num as i128, (n as i128) - 1);
    proof {
        assert(jitter_ok(q as int, i as int, n as int)) by {
            assert(0 <= jitter < FP_ONE && q as int == fdiv(
                i as int * FP_ONE + jitter,
                n as int - 1,
            ));
        }
    }
    q as i64
}

/// Every row of a rendered buffer is the render of its own image row:
/// configured width, pixels quantizing the shaded samples of their
/// cells, in top-to-bottom row order.
pub open spec fn rows_ok(rows: Seq<Vec<(u8, u8, u8)>>, w: World, cam: Camera, cfg: RenderConfig)
    -> bool {
    forall|i: int| 0 <= i < rows.len() ==> row_ok(#[trigger] rows[i], w, cam, cfg, i)
}

/// Relies on rayon's `into_par_iter` over a range, `map` and `collect`:
/// the closure runs once per row index and `collect` keeps index order,
/// so the buffer is one verified `render_row` result per image row, in
/// order — each row therefore satisfies `render_row`'s own
/// postcondition (`row_ok`).  Scene, camera and configuration are
/// shared read-only.
#[verifier::external_body]
fn par_render_rows(world: &World, camera: &Camera, cfg: &RenderConfig) -> (rows: Vec<
    Vec<(u8, u8, u8)>,
>)
    requires
        world_wf(*world),
        camera_wf(*camera),
        config_wf(*cfg),
        world.lights@.len() <= 64,
    ensures
        rows@.len() == cfg.height,
        rows_ok(rows@, *world, *camera, *cfg),
{
    (0..cfg.height).into_par_iter().map(|row| render_row(world, camera, cfg, row)).collect()
}

/// A renderer owns the camera and the scene it draws.
pub struct Renderer {
    pub camera: Camera,
    pub world: World,
}

impl Renderer {
    pub fn new(camera: Camera, world: World) -> (r: Renderer)
        ensures
            r.camera == camera,
            r.world == world,
    {
        Renderer { camera, world }
    }

    /// Render the scene into a row-major pixel buffer, top row first,
    /// fanning the rows out across a thread pool.
    pub fn render_scene(&self, cfg: &RenderConfig) -> (rows: Vec<Vec<(u8, u8, u8)>>)
        requires
            world_wf(self.world),
            camera_wf(self.camera),
            config_wf(*cfg),
            self.world.lights@.len() <= 64,
        ensures
            rows@.len() == cfg.height,
            rows_ok(rows@, self.world, self.camera, *cfg),
    {
        par_render_rows(&self.world, &self.camera, cfg)
    }
}

} // verus!
