//! The material model: diffuse, metallic, dielectric and textured
//! scattering.

use vstd::prelude::*;

verus! {

use crate::fixed::{
    fdiv, fpm, fpd, sqrt_floor, fp_mul, fp_div, fp_clamp, FP_ONE, FP_HALF,
};
use crate::vec3::{
    Vec3, Point3, Color, vec_bounded, vec_in_range, dot_spec, neg_spec, normalize_spec,
    reflect_spec, refract_spec, dot, reflect, refract, unit_vector, random_unit_vector,
    random_in_unit_sphere,
};
use crate::ray::{Ray, ray_wf};
use crate::hit::{HitRecord, rec_wf};
use crate::texture::{Texture, texture_wf, sample_spec};

#[derive(Clone, Debug)]
pub enum Material {
    /// Diffuse scattering with a fixed albedo.
    Lambertian { albedo: Color },
    /// Mirror reflection, perturbed by `fuzz` times a random point of the
    /// unit sphere.
    Metal { albedo: Color, fuzz: i64 },
    /// A dielectric: refracts or reflects, by total internal reflection
    /// or a Schlick-probability draw.
    Glass { albedo: Color, refractive_index: i64 },
    /// Diffuse scattering whose attenuation is sampled from an image.
    Textured { texture: Texture },
}

/// A colour whose channels lie in `[0, 1]`.
pub open spec fn color_wf(c: Color) -> bool {
    &&& 0 <= c.x <= FP_ONE
    &&& 0 <= c.y <= FP_ONE
    &&& 0 <= c.z <= FP_ONE
}

pub open spec fn mat_wf(m: Material) -> bool {
    match m {
        Material::Lambertian { albedo } => color_wf(albedo),
        Material::Metal { albedo, fuzz } => color_wf(albedo) && 0 <= fuzz <= FP_ONE,
        Material::Glass { albedo, refractive_index } => color_wf(albedo) && FP_HALF
            <= refractive_index <= 16 * FP_ONE as int,
        Material::Textured { texture } => texture_wf(texture),
    }
}

/// The base reflectance a material reports (white for textured surfaces,
/// whose colour varies by position).
pub open spec fn albedo_spec(m: Material) -> Color {
    match m {
        Material::Lambertian { albedo } => albedo,
        Material::Metal { albedo, .. } => albedo,
        Material::Glass { albedo, .. } => albedo,
        Material::Textured { .. } => Color { x: FP_ONE, y: FP_ONE, z: FP_ONE },
    }
}

/// The exact Schlick reflectance: `r0 + (1 - r0) * (1 - cos)^5` with
/// `r0 = ((1 - n) / (1 + n))^2`.
pub open spec fn schlick_spec(cosine: int, ref_idx: int) -> int {
    let r0a = fpd(FP_ONE - ref_idx, FP_ONE + ref_idx);
    let r0 = fpm(r0a, r0a);
    let p = FP_ONE - cosine;
    let p2 = fpm(p, p);
    let p4 = fpm(p2, p2);
    let p5 = fpm(p4, p);
    r0 + fpm(FP_ONE - r0, p5)
}

/// The Schlick reflection probability for a cosine in `[0, 1]`.
pub fn schlick(cosine: i64, ref_idx: i64) -> (r: i64)
    requires
        0 <= cosine <= FP_ONE,
        FP_HALF <= ref_idx <= 16 * FP_ONE as int,
    ensures
        r == schlick_spec(cosine as int, ref_idx as int),
        0 <= r <= FP_ONE,
{
    let r0a: i64 = fp_div(FP_ONE - ref_idx, FP_ONE + ref_idx);
    proof {
        lemma_unit_ratio(ref_idx as int);
    }
    let r0: i64 = fp_mul(r0a, r0a);
    proof {
        lemma_unit_square(r0a as int);
    }
    let p: i64 = FP_ONE - cosine;
    let p2: i64 = fp_mul(p, p);
    proof {
        lemma_unit_product(p as int, p as int);
    }
    let p4: i64 = fp_mul(p2, p2);
    proof {
        lemma_unit_product(p2 as int, p2 as int);
    }
    let p5: i64 = fp_mul(p4, p);
    proof {
        lemma_unit_product(p4 as int, p as int);
        lemma_unit_product(FP_ONE - r0, p5 as int);
        lemma_result_le_one(r0 as int, p5 as int);
    }
    r0 + fp_mul(FP_ONE - r0, p5)
}

/// Unit-interval products are monotone in both factors.
proof fn lemma_unit_product_mono(a1: int, a2: int, b1: int, b2: int)
    requires
        0 <= a1 <= a2 <= FP_ONE,
        0 <= b1 <= b2 <= FP_ONE,
    ensures
        fpm(a1, b1) <= fpm(a2, b2),
{
    assert(a1 * b1 <= a2 * b2) by (nonlinear_arith)
        requires
            0 <= a1 <= a2,
            0 <= b1 <= b2,
    ;
    crate::fixed::lemma_fdiv_mono(a1 * b1, a2 * b2, FP_ONE as int);
}

/// Reflectance rises towards grazing incidence: the Schlick probability
/// never decreases as the incidence cosine falls.
pub proof fn lemma_schlick_monotone(cos1: int, cos2: int, ref_idx: int)
    requires
        0 <= cos1 <= cos2 <= FP_ONE,
        FP_HALF <= ref_idx <= 16 * FP_ONE as int,
    ensures
        schlick_spec(cos2, ref_idx) <= schlick_spec(cos1, ref_idx),
{
    lemma_unit_ratio(ref_idx);
    let r0a = fpd(FP_ONE - ref_idx, FP_ONE + ref_idx);
    lemma_unit_square(r0a);
    let r0 = fpm(r0a, r0a);
    let p1 = FP_ONE - cos1;
    let p2 = FP_ONE - cos2;
    lemma_unit_product_mono(p2, p1, p2, p1);
    let q1 = fpm(p1, p1);
    let q2 = fpm(p2, p2);
    lemma_unit_product(p1 as int, p1 as int);
    lemma_unit_product(p2 as int, p2 as int);
    lemma_unit_product_mono(q2, q1, q2, q1);
    let s1 = fpm(q1, q1);
    let s2 = fpm(q2, q2);
    lemma_unit_product(q1, q1);
    lemma_unit_product(q2, q2);
    lemma_unit_product_mono(s2, s1, p2, p1);
    let f1 = fpm(s1, p1);
    let f2 = fpm(s2, p2);
    lemma_unit_product(s1, p1 as int);
    lemma_unit_product(s2, p2 as int);
    lemma_unit_product_mono(FP_ONE - r0, FP_ONE - r0, f2, f1);
}

/// A ratio `(1 - n) / (1 + n)` with positive `n` has magnitude at most 1.
proof fn lemma_unit_ratio(n: int)
    requires
        0 < n,
    ensures
        -FP_ONE <= fpd(FP_ONE - n, FP_ONE + n) <= FP_ONE,
{
    assert(-((FP_ONE as int) * (FP_ONE + n)) <= (FP_ONE - n) * FP_ONE as int
        <= (FP_ONE as int) * (FP_ONE + n)) by (nonlinear_arith)
        requires
            0 < n,
            FP_ONE == 65536,
    ;
    crate::fixed::lemma_fdiv_abs_le((FP_ONE - n) * FP_ONE as int, FP_ONE + n, FP_ONE as int);
}

/// The square of a magnitude-bounded ratio lies in `[0, 1]`.
proof fn lemma_unit_square(a: int)
    requires
        -FP_ONE <= a <= FP_ONE,
    ensures
        0 <= fpm(a, a) <= FP_ONE,
{
    assert(0 <= a * a <= FP_ONE as int * FP_ONE as int) by (nonlinear_arith)
        requires
            -65536 <= a <= 65536,
            FP_ONE == 65536,
    ;
    crate::fixed::lemma_fdiv_bounds(a * a, FP_ONE as int, FP_ONE as int * FP_ONE as int);
    crate::fixed::lemma_fdiv_abs_le(a * a, FP_ONE as int, FP_ONE as int);
}

/// The product of two unit-interval scalars lies in `[0, 1]`.
pub proof fn lemma_unit_product(a: int, b: int)
    requires
        0 <= a <= FP_ONE,
        0 <= b <= FP_ONE,
    ensures
        0 <= fpm(a, b) <= FP_ONE,
        fpm(a, b) <= a,
{
    assert(0 <= a * b <= FP_ONE as int * FP_ONE as int && a * b <= a * FP_ONE as int)
        by (nonlinear_arith)
        requires
            0 <= a <= 65536,
            0 <= b <= 65536,
            FP_ONE == 65536,
    ;
    crate::fixed::lemma_fdiv_bounds(a * b, FP_ONE as int, FP_ONE as int * FP_ONE as int);
    crate::fixed::lemma_fdiv_abs_le(a * b, FP_ONE as int, FP_ONE as int);
    crate::fixed::lemma_fdiv_abs_le(a * b, FP_ONE as int, a);
}

/// Blending towards 1 by a unit-interval exponent term stays in `[0, 1]`.
proof fn lemma_result_le_one(r0: int, p5: int)
    requires
        0 <= r0 <= FP_ONE,
        0 <= p5 <= FP_ONE,
    ensures
        0 <= r0 + fpm(FP_ONE - r0, p5) <= FP_ONE,
{
    lemma_unit_product(FP_ONE - r0, p5);
}

/// What every scattered ray satisfies: it starts at the hit point and is
/// well-formed.
pub open spec fn scattered_ok(sc: Ray, p: Point3) -> bool {
    &&& sc.origin == p
    &&& ray_wf(sc)
}

/// The diffuse scatter direction: the surface normal plus a sampled
/// direction, falling back to the normal itself when the sum vanishes.
pub open spec fn diffuse_dir_spec(n: Vec3, u: Vec3) -> Vec3 {
    let d = Vec3 { x: (n.x + u.x) as i64, y: (n.y + u.y) as i64, z: (n.z + u.z) as i64 };
    if d.x == 0 && d.y == 0 && d.z == 0 {
        n
    } else {
        d
    }
}

/// The metal scatter direction: the mirror reflection of the unit
/// incident direction, perturbed by `fuzz` times a sampled point of the
/// unit sphere.
pub open spec fn metal_dir_spec(unit_in: Vec3, n: Vec3, fuzz: int, p0: Vec3) -> Vec3 {
    let refl = reflect_spec(unit_in, n);
    Vec3 {
        x: (refl.x + fpm(p0.x as int, fuzz)) as i64,
        y: (refl.y + fpm(p0.y as int, fuzz)) as i64,
        z: (refl.z + fpm(p0.z as int, fuzz)) as i64,
    }
}

/// The dielectric's outgoing ray is either the mirror reflection (the
/// ray stays in its medium and keeps its index) or the refraction (the
/// ray crosses the surface and carries the index of the medium it is
/// now travelling in).  `rec.front_face` decides entering against
/// exiting: entering refracts from the carried index into the glass,
/// exiting refracts from the glass back into the outer medium (index
/// one).  The record normal already faces against the incoming ray, so
/// it serves both cases unflipped.
pub open spec fn glass_direction_ok(ior: int, r_in: Ray, rec: HitRecord, out: Ray) -> bool {
    let incident = normalize_spec(r_in.direction);
    let eta_i = if rec.front_face {
        r_in.current_ior as int
    } else {
        ior
    };
    let eta_t = if rec.front_face {
        ior
    } else {
        FP_ONE as int
    };
    let eta = fpd(eta_i, eta_t);
    ||| (out.direction == reflect_spec(incident, rec.normal) && out.current_ior
        == r_in.current_ior)
    ||| (refract_spec(incident, rec.normal, eta) == Some(out.direction) && out.current_ior == (
        if rec.front_face {
            ior
        } else {
            FP_ONE as int
        }
    ))
}

/// When refraction exists and the Schlick probability is exactly zero,
/// the dielectric's outcome is forced: it transmits.  In particular a
/// perpendicular crossing between equal indices — and every
/// perpendicular exit into the outer medium — transmits with
/// probability one (`lemma_schlick_normal_incidence`).
pub open spec fn glass_transmits_when_certain(
    ior: int,
    r_in: Ray,
    rec: HitRecord,
    out: Ray,
) -> bool {
    let incident = normalize_spec(r_in.direction);
    let eta_i = if rec.front_face {
        r_in.current_ior as int
    } else {
        ior
    };
    let eta_t = if rec.front_face {
        ior
    } else {
        FP_ONE as int
    };
    let eta = fpd(eta_i, eta_t);
    let cos2 = dot_spec(neg_spec(incident), rec.normal);
    let cc = if cos2 < 0 {
        0int
    } else if cos2 > FP_ONE {
        FP_ONE as int
    } else {
        cos2
    };
    (refract_spec(incident, rec.normal, eta) is Some && schlick_spec(cc, eta_t) == 0)
        ==> (refract_spec(incident, rec.normal, eta) == Some(out.direction) && out.current_ior
        == (
        if rec.front_face {
            ior
        } else {
            FP_ONE as int
        }
    ))
}

impl Material {
    /// The base reflectance colour.
    pub fn albedo(&self) -> (c: Color)
        ensures
            c == albedo_spec(*self),
    {
        match self {
            Material::Lambertian { albedo } => *albedo,
            Material::Metal { albedo, .. } => *albedo,
            Material::Glass { albedo, .. } => *albedo,
            Material::Textured { .. } => Color { x: FP_ONE, y: FP_ONE, z: FP_ONE },
        }
    }

    /// Scatter the incoming ray at a hit: the attenuation colour and the
    /// outgoing ray, or `None` when the ray is absorbed.
    pub fn scatter(&self, r_in: &Ray, rec: &HitRecord) -> (res: Option<(Color, Ray)>)
        requires
            mat_wf(*self),
            ray_wf(*r_in),
            rec_wf(*rec),
        ensures
            res matches Some(p) ==> scattered_ok(p.1, rec.p) && color_wf(p.0),
            match *self {
                Material::Lambertian { albedo } => res matches Some(p) && p.0 == albedo
                    && p.1.current_ior == FP_ONE && (exists|u: Vec3|
                    #![auto]
                    vec_bounded(u, 2 * FP_ONE as int) && p.1.direction == diffuse_dir_spec(
                        rec.normal,
                        u,
                    )),
                Material::Metal { albedo, fuzz } => {
                    &&& (res matches Some(p) ==> p.0 == albedo && p.1.current_ior == FP_ONE
                        && dot_spec(p.1.direction, rec.normal) > 0 && (exists|q: Vec3|
                        #![auto]
                        dot_spec(q, q) < FP_ONE && p.1.direction == metal_dir_spec(
                            normalize_spec(r_in.direction),
                            rec.normal,
                            fuzz as int,
                            q,
                        )))
                    &&& (dot_spec(r_in.direction, r_in.direction) >= 1 && res is None
                        ==> exists|q: Vec3|
                        #![auto]
                        dot_spec(q, q) < FP_ONE && dot_spec(
                            metal_dir_spec(
                                normalize_spec(r_in.direction),
                                rec.normal,
                                fuzz as int,
                                q,
                            ),
                            rec.normal,
                        ) <= 0)
                },
                Material::Glass { albedo, refractive_index } => {
                    &&& (res matches Some(p) ==> p.0 == albedo && glass_direction_ok(
                        refractive_index as int,
                        *r_in,
                        *rec,
                        p.1,
                    ) && glass_transmits_when_certain(
                        refractive_index as int,
                        *r_in,
                        *rec,
                        p.1,
                    ))
                    &&& (dot_spec(r_in.direction, r_in.direction) >= 1 ==> res is Some)
                },
                Material::Textured { texture } => res matches Some(p) && p.0 == sample_spec(
                    texture,
                    rec.u,
                    rec.v,
                ) && p.1.current_ior == FP_ONE && (exists|u: Vec3|
                    #![auto]
                    vec_bounded(u, 2 * FP_ONE as int) && p.1.direction == diffuse_dir_spec(
                        rec.normal,
                        u,
                    )),
            },
    {
        match self {
            Material::Lambertian { albedo } => {
                let rnd = random_unit_vector();
                let mut dir = rec.normal.plus(&rnd);
                if dir.near_zero() {
                    dir = rec.normal;
                }
                proof {
                    lemma_diffuse_witness(rec.normal, rnd, dir);
                }
                Some((*albedo, Ray::new(rec.p, dir)))
            },
            Material::Metal { albedo, fuzz } => {
                let dd: i64 = dot(r_in.direction(), r_in.direction());
                proof {
                    crate::vec3::lemma_dot_self_nonneg(r_in.direction);
                }
                if dd < 1 {
                    return None;
                }
                let unit_in = unit_vector(r_in.direction());
                let reflected = reflect(unit_in, rec.normal);
                let fz = random_in_unit_sphere();
                proof {
                    crate::fixed::lemma_fpm_abs(fz.x as int, *fuzz as int, FP_ONE as int, FP_ONE as int, FP_ONE as int);
                    crate::fixed::lemma_fpm_abs(fz.y as int, *fuzz as int, FP_ONE as int, FP_ONE as int, FP_ONE as int);
                    crate::fixed::lemma_fpm_abs(fz.z as int, *fuzz as int, FP_ONE as int, FP_ONE as int, FP_ONE as int);
                }
                let dir = reflected.plus(&fz.scaled(*fuzz));
                let d: i64 = dot(dir, rec.normal);
                proof {
                    assert(dir == metal_dir_spec(
                        normalize_spec(r_in.direction),
                        rec.normal,
                        *fuzz as int,
                        fz,
                    ));
                }
                if d > 0 {
                    Some((*albedo, Ray::new(rec.p, dir)))
                } else {
                    None
                }
            },
            Material::Glass { albedo, refractive_index } => {
                let dd: i64 = dot(r_in.direction(), r_in.direction());
                proof {
                    crate::vec3::lemma_dot_self_nonneg(r_in.direction);
                }
                if dd < 1 {
                    return None;
                }
                let incident = unit_vector(r_in.direction());
                // The record normal faces against the ray; front_face
                // says whether we are entering the glass or leaving it.
                let (eta_i, eta_t): (i64, i64) = if rec.front_face {
                    (r_in.current_ior, *refractive_index)
                } else {
                    (*refractive_index, FP_ONE)
                };
                let eta: i64 = fp_div(eta_i, eta_t);
                proof {
                    lemma_eta_range(eta_i as int, eta_t as int);
                }
                let cos2: i64 = dot(incident.neg(), rec.normal);
                let refr = refract(incident, rec.normal, eta);
                let reflect_prob: i64 = match refr {
                    None => FP_ONE,
                    Some(_) => schlick(fp_clamp(cos2, 0, FP_ONE), eta_t),
                };
                let draw: i64 = crate::rng::random_double();
                let (direction, ior_out): (Vec3, i64) = if refr.is_none() || draw < reflect_prob {
                    (reflect(incident, rec.normal), r_in.current_ior)
                } else {
                    let d = refr.unwrap();
                    (d, if rec.front_face { *refractive_index } else { FP_ONE })
                };
                Some((*albedo, Ray::with_ior(rec.p, direction, ior_out)))
            },
            Material::Textured { texture } => {
                let att = texture.sample(rec.u, rec.v);
                let rnd = random_unit_vector();
                let mut dir = rec.normal.plus(&rnd);
                if dir.near_zero() {
                    dir = rec.normal;
                }
                proof {
                    lemma_diffuse_witness(rec.normal, rnd, dir);
                }
                Some((att, Ray::new(rec.p, dir)))
            },
        }
    }
}

/// The computed diffuse direction is the sampled composition.
proof fn lemma_diffuse_witness(n: Vec3, u: Vec3, dir: Vec3)
    requires
        vec_bounded(u, 2 * FP_ONE as int),
        dir == diffuse_dir_spec(n, u),
    ensures
        exists|w: Vec3|
            #![auto]
            vec_bounded(w, 2 * FP_ONE as int) && dir == diffuse_dir_spec(n, w),
{
    assert(vec_bounded(u, 2 * FP_ONE as int) && dir == diffuse_dir_spec(n, u));
}

/// The index ratio of two admissible refractive indices lies in
/// `(0, 32]`.
proof fn lemma_eta_range(eta_i: int, eta_t: int)
    requires
        FP_HALF <= eta_i <= 16 * FP_ONE as int,
        FP_HALF <= eta_t <= 16 * FP_ONE as int,
    ensures
        0 < fpd(eta_i, eta_t) <= 32 * FP_ONE as int,
{
    assert(eta_i * FP_ONE as int <= 32 * FP_ONE as int * eta_t) by (nonlinear_arith)
        requires
            FP_HALF <= eta_i <= 16 * 65536,
            FP_HALF <= eta_t,
            FP_ONE == 65536,
            FP_HALF == 32768,
    ;
    crate::fixed::lemma_fdiv_abs_le(eta_i * FP_ONE as int, eta_t, 32 * FP_ONE as int);
    assert(fpd(eta_i, eta_t) >= 1) by {
        assert(1 * eta_t <= eta_i * FP_ONE as int) by (nonlinear_arith)
            requires
                FP_HALF <= eta_i,
                eta_t <= 16 * 65536,
                FP_ONE == 65536,
                FP_HALF == 32768,
        ;
        crate::fixed::lemma_le_fdiv(eta_i * FP_ONE as int, eta_t, 1);
    }
}

/// Entering a surface straight on transmits straight through: for an
/// exactly unit normal, refracting the opposite of the normal about the
/// normal returns that same direction unchanged, whatever the index
/// ratio — the direction-continuity half of perpendicular dielectric
/// scattering.
pub proof fn lemma_refract_perpendicular(n: Vec3, eta: int)
    requires
        vec_bounded(n, FP_ONE as int),
        dot_spec(n, n) == FP_ONE,
        0 < eta <= 32 * FP_ONE as int,
    ensures
        refract_spec(neg_spec(n), n, eta) == Some(neg_spec(n)),
{
    let v = neg_spec(n);
    assert(neg_spec(v) == n);
    let cos = FP_ONE as int;
    crate::fixed::lemma_fpm_one(n.x as int);
    crate::fixed::lemma_fpm_one(n.y as int);
    crate::fixed::lemma_fpm_one(n.z as int);
    assert(v.x + fpm(n.x as int, cos) == 0);
    assert(fpm(0, eta) == 0) by {
        assert(0 * eta == 0) by (nonlinear_arith);
        lemma_fdiv_zero_num();
    }
    let perp = Vec3 { x: 0i64, y: 0i64, z: 0i64 };
    assert(dot_spec(perp, perp) == 0) by {
        assert(0int * 0int == 0) by (nonlinear_arith);
        lemma_fdiv_zero_num();
    }
    let par_sq = FP_ONE as int;
    assert(par_sq * FP_ONE as int == 0x1_0000_0000) by (nonlinear_arith)
        requires
            par_sq == 65536,
            FP_ONE == 65536,
    ;
    assert(sqrt_floor(0x1_0000_0000) == FP_ONE) by {
        assert(65536int * 65536int <= 0x1_0000_0000 < 65537int * 65537int) by (nonlinear_arith);
        crate::fixed::lemma_sqrt_floor_unique(0x1_0000_0000, FP_ONE as int);
    }
    lemma_fpm_neg_one(n.x as int);
    lemma_fpm_neg_one(n.y as int);
    lemma_fpm_neg_one(n.z as int);
}

/// Multiplying by the negated fixed-point one negates.
proof fn lemma_fpm_neg_one(a: int)
    ensures
        fpm(a, -(FP_ONE as int)) == -a,
{
    vstd::arithmetic::div_mod::lemma_div_multiples_vanish(-a, FP_ONE as int);
    assert(a * (-(FP_ONE as int)) == FP_ONE as int * (-a)) by (nonlinear_arith);
}

/// A well-formed material reports a well-formed albedo.
pub proof fn lemma_albedo_wf(m: Material)
    requires
        mat_wf(m),
    ensures
        color_wf(albedo_spec(m)),
{
}

/// Dividing a zero numerator gives zero.
proof fn lemma_fdiv_zero_num()
    ensures
        fdiv(0, FP_ONE as int) == 0,
{
    vstd::arithmetic::div_mod::lemma_div_of0(FP_ONE as int);
}

/// At normal incidence the Schlick probability collapses to the base
/// reflectance `r0`; for matching indices it is exactly zero — the ray
/// is transmitted with probability one.
pub proof fn lemma_schlick_normal_incidence(ref_idx: int)
    requires
        FP_HALF <= ref_idx <= 16 * FP_ONE as int,
    ensures
        schlick_spec(FP_ONE as int, ref_idx) == fpm(
            fpd(FP_ONE - ref_idx, FP_ONE + ref_idx),
            fpd(FP_ONE - ref_idx, FP_ONE + ref_idx),
        ),
        ref_idx == FP_ONE ==> schlick_spec(FP_ONE as int, ref_idx) == 0,
{
    let r0a = fpd(FP_ONE - ref_idx, FP_ONE + ref_idx);
    let r0 = fpm(r0a, r0a);
    assert(fpm(0, 0) == 0) by {
        assert(0int * 0int == 0) by (nonlinear_arith);
        lemma_fdiv_zero_num();
    }
    assert(fpm(FP_ONE - r0, 0) == 0) by {
        assert((FP_ONE - r0) * 0 == 0) by (nonlinear_arith);
        lemma_fdiv_zero_num();
    }
    if ref_idx == FP_ONE {
        assert(r0a == 0) by {
            assert(FP_ONE - ref_idx == 0);
            assert(0int * FP_ONE as int == 0) by (nonlinear_arith);
            assert(fdiv(0, FP_ONE + ref_idx) == 0) by {
                vstd::arithmetic::div_mod::lemma_div_of0(FP_ONE + ref_idx);
            }
        }
        assert(r0 == 0);
    }
}

} // verus!
