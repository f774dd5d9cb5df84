//! Surface materials and their scattering behaviour.
//!
//! A material consumes an incoming ray and a hit record and produces
//! either nothing (the light is absorbed) or an attenuation colour and a
//! scattered ray. Randomness enters only through the sampling helpers;
//! every contract states what holds of the result for every possible
//! sample.

use crate::fixed::{fxdiv, fxmul, sqrt_floor, Fx, ONE_RAW, SCALE};
use crate::hit::{wf_hit, HitRecord};
use crate::ray::{wf_ray, Ray};
use crate::rng::{in_unit_ball, random_in_unit_sphere, random_unit_vector, sample_unit, unit_sample};
use crate::vec3::{
    dotw, is_normalized_of, is_reflect, is_refract, lemma_dotw_bound, refract_cos, spec_dot,
    vec_bounded, Color, Vec3, LIM_DIR, MIN_DIR_SQ, NEAR_ZERO_RAW,
};
use vstd::prelude::*;

verus! {

/// A surface material: the closed set of scattering behaviours.
#[derive(Clone, Copy, Debug, PartialEq, Eq, Structural)]
pub enum Material {
    /// An opaque matte surface with Lambertian reflectance.
    Lambertian { albedo: Color },
    /// A specular surface with a fuzz factor perturbing reflections.
    Metal { albedo: Color, fuzz: Fx },
    /// A transparent refractive surface such as glass or water.
    Dielectric { ref_idx: Fx },
    /// A phase function scattering uniformly in all directions, used
    /// inside participating media.
    Isotropic { albedo: Color },
}

/// Every channel lies within `[0, 1]`.
pub open spec fn color_unit_range(c: Color) -> bool {
    &&& 0 <= c.x@ <= ONE_RAW as int
    &&& 0 <= c.y@ <= ONE_RAW as int
    &&& 0 <= c.z@ <= ONE_RAW as int
}

/// A well-formed material: albedo channels within `[0, 1]`, fuzz within
/// `[0, 1]`, a refractive index within `[1/4, 4]`.
///
/// The index band is the fixed-point model's domain: it keeps the
/// refraction ratio (the index or its reciprocal) representable and
/// positive, and it covers every physical medium from water and glass
/// to diamond together with the reciprocals a back-face crossing needs.
pub open spec fn wf_material(m: Material) -> bool {
    match m {
        Material::Lambertian { albedo } => color_unit_range(albedo),
        Material::Metal { albedo, fuzz } => color_unit_range(albedo) && 0 <= fuzz@ <= ONE_RAW
            as int,
        Material::Dielectric { ref_idx } => 0x4000 <= ref_idx@ <= 0x40000,
        Material::Isotropic { albedo } => color_unit_range(albedo),
    }
}

/// The attenuation a material applies when it scatters: its albedo, or
/// the identity colour for a dielectric (glass does not tint).
pub open spec fn attenuation_of(m: Material) -> Color {
    match m {
        Material::Lambertian { albedo } => albedo,
        Material::Metal { albedo, fuzz } => albedo,
        Material::Dielectric { ref_idx } => Color {
            x: Fx { raw: ONE_RAW },
            y: Fx { raw: ONE_RAW },
            z: Fx { raw: ONE_RAW },
        },
        Material::Isotropic { albedo } => albedo,
    }
}

/// No channel exceeds one.
pub open spec fn color_at_most_one(c: Color) -> bool {
    c.x@ <= ONE_RAW as int && c.y@ <= ONE_RAW as int && c.z@ <= ONE_RAW as int
}

/// No material creates energy: whenever its albedo channels stay within
/// one, so do the channels of the attenuation that `scatter` returns,
/// for every incoming ray (a dielectric always attenuates by exactly
/// one).
pub proof fn lemma_energy_non_creation(m: Material)
    requires
        match m {
            Material::Lambertian { albedo } => color_at_most_one(albedo),
            Material::Metal { albedo, fuzz } => color_at_most_one(albedo),
            Material::Dielectric { ref_idx } => true,
            Material::Isotropic { albedo } => color_at_most_one(albedo),
        },
    ensures
        color_at_most_one(attenuation_of(m)),
{
}

/// The Lambertian scatter direction for normal `norm` and unit sample
/// `u`: their sum, or the normal alone when the sum is degenerately
/// short.
pub open spec fn lambertian_dir(norm: Vec3, u: Vec3, dir: Vec3) -> bool {
    let sx = norm.x@ + u.x@;
    let sy = norm.y@ + u.y@;
    let sz = norm.z@ + u.z@;
    if -(NEAR_ZERO_RAW as int) <= sx <= NEAR_ZERO_RAW as int && -(NEAR_ZERO_RAW as int) <= sy
        <= NEAR_ZERO_RAW as int && -(NEAR_ZERO_RAW as int) <= sz <= NEAR_ZERO_RAW as int {
        dir == norm
    } else {
        dir.x@ == sx && dir.y@ == sy && dir.z@ == sz
    }
}

/// The Metal scatter direction for incoming direction `d`, normal
/// `norm`, fuzz `fuzz` and ball sample `v`: the normalised reflection,
/// perturbed by the scaled sample.
pub open spec fn metal_dir(d: Vec3, norm: Vec3, fuzz: Fx, v: Vec3, dir: Vec3) -> bool {
    exists|refl: Vec3, ru: Vec3|
        is_reflect(d, norm, refl) && #[trigger] is_normalized_of(refl, ru) && dir.x@ == ru.x@
            + fxmul(v.x@, fuzz@) && dir.y@ == ru.y@ + fxmul(v.y@, fuzz@) && dir.z@ == ru.z@
            + fxmul(v.z@, fuzz@)
}

/// The refraction ratio a dielectric with index `ri` applies: the
/// reciprocal of the index when the front face is struck, the index
/// itself when the ray leaves through the back face.
pub open spec fn refraction_ratio(ri: int, front_face: bool) -> int {
    if front_face {
        fxdiv(ONE_RAW as int, ri)
    } else {
        ri
    }
}

/// Schlick's approximation of reflectance: `r0 + (1 - r0)(1 - cos)^5`
/// with `r0 = ((1 - ri) / (1 + ri))^2`, in fixed point.
pub open spec fn spec_r0(ri: int) -> int {
    let a = fxdiv(ONE_RAW as int - ri, ONE_RAW as int + ri);
    fxmul(a, a)
}

/// Schlick's approximation, in fixed point.
pub open spec fn spec_reflectance(cos: int, ri: int) -> int {
    let r0 = spec_r0(ri);
    let omc = ONE_RAW as int - cos;
    let p2 = fxmul(omc, omc);
    let p4 = fxmul(p2, p2);
    let p5 = fxmul(p4, omc);
    r0 + fxmul(ONE_RAW as int - r0, p5)
}

/// At normal incidence the Schlick approximation returns exactly `r0`.
pub proof fn lemma_reflectance_normal_incidence(ri: int)
    ensures
        spec_reflectance(ONE_RAW as int, ri) == spec_r0(ri),
{
    let r0 = spec_r0(ri);
    assert(fxmul(0, 0) == 0);
    assert(fxmul(ONE_RAW as int - r0, 0) == 0);
}

/// At fully grazing incidence the Schlick approximation returns exactly
/// one: reflectance approaches totality as the cosine falls to zero.
pub proof fn lemma_reflectance_grazing(ri: int)
    ensures
        spec_reflectance(0, ri) == ONE_RAW as int,
{
    let r0 = spec_r0(ri);
    assert(fxmul(ONE_RAW as int, ONE_RAW as int) == ONE_RAW as int);
    assert(fxmul(ONE_RAW as int - r0, ONE_RAW as int) == ONE_RAW as int - r0) by {
        assert((ONE_RAW as int - r0) * (ONE_RAW as int) == (ONE_RAW as int) * (ONE_RAW as int
            - r0)) by (nonlinear_arith);
        vstd::arithmetic::div_mod::lemma_div_multiples_vanish(
            ONE_RAW as int - r0,
            ONE_RAW as int,
        );
    }
}

/// The metal scatter attempt with ball sample `v` is absorbed: the
/// reflection either degenerated to a near-zero vector, or, perturbed by
/// the sample, it pointed into the surface.
pub open spec fn metal_absorbed(d: Vec3, norm: Vec3, fuzz: Fx, v: Vec3) -> bool {
    exists|refl: Vec3|
        #[trigger] is_reflect(d, norm, refl) && (dotw(refl, refl) < MIN_DIR_SQ as int || exists|
            ru: Vec3,
            dir: Vec3,
        |
            #![trigger is_normalized_of(refl, ru), dotw(dir, norm)]
            is_normalized_of(refl, ru) && dir.x@ == ru.x@ + fxmul(v.x@, fuzz@) && dir.y@ == ru.y@
                + fxmul(v.y@, fuzz@) && dir.z@ == ru.z@ + fxmul(v.z@, fuzz@) && dotw(dir, norm)
                <= 0)
}

/// The dielectric scatter direction: the normalised incoming direction,
/// reflected when refraction is geometrically impossible (total internal
/// reflection), and otherwise either reflected or refracted according to
/// the reflectance coin.
pub open spec fn dielectric_dir(d: Vec3, norm: Vec3, front_face: bool, ri: int, dir: Vec3) -> bool {
    let ratio = refraction_ratio(ri, front_face);
    exists|ud: Vec3|
        #[trigger] is_normalized_of(d, ud) && ({
            let cos = refract_cos(ud, norm);
            let c2 = fxmul(cos, cos);
            let omc2 = if ONE_RAW as int - c2 >= 0 {
                ONE_RAW as int - c2
            } else {
                0
            };
            let sin = sqrt_floor(omc2 * (SCALE as int));
            let cannot = fxmul(ratio, sin) > ONE_RAW as int;
            if cannot {
                is_reflect(ud, norm, dir)
            } else {
                is_reflect(ud, norm, dir) || is_refract(ud, norm, ratio, dir)
            }
        })
}

/// Fixed-point multiplication is monotone on nonnegative operands.
proof fn lemma_fxmul_mono(a1: int, b1: int, a2: int, b2: int)
    requires
        0 <= a1 <= a2,
        0 <= b1 <= b2,
    ensures
        0 <= fxmul(a1, b1) <= fxmul(a2, b2),
{
    assert(0 <= a1 * b1 <= a2 * b2) by (nonlinear_arith)
        requires
            0 <= a1 <= a2,
            0 <= b1 <= b2,
    ;
    crate::fixed::lemma_fdiv_ordered(0, a1 * b1, SCALE as int);
    crate::fixed::lemma_fdiv_ordered(a1 * b1, a2 * b2, SCALE as int);
}

/// Multiplying by exactly one is the identity.
proof fn lemma_fxmul_one(x: int)
    ensures
        fxmul(x, ONE_RAW as int) == x,
{
    assert(x * (ONE_RAW as int) == (SCALE as int) * x) by (nonlinear_arith);
    vstd::arithmetic::div_mod::lemma_div_multiples_vanish(x, SCALE as int);
}

/// For an index in the admitted band, the base reflectance `r0` lies
/// within `[0, 1]`.
pub proof fn lemma_r0_unit(ri: int)
    requires
        0x4000 <= ri <= 0x40000,
    ensures
        0 <= spec_r0(ri) <= ONE_RAW as int,
{
    let d = ONE_RAW as int + ri;
    let x = (ONE_RAW as int - ri) * (SCALE as int);
    let a = fxdiv(ONE_RAW as int - ri, d);
    assert(a <= 65536) by {
        crate::fixed::lemma_fdiv_le_const(x, d, 65536);
    }
    assert(a >= -65536) by {
        crate::fixed::lemma_fdiv_ordered(d * -65536, x, d);
        vstd::arithmetic::div_mod::lemma_div_multiples_vanish(-65536, d);
    }
    crate::fixed::lemma_square_nonneg(a);
    crate::fixed::lemma_fdiv_ordered(0, a * a, SCALE as int);
    crate::fixed::lemma_abs_mul_le(a, a, 65536, 65536);
    crate::fixed::lemma_fdiv_ordered(a * a, (65536 * 65536) as int, SCALE as int);
}

/// Between grazing and normal incidence the Schlick approximation stays
/// within `[r0, 1]`: partial reflection never exceeds totality and
/// never falls below the normal-incidence floor.
pub proof fn lemma_reflectance_range(cos: int, ri: int)
    requires
        0 <= cos <= ONE_RAW as int,
        0x4000 <= ri <= 0x40000,
    ensures
        spec_r0(ri) <= spec_reflectance(cos, ri) <= ONE_RAW as int,
{
    let one = ONE_RAW as int;
    lemma_r0_unit(ri);
    let r0 = spec_r0(ri);
    let omc = one - cos;
    let p2 = fxmul(omc, omc);
    let p4 = fxmul(p2, p2);
    let p5 = fxmul(p4, omc);
    assert(fxmul(one, one) == one) by {
        lemma_fxmul_one(one);
    }
    lemma_fxmul_mono(omc, omc, one, one);
    lemma_fxmul_mono(p2, p2, one, one);
    lemma_fxmul_mono(p4, omc, one, one);
    lemma_fxmul_mono(one - r0, p5, one - r0, one);
    lemma_fxmul_one(one - r0);
    crate::fixed::lemma_fdiv_ordered(0, (one - r0) * p5, SCALE as int);
    assert((one - r0) * p5 >= 0) by (nonlinear_arith)
        requires
            one - r0 >= 0,
            p5 >= 0,
    ;
}

/// The Schlick approximation is antitone in the cosine: reflectance
/// grows as incidence becomes more grazing.
pub proof fn lemma_reflectance_antitone(cos1: int, cos2: int, ri: int)
    requires
        cos1 <= cos2 <= ONE_RAW as int,
        0x4000 <= ri <= 0x40000,
    ensures
        spec_reflectance(cos1, ri) >= spec_reflectance(cos2, ri),
{
    let one = ONE_RAW as int;
    lemma_r0_unit(ri);
    let r0 = spec_r0(ri);
    let omc1 = one - cos1;
    let omc2 = one - cos2;
    lemma_fxmul_mono(omc2, omc2, omc1, omc1);
    lemma_fxmul_mono(fxmul(omc2, omc2), fxmul(omc2, omc2), fxmul(omc1, omc1), fxmul(omc1, omc1));
    lemma_fxmul_mono(
        fxmul(fxmul(omc2, omc2), fxmul(omc2, omc2)),
        omc2,
        fxmul(fxmul(omc1, omc1), fxmul(omc1, omc1)),
        omc1,
    );
    lemma_fxmul_mono(
        one - r0,
        fxmul(fxmul(fxmul(omc2, omc2), fxmul(omc2, omc2)), omc2),
        one - r0,
        fxmul(fxmul(fxmul(omc1, omc1), fxmul(omc1, omc1)), omc1),
    );
}

/// Schlick's approximation for the probability of reflection at a
/// dielectric surface.
pub fn reflectance(cosine: Fx, ref_idx: Fx) -> (r: Fx)
    requires
        -0x100000 <= cosine@ <= ONE_RAW as int,
        0x4000 <= ref_idx@ <= 0x40000,
    ensures
        r@ == spec_reflectance(cosine@, ref_idx@),
{
    proof {
        crate::fixed::lemma_fdiv_range(
            (ONE_RAW as int - ref_idx@) * (SCALE as int),
            ONE_RAW as int + ref_idx@,
            0x40000000000,
        );
        crate::fixed::lemma_abs_mul_le(
            ONE_RAW as int - ref_idx@,
            SCALE as int,
            0x40000,
            SCALE as int,
        );
        vstd::arithmetic::div_mod::lemma_div_is_ordered_by_denominator(
            0x40000000000,
            SCALE as int,
            ONE_RAW as int + ref_idx@,
        );
    }
    let a: Fx = Fx::one().minus(ref_idx).over(Fx::one().plus(ref_idx));
    proof {
        crate::fixed::lemma_fxmul_range(a@, a@, 0x4000001, 0x4000001);
    }
    let r0: Fx = a.times(a);
    let omc: Fx = Fx::one().minus(cosine);
    proof {
        crate::fixed::lemma_fxmul_range(omc@, omc@, 0x110000, 0x110000);
    }
    let p2: Fx = omc.times(omc);
    proof {
        crate::fixed::lemma_fxmul_range(p2@, p2@, 0x1210001, 0x1210001);
    }
    let p4: Fx = p2.times(p2);
    proof {
        crate::fixed::lemma_fxmul_range(p4@, omc@, 0x146410243, 0x110000);
    }
    let p5: Fx = p4.times(omc);
    proof {
        crate::fixed::lemma_fxmul_range(ONE_RAW as int - r0@, p5@, 0x1000010801, 0x15aa512674);
    }
    r0.plus(Fx::one().minus(r0).times(p5))
}


impl Material {
    /// An opaque matte material with the given albedo.
    pub fn lambertian(albedo: Color) -> (m: Material)
        ensures
            m == (Material::Lambertian { albedo }),
    {
        Material::Lambertian { albedo }
    }

    /// A specular material; the fuzz factor is clamped into `[0, 1]`.
    pub fn metal(albedo: Color, fuzz: Fx) -> (m: Material)
        ensures
            m == (Material::Metal {
                albedo,
                fuzz: if fuzz@ < 0 {
                    Fx { raw: 0 }
                } else if fuzz@ < ONE_RAW as int {
                    fuzz
                } else {
                    Fx { raw: ONE_RAW }
                },
            }),
    {
        let f: Fx = if fuzz.lt(Fx::zero()) {
            Fx::zero()
        } else if fuzz.lt(Fx::one()) {
            fuzz
        } else {
            Fx::one()
        };
        Material::Metal { albedo, fuzz: f }
    }

    /// A transparent refractive material with the given index.
    pub fn dielectric(ref_idx: Fx) -> (m: Material)
        ensures
            m == (Material::Dielectric { ref_idx }),
    {
        Material::Dielectric { ref_idx }
    }

    /// A uniformly scattering phase material with the given albedo.
    pub fn isotropic(albedo: Color) -> (m: Material)
        ensures
            m == (Material::Isotropic { albedo }),
    {
        Material::Isotropic { albedo }
    }

    /// Performs surface scattering from this material.
    ///
    /// When light travelling along `ray_in` reaches a surface made of this
    /// material (intersection described by `hit`), the light is either
    /// absorbed (`None`) or scattered: the result then carries the
    /// attenuation per colour channel and the outgoing ray, which starts
    /// at the hit point and keeps the incoming ray's time.
    pub fn scatter(&self, ray_in: &Ray, hit: &HitRecord) -> (r: Option<(Color, Ray)>)
        requires
            wf_material(*self),
            wf_ray(*ray_in),
            wf_hit(*hit),
        ensures
            match r {
                Some((att, sc)) => {
                    &&& att == attenuation_of(*self)
                    &&& sc.origin == hit.p
                    &&& sc.time == ray_in.time
                    &&& match *self {
                        Material::Lambertian { albedo } => (exists|u: Vec3|
                            #[trigger] unit_sample(u) && lambertian_dir(hit.norm, u, sc.direction))
                            && vec_bounded(sc.direction, 0x40000),
                        Material::Metal { albedo, fuzz } => dotw(sc.direction, hit.norm) > 0
                            && exists|v: Vec3|
                            #[trigger] in_unit_ball(v) && metal_dir(
                                ray_in.direction,
                                hit.norm,
                                fuzz,
                                v,
                                sc.direction,
                            ),
                        Material::Dielectric { ref_idx } => dielectric_dir(
                            ray_in.direction,
                            hit.norm,
                            hit.front_face,
                            ref_idx@,
                            sc.direction,
                        ),
                        Material::Isotropic { albedo } => unit_sample(sc.direction),
                    }
                },
                None => match *self {
                    Material::Lambertian { .. } => false,
                    Material::Metal { albedo, fuzz } => exists|v: Vec3|
                        #[trigger] in_unit_ball(v) && metal_absorbed(
                            ray_in.direction,
                            hit.norm,
                            fuzz,
                            v,
                        ),
                    Material::Dielectric { .. } => false,
                    Material::Isotropic { .. } => false,
                },
            },
    {
        match *self {
            Material::Lambertian { albedo } => {
                let u: Vec3 = random_unit_vector();
                let sum: Vec3 = hit.norm.plus(u);
                let dir: Vec3 = if sum.near_zero() {
                    hit.norm
                } else {
                    sum
                };
                Some((albedo, Ray::new(hit.p, dir, ray_in.time)))
            },
            Material::Metal { albedo, fuzz } => {
                proof {
                    lemma_dotw_bound(ray_in.direction, hit.norm, LIM_DIR as int, 0x20000);
                    crate::fixed::lemma_fdiv_range(
                        dotw(ray_in.direction, hit.norm),
                        SCALE as int,
                        0x6000000000,
                    );
                    let d2: int = 2 * spec_dot(ray_in.direction, hit.norm);
                    crate::fixed::lemma_fxmul_range(hit.norm.x@, d2, 0x20000, 0xc00002);
                    crate::fixed::lemma_fxmul_range(hit.norm.y@, d2, 0x20000, 0xc00002);
                    crate::fixed::lemma_fxmul_range(hit.norm.z@, d2, 0x20000, 0xc00002);
                }
                let refl: Vec3 = ray_in.direction.reflect(hit.norm);
                let q: i128 = refl.dot_wide(refl);
                if q < MIN_DIR_SQ as i128 {
                    proof {
                        let v0 = Vec3 { x: Fx { raw: 0 }, y: Fx { raw: 0 }, z: Fx { raw: 32768 } };
                        assert(in_unit_ball(v0)) by {
                            assert(dotw(v0, v0) == 32768 * 32768);
                        }
                        assert(metal_absorbed(ray_in.direction, hit.norm, fuzz, v0));
                    }
                    return None;
                }
                let ru: Vec3 = refl.normalized();
                let v: Vec3 = random_in_unit_sphere();
                proof {
                    crate::fixed::lemma_fxmul_range(v.x@, fuzz@, 65536, 65536);
                    crate::fixed::lemma_fxmul_range(v.y@, fuzz@, 65536, 65536);
                    crate::fixed::lemma_fxmul_range(v.z@, fuzz@, 65536, 65536);
                }
                let dir: Vec3 = ru.plus(v.scale(fuzz));
                let qd: i128 = dir.dot_wide(hit.norm);
                if qd > 0 {
                    Some((albedo, Ray::new(hit.p, dir, ray_in.time)))
                } else {
                    proof {
                        assert(metal_absorbed(ray_in.direction, hit.norm, fuzz, v));
                    }
                    None
                }
            },
            Material::Dielectric { ref_idx } => {
                proof {
                    crate::fixed::lemma_fdiv_le_const(
                        (ONE_RAW as int) * (SCALE as int),
                        ref_idx@,
                        0x40000,
                    );
                    vstd::arithmetic::div_mod::lemma_div_pos_is_pos(
                        (ONE_RAW as int) * (SCALE as int),
                        ref_idx@,
                    );
                    vstd::arithmetic::div_mod::lemma_div_is_ordered_by_denominator(
                        (ONE_RAW as int) * (SCALE as int),
                        ref_idx@,
                        0x40000,
                    );
                }
                let ratio: Fx = if hit.front_face {
                    Fx::one().over(ref_idx)
                } else {
                    ref_idx
                };
                let unit_d: Vec3 = ray_in.direction.normalized();
                let mu: Vec3 = unit_d.neg();
                proof {
                    assert(dotw(mu, hit.norm) == -dotw(unit_d, hit.norm)) by (nonlinear_arith)
                        requires
                            mu.x@ == -unit_d.x@,
                            mu.y@ == -unit_d.y@,
                            mu.z@ == -unit_d.z@,
                            dotw(mu, hit.norm) == mu.x@ * hit.norm.x@ + mu.y@ * hit.norm.y@
                                + mu.z@ * hit.norm.z@,
                            dotw(unit_d, hit.norm) == unit_d.x@ * hit.norm.x@ + unit_d.y@
                                * hit.norm.y@ + unit_d.z@ * hit.norm.z@,
                    ;
                    lemma_dotw_bound(mu, hit.norm, 0x20000, 0x20000);
                    crate::fixed::lemma_fdiv_range(dotw(mu, hit.norm), SCALE as int, 0xc00000000);
                }
                let cos: Fx = mu.dot(hit.norm).min_of(Fx::one());
                proof {
                    crate::fixed::lemma_fxmul_range(cos@, cos@, 0xc0001, 0xc0001);
                }
                let c2: Fx = cos.times(cos);
                proof {
                    crate::fixed::lemma_square_nonneg(cos@);
                    crate::fixed::lemma_fdiv_ordered(0, cos@ * cos@, SCALE as int);
                }
                let back: Fx = Fx::one().minus(c2);
                let omc2: Fx = back.max_of(Fx::zero());
                let sin: Fx = omc2.sqrt();
                proof {
                    assert(sin@ <= 0x10000) by (nonlinear_arith)
                        requires
                            sin@ * sin@ <= omc2@ * (SCALE as int),
                            0 <= sin@,
                            omc2@ <= 0x10000,
                    ;
                    crate::fixed::lemma_fxmul_range(ratio@, sin@, 0x40000, 0x10000);
                }
                let cannot_refract: bool = Fx::one().lt(ratio.times(sin));
                let refl_prob: Fx = reflectance(cos, ratio);
                let coin: Fx = sample_unit();
                let will_reflect: bool = coin.lt(refl_prob);
                let dir: Vec3 = if cannot_refract || will_reflect {
                    unit_d.reflect(hit.norm)
                } else {
                    unit_d.refract(hit.norm, ratio)
                };
                proof {
                    assert(dielectric_dir(
                        ray_in.direction,
                        hit.norm,
                        hit.front_face,
                        ref_idx@,
                        dir,
                    ));
                }
                Some((
                    Color { x: Fx::one(), y: Fx::one(), z: Fx::one() },
                    Ray::new(hit.p, dir, ray_in.time),
                ))
            },
            Material::Isotropic { albedo } => {
                let u: Vec3 = random_unit_vector();
                Some((albedo, Ray::new(hit.p, u, ray_in.time)))
            },
        }
    }
}

} // verus!
