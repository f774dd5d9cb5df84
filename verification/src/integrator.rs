//! The recursive stochastic integrator.
//!
//! `ray_color` follows a ray through the scene: on a hit it consults the
//! struck material, attenuates and recurses; on a miss it returns the
//! sky gradient; at depth zero it returns black unconditionally.

use crate::fixed::{fxmul, Fx, ONE_RAW, SCALE};
use crate::material::{attenuation_of, color_unit_range};
use crate::object::{sample_free, spec_obj_hit, wf_object, Object};
use crate::ray::{wf_ray, Ray};
use crate::vec3::{spec_length, Color, Vec3, LIM_COORD, LIM_DIR, LIM_ORIGIN, MIN_DIR_SQ};
use vstd::prelude::*;

verus! {

/// The lower end of the hit range used by the integrator: slightly above
/// zero, so a scattered ray does not immediately re-intersect the
/// surface it starts on.
pub const T_ACNE: i64 = 66;

/// The upper end of the hit range used by the integrator.
pub const T_FAR: i64 = 0x40000000;

/// The sky-gradient interpolation factor for a ray: half of one plus the
/// vertical component of the normalised direction, clamped into `[0, 1]`.
pub open spec fn background_s(r: Ray) -> int {
    let uy = crate::fixed::fxdiv(r.direction.y@, spec_length(r.direction));
    let t = fxmul(uy + ONE_RAW as int, 32768);
    if t < 0 {
        0
    } else if t > ONE_RAW as int {
        ONE_RAW as int
    } else {
        t
    }
}

/// `c` is the sky gradient for `r`: white blended towards sky blue by
/// the interpolation factor.
pub open spec fn is_background(r: Ray, c: Color) -> bool {
    let s = background_s(r);
    &&& c.x@ == ONE_RAW as int - s + fxmul(s, 32768)
    &&& c.y@ == ONE_RAW as int - s + fxmul(s, 45875)
    &&& c.z@ == ONE_RAW as int - s + fxmul(s, ONE_RAW as int)
}

/// The sky gradient: a blend of white and sky blue by the height of the
/// ray's direction.
pub fn background(ray: &Ray) -> (c: Color)
    requires
        wf_ray(*ray),
    ensures
        is_background(*ray, c),
        color_unit_range(c),
{
    let u = ray.direction.normalized();
    proof {
        crate::fixed::lemma_fxmul_range(u.y@ + ONE_RAW as int, 32768, 0x30000, 32768);
    }
    let t = u.y.plus(Fx::one()).times(Fx { raw: 32768 });
    let s = t.max_of(Fx::zero()).min_of(Fx::one());
    proof {
        lemma_blend_unit(s@, 32768);
        lemma_blend_unit(s@, 45875);
        lemma_blend_unit(s@, ONE_RAW as int);
    }
    Color {
        x: Fx::one().minus(s).plus(s.times(Fx { raw: 32768 })),
        y: Fx::one().minus(s).plus(s.times(Fx { raw: 45875 })),
        z: Fx::one().minus(s).plus(s.times(Fx { raw: ONE_RAW })),
    }
}

/// Blending towards a channel within one keeps the result within one.
proof fn lemma_blend_unit(s: int, b: int)
    requires
        0 <= s <= ONE_RAW as int,
        0 <= b <= ONE_RAW as int,
    ensures
        0 <= fxmul(s, b) <= s,
        0 <= ONE_RAW as int - s + fxmul(s, b) <= ONE_RAW as int,
{
    crate::fixed::lemma_abs_mul_le(s, b, ONE_RAW as int, ONE_RAW as int);
    crate::fixed::lemma_fdiv_ordered(0, s * b, SCALE as int);
    assert(s * b <= s * (SCALE as int)) by (nonlinear_arith)
        requires
            0 <= s,
            b <= SCALE as int,
    ;
    crate::fixed::lemma_fdiv_le_const(s * b, SCALE as int, s);
}

/// Whether a ray meets the well-formedness the hit tests require; a
/// scattered ray that fails it is treated as absorbed.
pub fn ray_wf_check(r: &Ray) -> (ok: bool)
    ensures
        ok == wf_ray(*r),
{
    let ob: bool = r.origin.x.raw >= -LIM_ORIGIN && r.origin.x.raw <= LIM_ORIGIN && r.origin.y.raw
        >= -LIM_ORIGIN && r.origin.y.raw <= LIM_ORIGIN && r.origin.z.raw >= -LIM_ORIGIN
        && r.origin.z.raw <= LIM_ORIGIN;
    let db: bool = r.direction.x.raw >= -LIM_DIR && r.direction.x.raw <= LIM_DIR
        && r.direction.y.raw >= -LIM_DIR && r.direction.y.raw <= LIM_DIR && r.direction.z.raw
        >= -LIM_DIR && r.direction.z.raw <= LIM_DIR;
    let tb: bool = r.time.raw >= -LIM_COORD && r.time.raw <= LIM_COORD;
    if !(ob && db && tb) {
        return false;
    }
    let q: i128 = r.direction.dot_wide(r.direction);
    q >= MIN_DIR_SQ as i128
}

/// The colour reaching the eye along `ray` through `world`, following at
/// most `depth` bounces.
///
/// At depth zero the result is black regardless of the scene: the
/// recursion bound is enforced before any intersection test. Every
/// channel of the result lies within `[0, 1]`. When the scene draws no
/// random samples, a ray that misses everything returns exactly the sky
/// gradient, and at depth one a ray that hits returns black (its single
/// scattered bounce is cut to black by the depth bound).
pub fn ray_color(ray: &Ray, world: &Object, depth: u32) -> (c: Color)
    requires
        wf_object(*world),
        wf_ray(*ray),
    ensures
        color_unit_range(c),
        depth == 0 ==> c.x@ == 0 && c.y@ == 0 && c.z@ == 0,
        depth >= 1 && sample_free(*world) && spec_obj_hit(
            *world,
            *ray,
            T_ACNE as int,
            T_FAR as int,
        ) is None ==> is_background(*ray, c),
        depth == 1 && sample_free(*world) && spec_obj_hit(
            *world,
            *ray,
            T_ACNE as int,
            T_FAR as int,
        ) is Some ==> c.x@ == 0 && c.y@ == 0 && c.z@ == 0,
        match spec_obj_hit(*world, *ray, T_ACNE as int, T_FAR as int) {
            Some(sh) => depth >= 1 && sample_free(*world) ==> exists|rest: Color|
                {
                    let att = attenuation_of(sh.material);
                    #[trigger] color_unit_range(rest) && c.x@ == fxmul(att.x@, rest.x@) && c.y@
                        == fxmul(att.y@, rest.y@) && c.z@ == fxmul(att.z@, rest.z@)
                },
            None => true,
        },
    decreases depth,
{
    if depth == 0 {
        return Vec3::zero();
    }
    let t_min = Fx { raw: T_ACNE };
    let t_max = Fx { raw: T_FAR };
    match world.hit(ray, t_min, t_max) {
        Some(h) => {
            proof {
                lemma_attenuate_unit(attenuation_of(h.material).x@, 0);
                lemma_attenuate_unit(attenuation_of(h.material).y@, 0);
                lemma_attenuate_unit(attenuation_of(h.material).z@, 0);
            }
            match h.material.scatter(ray, &h) {
                Some((att, sc)) => {
                    if !ray_wf_check(&sc) {
                        proof {
                            let black = Color { x: Fx { raw: 0 }, y: Fx { raw: 0 }, z: Fx {
                                raw: 0,
                            } };
                            assert(color_unit_range(black));
                        }
                        return Vec3::zero();
                    }
                    let rec = ray_color(&sc, world, depth - 1);
                    proof {
                        crate::material::lemma_energy_non_creation(h.material);
                        lemma_attenuate_unit(att.x@, rec.x@);
                        lemma_attenuate_unit(att.y@, rec.y@);
                        lemma_attenuate_unit(att.z@, rec.z@);
                        assert(color_unit_range(rec));
                    }
                    att.mul_comp(rec)
                },
                None => {
                    proof {
                        let black = Color { x: Fx { raw: 0 }, y: Fx { raw: 0 }, z: Fx { raw: 0 } };
                        assert(color_unit_range(black));
                    }
                    Vec3::zero()
                },
            }
        },
        None => background(ray),
    }
}

/// Attenuating a channel within one by a factor within one stays within
/// one, and attenuating black yields black.
proof fn lemma_attenuate_unit(a: int, b: int)
    requires
        0 <= a <= ONE_RAW as int,
        0 <= b <= ONE_RAW as int,
    ensures
        0 <= fxmul(a, b) <= ONE_RAW as int,
        b == 0 ==> fxmul(a, b) == 0,
{
    crate::fixed::lemma_abs_mul_le(a, b, ONE_RAW as int, ONE_RAW as int);
    crate::fixed::lemma_fdiv_ordered(0, a * b, SCALE as int);
    assert((ONE_RAW as int) * (ONE_RAW as int) == (ONE_RAW as int) * (SCALE as int));
    crate::fixed::lemma_fdiv_le_const(a * b, SCALE as int, ONE_RAW as int);
}

} // verus!
