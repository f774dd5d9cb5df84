//! Random sampling.
//!
//! One trusted wrapper draws raw uniform bits from the system generator;
//! every derived sample is built from those bits in verified code. No
//! contract promises anything about the distribution: callers state what
//! holds of every possible outcome.

use crate::fixed::Fx;
use crate::vec3::{dotw, vec_bounded, Vec3, MIN_DIR_SQ};
use vstd::prelude::*;

verus! {

/// Relies on `rand::random`: a uniformly distributed `u32` from the
/// thread-local generator. Nothing can be promised of a random value.
#[verifier::external_body]
fn random_u32() -> (r: u32) {
    rand::random::<u32>()
}

/// A uniform fixed-point sample in `[0, 1)`.
pub fn sample_unit() -> (r: Fx)
    ensures
        0 <= r@ < 65536,
{
    let bits: u32 = random_u32();
    proof {
        assert(bits & 0xffff < 0x10000) by (bit_vector);
    }
    Fx::from_raw((bits & 0xffff) as i64)
}

/// A uniform fixed-point sample in `[-1, 1)`.
pub fn sample_symmetric() -> (r: Fx)
    ensures
        -65536 <= r@ < 65536,
{
    let bits: u32 = random_u32();
    proof {
        assert(bits & 0x1ffff < 0x20000) by (bit_vector);
    }
    Fx::from_raw(((bits & 0x1ffff) as i64) - 65536)
}

/// The sample drawn for a point in the unit ball is acceptable: short
/// enough to lie strictly inside the ball, long enough not to be
/// degenerate.
pub open spec fn in_unit_ball(v: Vec3) -> bool {
    &&& vec_bounded(v, 65536)
    &&& MIN_DIR_SQ as int <= dotw(v, v) < 0x100000000
}

/// A random point inside the unit ball, by rejection sampling with a
/// bounded number of retries; a fixed interior point stands in on the
/// vanishingly unlikely exhaustion of every retry.
pub fn random_in_unit_sphere() -> (r: Vec3)
    ensures
        in_unit_ball(r),
{
    let mut tries: u32 = 0;
    while tries < 64
        invariant
            tries <= 64,
        decreases 64 - tries,
    {
        let v = Vec3 { x: sample_symmetric(), y: sample_symmetric(), z: sample_symmetric() };
        let q: i128 = v.dot_wide(v);
        if 65536 <= q && q < 0x100000000 {
            return v;
        }
        tries = tries + 1;
    }
    Vec3 { x: Fx::from_raw(32768), y: Fx::zero(), z: Fx::zero() }
}

/// The normalisation of an accepted unit-ball sample is acceptable as a
/// unit direction: bounded components and a squared length within a factor
/// of two of one.
pub open spec fn unit_sample(u: Vec3) -> bool {
    &&& vec_bounded(u, 0x20000)
    &&& 0x80000000 <= dotw(u, u) <= 0x200000000
}

/// A random direction of roughly unit length: a unit-ball sample,
/// normalised. The result is checked to be a `unit_sample`; a fixed axis
/// direction stands in if rounding ever defeated the check.
pub fn random_unit_vector() -> (u: Vec3)
    ensures
        unit_sample(u),
{
    let v = random_in_unit_sphere();
    let u = v.normalized();
    let q: i128 = u.dot_wide(u);
    if 0x80000000 <= q && q <= 0x200000000 {
        u
    } else {
        Vec3 { x: Fx::one(), y: Fx::zero(), z: Fx::zero() }
    }
}

/// A random unit-ball sample lying in the hemisphere of `norm`: the
/// sample, reversed when it points against `norm`.
pub fn random_in_hemisphere(norm: Vec3) -> (r: Vec3)
    requires
        vec_bounded(norm, 0x20000),
    ensures
        in_unit_ball(r),
        dotw(r, norm) >= 0,
{
    let v = random_in_unit_sphere();
    let d: i128 = v.dot_wide(norm);
    if d > 0 {
        v
    } else {
        let w = v.neg();
        proof {
            assert(dotw(w, w) == dotw(v, v)) by (nonlinear_arith)
                requires
                    w.x@ == -v.x@,
                    w.y@ == -v.y@,
                    w.z@ == -v.z@,
                    dotw(w, w) == w.x@ * w.x@ + w.y@ * w.y@ + w.z@ * w.z@,
                    dotw(v, v) == v.x@ * v.x@ + v.y@ * v.y@ + v.z@ * v.z@,
            ;
            assert(dotw(w, norm) == -dotw(v, norm)) by (nonlinear_arith)
                requires
                    w.x@ == -v.x@,
                    w.y@ == -v.y@,
                    w.z@ == -v.z@,
                    dotw(w, norm) == w.x@ * norm.x@ + w.y@ * norm.y@ + w.z@ * norm.z@,
                    dotw(v, norm) == v.x@ * norm.x@ + v.y@ * norm.y@ + v.z@ * norm.z@,
            ;
        }
        w
    }
}


/// A random point inside the unit disk of the `xy` plane, by rejection
/// sampling with a bounded number of retries; a fixed interior point
/// stands in on the vanishingly unlikely exhaustion of every retry.
pub fn random_in_unit_disk() -> (r: Vec3)
    ensures
        vec_bounded(r, 65536),
        r.z@ == 0,
        dotw(r, r) < 0x100000000,
{
    let mut tries: u32 = 0;
    while tries < 64
        invariant
            tries <= 64,
        decreases 64 - tries,
    {
        let v = Vec3 { x: sample_symmetric(), y: sample_symmetric(), z: Fx::zero() };
        let q: i128 = v.dot_wide(v);
        if q < 0x100000000 {
            return v;
        }
        tries = tries + 1;
    }
    Vec3 { x: Fx::from_raw(32768), y: Fx::zero(), z: Fx::zero() }
}

} // verus!
