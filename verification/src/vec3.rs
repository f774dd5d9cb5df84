//! Three-component fixed-point vectors.
//!
//! A `Vec3` serves as a point, a direction, or a colour. Every operation's
//! contract describes the raw result exactly, component by component, over
//! the integer model of `Fx`.

use crate::fixed::{
    fdiv, fxdiv, fxmul, lemma_abs_mul_le, lemma_fdiv_range, lemma_fxmul_range, sqrt_floor, Fx,
    ONE_RAW, SCALE,
};
use vstd::prelude::*;

verus! {

/// Raw bound on scene coordinates, radii, offsets and time values.
pub const LIM_COORD: i64 = 0x10000000;

/// Raw bound on bounding-box corners (translated boxes may exceed the
/// scene-coordinate bound, but never this one).
pub const LIM_BOX: i64 = 0x800000000;

/// Raw bound on ray origins (a hit point near a bounded box stays below it).
pub const LIM_ORIGIN: i64 = 0x4000000000;

/// Raw bound on the components of a ray direction.
pub const LIM_DIR: i64 = 0x100000;

/// Least admissible squared direction length, in wide (`2^-32`) units:
/// directions shorter than `2^-8` are treated as degenerate.
pub const MIN_DIR_SQ: i64 = 65536;

/// Raw threshold below which a vector counts as near zero (about `2^-8`).
pub const NEAR_ZERO_RAW: i64 = 256;

/// A vector of three fixed-point scalars.
#[derive(Clone, Copy, Debug, PartialEq, Eq, Structural)]
pub struct Vec3 {
    pub x: Fx,
    pub y: Fx,
    pub z: Fx,
}

/// A point in space.
pub type Point3 = Vec3;

/// A colour, one fixed-point scalar per channel.
pub type Color = Vec3;

/// The wide dot product of two vectors: exact, in `2^-32` units.
pub open spec fn dotw(a: Vec3, b: Vec3) -> int {
    a.x@ * b.x@ + a.y@ * b.y@ + a.z@ * b.z@
}

/// Every component's raw value lies within `b`.
pub open spec fn vec_bounded(v: Vec3, b: int) -> bool {
    -b <= v.x@ <= b && -b <= v.y@ <= b && -b <= v.z@ <= b
}

/// Every component lies within `[lo, hi]` component-wise.
pub open spec fn vec_in_range(v: Vec3, lo: Vec3, hi: Vec3) -> bool {
    lo.x@ <= v.x@ <= hi.x@ && lo.y@ <= v.y@ <= hi.y@ && lo.z@ <= v.z@ <= hi.z@
}

/// Bounds on both vectors bound their wide dot product.
pub proof fn lemma_dotw_bound(a: Vec3, b: Vec3, aa: int, bb: int)
    requires
        vec_bounded(a, aa),
        vec_bounded(b, bb),
        0 <= aa,
        0 <= bb,
    ensures
        -(3 * (aa * bb)) <= dotw(a, b) <= 3 * (aa * bb),
{
    lemma_abs_mul_le(a.x@, b.x@, aa, bb);
    lemma_abs_mul_le(a.y@, b.y@, aa, bb);
    lemma_abs_mul_le(a.z@, b.z@, aa, bb);
}

/// The fixed-point dot product, flooring.
pub open spec fn spec_dot(a: Vec3, b: Vec3) -> int {
    fdiv(dotw(a, b), SCALE as int)
}

/// A component of a vector divided by the vector's own fixed-point length
/// stays within two whole units: the length cannot fall far below any
/// single component's magnitude.
proof fn lemma_unit_comp_bound(c: int, len: int, q: int)
    requires
        256 <= len,
        q * (SCALE as int) >= c * c - (SCALE as int),
        (len + 1) * (len + 1) > q * (SCALE as int),
        -0x40000000 <= c <= 0x40000000,
    ensures
        -0x20000 <= fxdiv(c, len) <= 0x20000,
{
    let a: int = if c >= 0 {
        c
    } else {
        -c
    };
    assert(a * a == c * c) by (nonlinear_arith)
        requires a == c || a == -c;
    if a <= 404 {
        lemma_fdiv_range(c * (SCALE as int), len, 26476544);
        vstd::arithmetic::div_mod::lemma_div_is_ordered_by_denominator(26476544, 256, len);
    } else {
        assert(len >= a - 92) by (nonlinear_arith)
            requires
                (len + 1) * (len + 1) > a * a - 65536,
                a >= 405,
                len >= 0,
        ;
        lemma_abs_mul_le(c, SCALE as int, a, SCALE as int);
        lemma_fdiv_range(c * (SCALE as int), len, a * (SCALE as int));
        vstd::arithmetic::div_mod::lemma_div_is_ordered_by_denominator(
            a * (SCALE as int),
            a - 92,
            len,
        );
        crate::fixed::lemma_fdiv_le_const(a * (SCALE as int), a - 92, 131070);
    }
}

/// The fixed-point length of a vector: the square-root floor of its
/// floored squared length.
pub open spec fn spec_length(v: Vec3) -> int {
    sqrt_floor(spec_dot(v, v) * (SCALE as int))
}

/// The cosine used by refraction: the dot of the reversed incoming
/// direction with the normal, clamped from above to one.
pub open spec fn refract_cos(v: Vec3, n: Vec3) -> int {
    let d = fdiv(-dotw(v, n), SCALE as int);
    if d <= ONE_RAW as int {
        d
    } else {
        ONE_RAW as int
    }
}

/// `u` is `v` divided by its own fixed-point length, component-wise.
pub open spec fn is_normalized_of(v: Vec3, u: Vec3) -> bool {
    &&& u.x@ == fxdiv(v.x@, spec_length(v))
    &&& u.y@ == fxdiv(v.y@, spec_length(v))
    &&& u.z@ == fxdiv(v.z@, spec_length(v))
}

/// `r` is the fixed-point reflection of `v` about `n`.
pub open spec fn is_reflect(v: Vec3, n: Vec3, r: Vec3) -> bool {
    let d2 = 2 * spec_dot(v, n);
    &&& r.x@ == v.x@ - fxmul(n.x@, d2)
    &&& r.y@ == v.y@ - fxmul(n.y@, d2)
    &&& r.z@ == v.z@ - fxmul(n.z@, d2)
}

/// `r` is the fixed-point refraction of `v` at `n` with ratio `ratio`.
pub open spec fn is_refract(v: Vec3, n: Vec3, ratio: int, r: Vec3) -> bool {
    let cos = refract_cos(v, n);
    let px = fxmul(v.x@ + fxmul(n.x@, cos), ratio);
    let py = fxmul(v.y@ + fxmul(n.y@, cos), ratio);
    let pz = fxmul(v.z@ + fxmul(n.z@, cos), ratio);
    let pp = fdiv(px * px + py * py + pz * pz, SCALE as int);
    let back = ONE_RAW as int - pp;
    let mag = if back >= 0 { back } else { -back };
    let s = sqrt_floor(mag * (SCALE as int));
    &&& r.x@ == px - fxmul(n.x@, s)
    &&& r.y@ == py - fxmul(n.y@, s)
    &&& r.z@ == pz - fxmul(n.z@, s)
}

impl Vec3 {
    /// Build a vector from its components.
    pub fn new(x: Fx, y: Fx, z: Fx) -> (r: Vec3)
        ensures
            r.x == x,
            r.y == y,
            r.z == z,
    {
        Vec3 { x, y, z }
    }

    /// The zero vector.
    pub fn zero() -> (r: Vec3)
        ensures
            r.x@ == 0,
            r.y@ == 0,
            r.z@ == 0,
    {
        Vec3 { x: Fx::zero(), y: Fx::zero(), z: Fx::zero() }
    }

    /// First component.
    pub fn x(&self) -> (r: Fx)
        ensures
            r == self.x,
    {
        self.x
    }

    /// Second component.
    pub fn y(&self) -> (r: Fx)
        ensures
            r == self.y,
    {
        self.y
    }

    /// Third component.
    pub fn z(&self) -> (r: Fx)
        ensures
            r == self.z,
    {
        self.z
    }

    /// Exact component-wise sum.
    pub fn plus(self, rhs: Vec3) -> (r: Vec3)
        requires
            i64::MIN <= self.x@ + rhs.x@ <= i64::MAX,
            i64::MIN <= self.y@ + rhs.y@ <= i64::MAX,
            i64::MIN <= self.z@ + rhs.z@ <= i64::MAX,
        ensures
            r.x@ == self.x@ + rhs.x@,
            r.y@ == self.y@ + rhs.y@,
            r.z@ == self.z@ + rhs.z@,
    {
        Vec3 { x: self.x.plus(rhs.x), y: self.y.plus(rhs.y), z: self.z.plus(rhs.z) }
    }

    /// Exact component-wise difference.
    pub fn minus(self, rhs: Vec3) -> (r: Vec3)
        requires
            i64::MIN <= self.x@ - rhs.x@ <= i64::MAX,
            i64::MIN <= self.y@ - rhs.y@ <= i64::MAX,
            i64::MIN <= self.z@ - rhs.z@ <= i64::MAX,
        ensures
            r.x@ == self.x@ - rhs.x@,
            r.y@ == self.y@ - rhs.y@,
            r.z@ == self.z@ - rhs.z@,
    {
        Vec3 { x: self.x.minus(rhs.x), y: self.y.minus(rhs.y), z: self.z.minus(rhs.z) }
    }

    /// Exact component-wise negation.
    pub fn neg(self) -> (r: Vec3)
        requires
            self.x@ > i64::MIN,
            self.y@ > i64::MIN,
            self.z@ > i64::MIN,
        ensures
            r.x@ == -self.x@,
            r.y@ == -self.y@,
            r.z@ == -self.z@,
    {
        Vec3 { x: self.x.neg(), y: self.y.neg(), z: self.z.neg() }
    }

    /// Scale by a fixed-point scalar, flooring each component.
    pub fn scale(self, s: Fx) -> (r: Vec3)
        requires
            i64::MIN <= fxmul(self.x@, s@) <= i64::MAX,
            i64::MIN <= fxmul(self.y@, s@) <= i64::MAX,
            i64::MIN <= fxmul(self.z@, s@) <= i64::MAX,
        ensures
            r.x@ == fxmul(self.x@, s@),
            r.y@ == fxmul(self.y@, s@),
            r.z@ == fxmul(self.z@, s@),
    {
        Vec3 { x: self.x.times(s), y: self.y.times(s), z: self.z.times(s) }
    }

    /// Component-wise fixed-point product (used for colour attenuation).
    pub fn mul_comp(self, rhs: Vec3) -> (r: Vec3)
        requires
            i64::MIN <= fxmul(self.x@, rhs.x@) <= i64::MAX,
            i64::MIN <= fxmul(self.y@, rhs.y@) <= i64::MAX,
            i64::MIN <= fxmul(self.z@, rhs.z@) <= i64::MAX,
        ensures
            r.x@ == fxmul(self.x@, rhs.x@),
            r.y@ == fxmul(self.y@, rhs.y@),
            r.z@ == fxmul(self.z@, rhs.z@),
    {
        Vec3 { x: self.x.times(rhs.x), y: self.y.times(rhs.y), z: self.z.times(rhs.z) }
    }

    /// The exact dot product in wide units (`2^-32`), as an `i128`.
    pub fn dot_wide(self, rhs: Vec3) -> (r: i128)
        requires
            vec_bounded(self, 0x40000000000000),
            vec_bounded(rhs, 0x40000000000000),
        ensures
            r as int == dotw(self, rhs),
    {
        proof {
            lemma_abs_mul_le(self.x@, rhs.x@, 0x40000000000000, 0x40000000000000);
            lemma_abs_mul_le(self.y@, rhs.y@, 0x40000000000000, 0x40000000000000);
            lemma_abs_mul_le(self.z@, rhs.z@, 0x40000000000000, 0x40000000000000);
        }
        (self.x.raw as i128) * (rhs.x.raw as i128) + (self.y.raw as i128) * (rhs.y.raw as i128)
            + (self.z.raw as i128) * (rhs.z.raw as i128)
    }

    /// The dot product as a fixed-point scalar, flooring.
    pub fn dot(self, rhs: Vec3) -> (r: Fx)
        requires
            vec_bounded(self, 0x40000000000000),
            vec_bounded(rhs, 0x40000000000000),
            i64::MIN <= fdiv(dotw(self, rhs), SCALE as int) <= i64::MAX,
        ensures
            r@ == fdiv(dotw(self, rhs), SCALE as int),
    {
        let w: i128 = self.dot_wide(rhs);
        let q: i128 = crate::fixed::div_floor_i128(w, SCALE as i128);
        Fx { raw: q as i64 }
    }

    /// The squared length as a fixed-point scalar, flooring; never negative.
    pub fn length_squared(self) -> (r: Fx)
        requires
            vec_bounded(self, 0x40000000000000),
            fdiv(dotw(self, self), SCALE as int) <= i64::MAX,
        ensures
            r@ == fdiv(dotw(self, self), SCALE as int),
            r@ >= 0,
    {
        proof {
            crate::fixed::lemma_square_nonneg(self.x@);
            crate::fixed::lemma_square_nonneg(self.y@);
            crate::fixed::lemma_square_nonneg(self.z@);
            crate::fixed::lemma_fdiv_ordered(0, dotw(self, self), SCALE as int);
        }
        self.dot(self)
    }

    /// The length: the fixed-point square root of the squared length.
    pub fn length(self) -> (r: Fx)
        requires
            vec_bounded(self, 0x40000000000000),
            fdiv(dotw(self, self), SCALE as int) <= i64::MAX,
        ensures
            r@ == spec_length(self),
            crate::fixed::is_sqrt_floor(fdiv(dotw(self, self), SCALE as int) * (SCALE as int), r@),
            r@ >= 0,
    {
        self.length_squared().sqrt()
    }

    /// The vector divided by its own length, flooring each component.
    ///
    /// The length must be at least one raw unit, which is guaranteed when
    /// the squared wide dot product is at least `MIN_DIR_SQ`.
    pub fn normalized(self) -> (r: Vec3)
        requires
            vec_bounded(self, 0x40000000),
            dotw(self, self) >= MIN_DIR_SQ as int,
        ensures
            is_normalized_of(self, r),
            spec_length(self) >= 256,
            vec_bounded(r, 0x20000),
    {
        proof {
            lemma_dotw_bound(self, self, 0x40000000, 0x40000000);
            lemma_fdiv_range(dotw(self, self), SCALE as int, 0x3000000000000000);
            crate::fixed::lemma_fdiv_ordered(MIN_DIR_SQ as int, dotw(self, self), SCALE as int);
        }
        let len: Fx = self.length();
        proof {
            let n: int = fdiv(dotw(self, self), SCALE as int) * (SCALE as int);
            crate::fixed::lemma_sqrt_floor_exists(n);
            assert(len@ >= 1) by {
                if len@ == 0 {
                    assert((0 + 1) * (0 + 1) == 1);
                    assert(n < 1);
                    assert(fdiv(dotw(self, self), SCALE as int) >= 1);
                    assert(n >= SCALE as int) by (nonlinear_arith)
                        requires n == fdiv(dotw(self, self), SCALE as int) * (SCALE as int),
                            fdiv(dotw(self, self), SCALE as int) >= 1;
                }
            }
            let q: int = fdiv(dotw(self, self), SCALE as int);
            assert(len@ >= 256) by {
                crate::fixed::lemma_fdiv_ordered(MIN_DIR_SQ as int, dotw(self, self), SCALE as int);
                assert(q >= 1);
                if len@ < 256 {
                    assert((len@ + 1) * (len@ + 1) <= 65536) by (nonlinear_arith)
                        requires 0 <= len@ < 256;
                    assert(q * (SCALE as int) >= 1 * (SCALE as int)) by (nonlinear_arith)
                        requires q >= 1;
                }
            }
            crate::fixed::lemma_square_nonneg(self.x@);
            crate::fixed::lemma_square_nonneg(self.y@);
            crate::fixed::lemma_square_nonneg(self.z@);
            crate::fixed::lemma_fdiv_ordered(self.x@ * self.x@, dotw(self, self), SCALE as int);
            crate::fixed::lemma_fdiv_ordered(self.y@ * self.y@, dotw(self, self), SCALE as int);
            crate::fixed::lemma_fdiv_ordered(self.z@ * self.z@, dotw(self, self), SCALE as int);
            crate::fixed::lemma_fdiv_mul_back(self.x@ * self.x@, SCALE as int);
            crate::fixed::lemma_fdiv_mul_back(self.y@ * self.y@, SCALE as int);
            crate::fixed::lemma_fdiv_mul_back(self.z@ * self.z@, SCALE as int);
            assert(q * (SCALE as int) >= fdiv(self.x@ * self.x@, SCALE as int) * (SCALE as int))
                by (nonlinear_arith)
                requires q >= fdiv(self.x@ * self.x@, SCALE as int);
            assert(q * (SCALE as int) >= fdiv(self.y@ * self.y@, SCALE as int) * (SCALE as int))
                by (nonlinear_arith)
                requires q >= fdiv(self.y@ * self.y@, SCALE as int);
            assert(q * (SCALE as int) >= fdiv(self.z@ * self.z@, SCALE as int) * (SCALE as int))
                by (nonlinear_arith)
                requires q >= fdiv(self.z@ * self.z@, SCALE as int);
            lemma_unit_comp_bound(self.x@, len@, q);
            lemma_unit_comp_bound(self.y@, len@, q);
            lemma_unit_comp_bound(self.z@, len@, q);
        }
        Vec3 { x: self.x.over(len), y: self.y.over(len), z: self.z.over(len) }
    }

    /// The reflection of `self` about the unit-ish normal `norm`:
    /// `self - 2 (self . norm) norm`, with fixed-point rounding.
    pub fn reflect(self, norm: Vec3) -> (r: Vec3)
        requires
            vec_bounded(self, 0x200000),
            vec_bounded(norm, 0x200000),
        ensures
            is_reflect(self, norm, r),
            vec_bounded(r, 0x1000000000),
    {
        proof {
            lemma_dotw_bound(self, norm, 0x200000, 0x200000);
            lemma_fdiv_range(dotw(self, norm), SCALE as int, 0xc0000000000);
            let d2: int = 2 * spec_dot(self, norm);
            lemma_fxmul_range(norm.x@, d2, 0x200000, 0x20000000);
            lemma_fxmul_range(norm.y@, d2, 0x200000, 0x20000000);
            lemma_fxmul_range(norm.z@, d2, 0x200000, 0x20000000);
        }
        let d: Fx = self.dot(norm);
        let d2: Fx = d.plus(d);
        self.minus(norm.scale(d2))
    }

    /// The refraction of the unit-ish direction `self` at the unit-ish
    /// normal `norm` with refraction ratio `ratio`, with fixed-point
    /// rounding: the perpendicular part `ratio (self + cos norm)` plus the
    /// parallel part `-sqrt(|1 - |perp|^2|) norm`.
    pub fn refract(self, norm: Vec3, ratio: Fx) -> (r: Vec3)
        requires
            vec_bounded(self, 0x20000),
            vec_bounded(norm, 0x20000),
            0 < ratio@ <= 0x40000,
        ensures
            is_refract(self, norm, ratio@, r),
            vec_bounded(r, 0x80000000),
    {
        let mu: Vec3 = self.neg();
        proof {
            assert(dotw(mu, norm) == -dotw(self, norm)) by (nonlinear_arith)
                requires
                    mu.x@ == -self.x@,
                    mu.y@ == -self.y@,
                    mu.z@ == -self.z@,
                    dotw(mu, norm) == mu.x@ * norm.x@ + mu.y@ * norm.y@ + mu.z@ * norm.z@,
                    dotw(self, norm) == self.x@ * norm.x@ + self.y@ * norm.y@ + self.z@
                        * norm.z@,
            ;
            lemma_dotw_bound(mu, norm, 0x20000, 0x20000);
            lemma_fdiv_range(dotw(mu, norm), SCALE as int, 0xc00000000);
            lemma_fdiv_range(-dotw(self, norm), SCALE as int, 0xc00000000);
        }
        let dfx: Fx = mu.dot(norm);
        let cos: Fx = dfx.min_of(Fx::one());
        proof {
            assert(cos@ == refract_cos(self, norm));
            lemma_fxmul_range(norm.x@, cos@, 0x20000, 0x200000);
            lemma_fxmul_range(norm.y@, cos@, 0x20000, 0x200000);
            lemma_fxmul_range(norm.z@, cos@, 0x20000, 0x200000);
        }
        let shifted: Vec3 = self.plus(norm.scale(cos));
        proof {
            lemma_fxmul_range(shifted.x@, ratio@, 0x800000, 0x40000);
            lemma_fxmul_range(shifted.y@, ratio@, 0x800000, 0x40000);
            lemma_fxmul_range(shifted.z@, ratio@, 0x800000, 0x40000);
        }
        let perp: Vec3 = shifted.scale(ratio);
        proof {
            lemma_dotw_bound(perp, perp, 0x4000000, 0x4000000);
            lemma_fdiv_range(dotw(perp, perp), SCALE as int, 0x30000000000000);
        }
        let pp: Fx = perp.length_squared();
        let back: Fx = Fx::one().minus(pp);
        let mag: Fx = back.abs_of();
        let s: Fx = mag.sqrt();
        proof {
            let nn: int = mag@ * (SCALE as int);
            assert(s@ * s@ <= nn);
            assert(s@ <= 0x8000000) by (nonlinear_arith)
                requires
                    s@ * s@ <= nn,
                    0 <= s@,
                    nn <= 0x40000000000000,
            ;
            lemma_fxmul_range(norm.x@, s@, 0x20000, 0x8000000);
            lemma_fxmul_range(norm.y@, s@, 0x20000, 0x8000000);
            lemma_fxmul_range(norm.z@, s@, 0x20000, 0x8000000);
        }
        perp.minus(norm.scale(s))
    }

    /// Whether every component is within the near-zero threshold.
    pub fn near_zero(self) -> (r: bool)
        requires
            self.x@ > i64::MIN,
            self.y@ > i64::MIN,
            self.z@ > i64::MIN,
        ensures
            r == (-(NEAR_ZERO_RAW as int) <= self.x@ <= NEAR_ZERO_RAW as int
                && -(NEAR_ZERO_RAW as int) <= self.y@ <= NEAR_ZERO_RAW as int
                && -(NEAR_ZERO_RAW as int) <= self.z@ <= NEAR_ZERO_RAW as int),
    {
        let nx: bool = self.x.abs_of().raw <= NEAR_ZERO_RAW;
        let ny: bool = self.y.abs_of().raw <= NEAR_ZERO_RAW;
        let nz: bool = self.z.abs_of().raw <= NEAR_ZERO_RAW;
        nx && ny && nz
    }

    /// The cross product, each component a difference of floored products.
    pub fn cross(self, rhs: Vec3) -> (r: Vec3)
        requires
            vec_bounded(self, 0x40000000),
            vec_bounded(rhs, 0x40000000),
        ensures
            r.x@ == fxmul(self.y@, rhs.z@) - fxmul(self.z@, rhs.y@),
            r.y@ == fxmul(self.z@, rhs.x@) - fxmul(self.x@, rhs.z@),
            r.z@ == fxmul(self.x@, rhs.y@) - fxmul(self.y@, rhs.x@),
    {
        proof {
            let bb: int = 0x40000000;
            lemma_fxmul_range(self.y@, rhs.z@, bb, bb);
            lemma_fxmul_range(self.z@, rhs.y@, bb, bb);
            lemma_fxmul_range(self.z@, rhs.x@, bb, bb);
            lemma_fxmul_range(self.x@, rhs.z@, bb, bb);
            lemma_fxmul_range(self.x@, rhs.y@, bb, bb);
            lemma_fxmul_range(self.y@, rhs.x@, bb, bb);
        }
        Vec3 {
            x: self.y.times(rhs.z).minus(self.z.times(rhs.y)),
            y: self.z.times(rhs.x).minus(self.x.times(rhs.z)),
            z: self.x.times(rhs.y).minus(self.y.times(rhs.x)),
        }
    }
}


/// One channel of a pixel readied for output: the mean over the sample
/// count, gamma-corrected by a square root, clamped to just below one
/// and scaled to a byte.
pub open spec fn spec_channel_byte(c: int, samples: int) -> int {
    let mean = fdiv(c, samples);
    let root = if mean >= 0 {
        sqrt_floor(mean * (SCALE as int))
    } else {
        0
    };
    let clamped = if root > 65470 {
        65470
    } else {
        root
    };
    fdiv(clamped, 256)
}

impl Vec3 {
    /// Quantize an accumulated colour to one byte per channel: average
    /// over the number of samples, gamma-correct with a square root, and
    /// clamp to `[0, 0.999]` before scaling, so no channel overflows a
    /// byte.
    pub fn to_rgb8(self, samples: u32) -> (r: (u8, u8, u8))
        requires
            samples >= 1,
            vec_bounded(self, 0x4000000000000),
        ensures
            r.0 as int == spec_channel_byte(self.x@, samples as int),
            r.1 as int == spec_channel_byte(self.y@, samples as int),
            r.2 as int == spec_channel_byte(self.z@, samples as int),
    {
        (
            channel_byte(self.x, samples),
            channel_byte(self.y, samples),
            channel_byte(self.z, samples),
        )
    }
}

/// Quantize one channel.
fn channel_byte(c: Fx, samples: u32) -> (r: u8)
    requires
        samples >= 1,
        -0x4000000000000 <= c@ <= 0x4000000000000,
    ensures
        r as int == spec_channel_byte(c@, samples as int),
{
    proof {
        crate::fixed::lemma_fdiv_abs_le(c@, samples as int, 0x4000000000000);
    }
    let mean: i64 = crate::fixed::div_floor_i128(c.raw as i128, samples as i128) as i64;
    let root: Fx = if mean >= 0 {
        Fx { raw: mean }.sqrt()
    } else {
        Fx::zero()
    };
    let clamped: i64 = if root.raw > 65470 {
        65470
    } else {
        root.raw
    };
    proof {
        if root.raw >= 0 {
            crate::fixed::lemma_fdiv_ordered(0, clamped as int, 256);
            crate::fixed::lemma_fdiv_ordered(clamped as int, 65535, 256);
        }
    }
    let b: i64 = crate::fixed::div_floor_i128(clamped as i128, 256i128) as i64;
    b as u8
}

} // verus!
