//! Fixed-point scalars.
//!
//! Every coordinate, colour channel and ray parameter in this crate is a
//! binary fixed-point number: an `i64` raw value that stands for
//! `raw / 65536`. All arithmetic on them is exact integer arithmetic with
//! flooring where a quotient is not exact, so every operation has a precise
//! mathematical description and the geometry built on top of it can be
//! specified and proved without any rounding slack hidden in the model.

use vstd::arithmetic::div_mod::{
    lemma_div_is_ordered, lemma_div_pos_is_pos, lemma_fundamental_div_mod,
};
use vstd::prelude::*;

verus! {

/// Number of raw units per whole unit: the fixed-point scale.
pub const SCALE: i64 = 65536;

/// One whole unit.
pub const ONE_RAW: i64 = 65536;

/// Floor division of `a` by `b` (`b != 0`), as mathematical integers:
/// the greatest integer not above the exact quotient.
pub open spec fn fdiv(a: int, b: int) -> int {
    if b > 0 {
        a / b
    } else {
        (-a) / (-b)
    }
}

/// The product of two fixed-point raw values, rescaled back down, flooring.
pub open spec fn fxmul(a: int, b: int) -> int {
    fdiv(a * b, SCALE as int)
}

/// The quotient of two fixed-point raw values (`b != 0`), rescaled, flooring.
pub open spec fn fxdiv(a: int, b: int) -> int {
    fdiv(a * (SCALE as int), b)
}

/// `r` is the floor of the square root of `n`.
pub open spec fn is_sqrt_floor(n: int, r: int) -> bool {
    0 <= r && r * r <= n && n < (r + 1) * (r + 1)
}

/// The floor of the square root of a nonnegative integer.
pub open spec fn sqrt_floor(n: int) -> int {
    choose|r: int| is_sqrt_floor(n, r)
}

/// The square root floor is unique when it exists.
pub proof fn lemma_sqrt_floor_unique(n: int, r1: int, r2: int)
    requires
        is_sqrt_floor(n, r1),
        is_sqrt_floor(n, r2),
    ensures
        r1 == r2,
{
    if r1 < r2 {
        assert((r1 + 1) * (r1 + 1) <= r2 * r2) by (nonlinear_arith)
            requires 0 <= r1, 0 <= r2, r1 < r2;
    }
    if r2 < r1 {
        assert((r2 + 1) * (r2 + 1) <= r1 * r1) by (nonlinear_arith)
            requires 0 <= r1, 0 <= r2, r2 < r1;
    }
}

/// Every nonnegative integer has a square-root floor, so `sqrt_floor`
/// denotes it.
pub proof fn lemma_sqrt_floor_exists(n: int)
    requires
        n >= 0,
    ensures
        is_sqrt_floor(n, sqrt_floor(n)),
        sqrt_floor(n) >= 0,
    decreases n,
{
    if n == 0 {
        assert(is_sqrt_floor(0, 0));
    } else {
        lemma_sqrt_floor_exists(n - 1);
        let r = sqrt_floor(n - 1);
        if (r + 1) * (r + 1) <= n {
            assert(n == (r + 1) * (r + 1));
            assert(is_sqrt_floor(n, r + 1)) by {
                assert((r + 1) * (r + 1) < (r + 2) * (r + 2)) by (nonlinear_arith)
                    requires r >= 0;
            }
        } else {
            assert(is_sqrt_floor(n, r));
        }
    }
}

/// A square-root floor is at least `k` when the operand is at least
/// `k` squared.
pub proof fn lemma_sqrt_at_least(n: int, r: int, k: int)
    requires
        is_sqrt_floor(n, r),
        0 <= k,
        n >= k * k,
    ensures
        r >= k,
{
    if r < k {
        assert((r + 1) * (r + 1) <= k * k) by (nonlinear_arith)
            requires
                0 <= r,
                r < k,
        ;
    }
}

/// The square-root floor is monotone.
pub proof fn lemma_sqrt_floor_ordered(m: int, n: int)
    requires
        0 <= m <= n,
    ensures
        sqrt_floor(m) <= sqrt_floor(n),
{
    lemma_sqrt_floor_exists(m);
    lemma_sqrt_floor_exists(n);
    let a = sqrt_floor(m);
    let b = sqrt_floor(n);
    if a > b {
        assert((b + 1) * (b + 1) <= a * a) by (nonlinear_arith)
            requires 0 <= b, b + 1 <= a;
    }
}

/// Floor division by a positive divisor is monotone in the dividend.
pub proof fn lemma_fdiv_ordered(x: int, y: int, d: int)
    requires
        x <= y,
        d > 0,
    ensures
        fdiv(x, d) <= fdiv(y, d),
{
    lemma_div_is_ordered(x, y, d);
}

/// A bound on the dividend gives a bound on the floor quotient.
pub proof fn lemma_fdiv_range(x: int, d: int, m: int)
    requires
        d > 0,
        0 <= m,
        -m <= x <= m,
    ensures
        -(m / d) - 1 <= fdiv(x, d) <= m / d,
{
    lemma_fdiv_ordered(x, m, d);
    lemma_fdiv_ordered(-m, x, d);
    if m == 0 {
        vstd::arithmetic::div_mod::lemma_basic_div(0, d);
    } else {
        lemma_div_neg(-m, d, m / d, m % d);
        vstd::arithmetic::div_mod::lemma_mod_bound(m, d);
    }
}

/// Multiplying a floor quotient back by the divisor lands within one
/// divisor of the dividend.
pub proof fn lemma_fdiv_mul_back(x: int, d: int)
    requires
        d >= 1,
    ensures
        fdiv(x, d) * d > x - d,
        fdiv(x, d) * d <= x,
{
    lemma_fundamental_div_mod(x, d);
    vstd::arithmetic::div_mod::lemma_mod_bound(x, d);
    assert(d * (x / d) == (x / d) * d) by (nonlinear_arith);
}

/// A dividend below a multiple of the divisor has a floor quotient below
/// the multiplier.
pub proof fn lemma_fdiv_le_const(x: int, d: int, k: int)
    requires
        d >= 1,
        0 <= k,
        x <= k * d,
    ensures
        fdiv(x, d) <= k,
{
    lemma_fdiv_ordered(x, k * d, d);
    assert(k * d == d * k) by (nonlinear_arith);
    vstd::arithmetic::div_mod::lemma_div_multiples_vanish(k, d);
}

/// A bounded dividend divided by a divisor of at least one stays bounded.
pub proof fn lemma_fdiv_abs_le(x: int, d: int, m: int)
    requires
        d >= 1,
        0 <= m,
        -m <= x <= m,
    ensures
        -m - 1 <= fdiv(x, d) <= m,
{
    lemma_fdiv_range(x, d, m);
    vstd::arithmetic::div_mod::lemma_div_is_ordered_by_denominator(m, 1, d);
}

/// Bounds on two factors bound their product.
pub proof fn lemma_abs_mul_le(a: int, b: int, aa: int, bb: int)
    requires
        -aa <= a <= aa,
        -bb <= b <= bb,
        0 <= aa,
        0 <= bb,
    ensures
        -(aa * bb) <= a * b <= aa * bb,
{
    assert(-(aa * bb) <= a * b <= aa * bb) by (nonlinear_arith)
        requires
            -aa <= a <= aa,
            -bb <= b <= bb,
            0 <= aa,
            0 <= bb,
    ;
}

/// Bounds on the factors bound the fixed-point product.
pub proof fn lemma_fxmul_range(a: int, b: int, aa: int, bb: int)
    requires
        -aa <= a <= aa,
        -bb <= b <= bb,
        0 <= aa,
        0 <= bb,
    ensures
        -((aa * bb) / (SCALE as int)) - 1 <= fxmul(a, b) <= (aa * bb) / (SCALE as int),
{
    lemma_abs_mul_le(a, b, aa, bb);
    lemma_fdiv_range(a * b, SCALE as int, aa * bb);
}

/// A square is never negative.
pub proof fn lemma_square_nonneg(a: int)
    ensures
        a * a >= 0,
{
    assert(a * a >= 0) by (nonlinear_arith);
}

/// If a square is below a square of a nonnegative bound, the base lies
/// within the bound.
pub proof fn lemma_square_le_bound(e: int, r: int)
    requires
        0 <= r,
        e * e <= r * r,
    ensures
        -r <= e <= r,
{
    assert(-r <= e <= r) by (nonlinear_arith)
        requires
            0 <= r,
            e * e <= r * r,
    ;
}

/// Floor division of an `i128` by a positive `i128`.
pub fn div_floor_i128(a: i128, b: i128) -> (q: i128)
    requires
        b > 0,
        a > i128::MIN,
    ensures
        q == fdiv(a as int, b as int),
{
    if a >= 0 {
        let q0: u128 = (a as u128) / (b as u128);
        proof {
            lemma_div_nonneg_agrees(a as int, b as int);
        }
        q0 as i128
    } else {
        let m: u128 = (-a) as u128;
        let d: u128 = b as u128;
        let q0: u128 = m / d;
        let r0: u128 = m % d;
        proof {
            lemma_div_neg(a as int, b as int, q0 as int, r0 as int);
        }
        if r0 == 0 {
            -(q0 as i128)
        } else {
            -(q0 as i128) - 1
        }
    }
}

/// For nonnegative dividends, machine division agrees with integer floor
/// division.
proof fn lemma_div_nonneg_agrees(a: int, b: int)
    requires
        a >= 0,
        b > 0,
    ensures
        a / b >= 0,
        a / b <= a,
{
    lemma_div_pos_is_pos(a, b);
    lemma_div_is_ordered_by_denominator_one(a, b);
}

proof fn lemma_div_is_ordered_by_denominator_one(a: int, b: int)
    requires
        a >= 0,
        b >= 1,
    ensures
        a / b <= a,
{
    lemma_fundamental_div_mod(a, b);
    assert(a == b * (a / b) + a % b);
    lemma_div_pos_is_pos(a, b);
    assert(b * (a / b) >= 1 * (a / b)) by (nonlinear_arith)
        requires b >= 1, a / b >= 0;
}

/// Relates the floor quotient of a negative value to the machine quotient of
/// its magnitude.
proof fn lemma_div_neg(a: int, b: int, q0: int, r0: int)
    requires
        a < 0,
        b > 0,
        q0 == (-a) / b,
        r0 == (-a) % b,
    ensures
        r0 == 0 ==> a / b == -q0,
        r0 != 0 ==> a / b == -q0 - 1,
{
    lemma_fundamental_div_mod(-a, b);
    assert(-a == b * q0 + r0);
    if r0 == 0 {
        assert(a == b * (-q0) + 0) by {
            assert(b * (-q0) == -(b * q0)) by (nonlinear_arith);
        }
        lemma_fundamental_div_mod_converse_pos(a, b, -q0, 0);
    } else {
        assert(a == b * (-q0 - 1) + (b - r0)) by {
            assert(b * (-q0 - 1) == -(b * q0) - b) by (nonlinear_arith);
        }
        lemma_fundamental_div_mod_converse_pos(a, b, -q0 - 1, b - r0);
    }
}

/// If `a == b * q + r` with `0 <= r < b`, then `q` and `r` are the quotient
/// and remainder of `a` by `b`.
proof fn lemma_fundamental_div_mod_converse_pos(a: int, b: int, q: int, r: int)
    requires
        b > 0,
        0 <= r < b,
        a == b * q + r,
    ensures
        q == a / b,
        r == a % b,
{
    assert(a == q * b + r) by (nonlinear_arith)
        requires a == b * q + r;
    vstd::arithmetic::div_mod::lemma_fundamental_div_mod_converse(a, b, q, r);
}

/// Floor of the square root of a `u128` below `2^126`, by binary search.
pub fn isqrt_u128(n: u128) -> (r: u128)
    requires
        n < (1u128 << 126),
    ensures
        is_sqrt_floor(n as int, r as int),
        r == sqrt_floor(n as int),
{
    let mut lo: u128 = 0;
    let mut hi: u128 = 1u128 << 63;
    proof {
        assert((1u128 << 63) == 0x8000000000000000u128) by (bit_vector);
        assert((1u128 << 126) == 0x40000000000000000000000000000000u128) by (bit_vector);
        assert((0x8000000000000000u128 as int) * (0x8000000000000000u128 as int)
            == 0x40000000000000000000000000000000) by (nonlinear_arith);
    }
    while lo + 1 < hi
        invariant
            (lo as int) * (lo as int) <= n as int,
            (hi as int) * (hi as int) > n as int,
            lo < hi,
            hi <= 0x8000000000000000u128,
        decreases hi - lo,
    {
        let mid: u128 = lo + (hi - lo) / 2;
        proof {
            assert((mid as int) * (mid as int) <= u128::MAX) by (nonlinear_arith)
                requires
                    0 <= mid as int <= 0x8000000000000000,
            ;
        }
        if mid * mid <= n {
            lo = mid;
        } else {
            hi = mid;
        }
    }
    proof {
        assert(lo + 1 == hi);
        let witness: int = lo as int;
        assert(is_sqrt_floor(n as int, witness));
        lemma_sqrt_floor_unique(n as int, witness, sqrt_floor(n as int));
    }
    lo
}

/// The range reduction of the fixed-point logarithm: double `m` until it
/// reaches the upper half of the unit range or the budget runs out,
/// returning the mantissa and the budget left.
pub open spec fn nl_reduce(m: int, budget: nat) -> (int, nat)
    decreases budget,
{
    if m < 32768 && budget > 0 {
        nl_reduce(2 * m, (budget - 1) as nat)
    } else {
        (m, budget)
    }
}

/// The truncated series for `-ln(1 - y)`: terms `y^n / n` folded from
/// index `n` to sixteen.
pub open spec fn nl_series(y: int, term: int, acc: int, n: int) -> int
    decreases 17 - n,
{
    if 2 <= n <= 16 {
        let t2 = fxmul(term, y);
        nl_series(y, t2, acc + fdiv(t2, n), n + 1)
    } else {
        acc
    }
}

/// The fixed-point negated natural logarithm of `u / 65536` for `u` in
/// `[0, 65536)`: sixteen doublings at most bring the mantissa into the
/// upper half of the unit range, each contributing `ln 2`, and a
/// sixteen-term series covers the rest. Zero maps to the value at the
/// smallest positive fixed-point number.
pub open spec fn spec_neg_ln(u: int) -> int {
    if u <= 0 {
        (16 * 45426) as int
    } else {
        let red = nl_reduce(u, 16nat);
        let m = red.0;
        let k = 16 - red.1 as int;
        let y = 65536 - m;
        k * 45426 + nl_series(y, y, y, 2)
    }
}

/// The fixed-point negated natural logarithm of a sample in `[0, 1)`,
/// used to draw exponential free-flight distances in participating
/// media: exactly `spec_neg_ln`, and bounded.
pub(crate) fn neg_ln_unit(u: i64) -> (r: i64)
    requires
        0 <= u < 65536,
    ensures
        r as int == spec_neg_ln(u as int),
        0 <= r <= 0x200000,
{
    // ln 2, in fixed point.
    let ln2: i64 = 45426;
    if u == 0 {
        // -ln(2^-16) = 16 ln 2.
        return 16 * ln2;
    }
    let mut m: i64 = u;
    let mut k: i64 = 0;
    while m < 32768 && k < 16
        invariant
            1 <= m < 65536,
            0 <= k <= 16,
            nl_reduce(u as int, 16nat) == nl_reduce(m as int, (16 - k) as nat),
        decreases 16 - k,
    {
        m = m * 2;
        k = k + 1;
    }
    proof {
        assert(nl_reduce(m as int, (16 - k) as nat) == (m as int, (16 - k) as nat));
        assert(16 - (16 - k) == k);
    }
    // m in [32768, 65536); u = m * 2^-k, so -ln u = k ln 2 - ln(m / 65536).
    let y: i64 = 65536 - m;
    // -ln(1 - y) as a truncated series: y + y^2/2 + ... + y^16/16.
    let mut acc: i64 = y;
    let mut term: i64 = y;
    let mut n: i64 = 2;
    while n <= 16
        invariant
            0 <= y <= 65535,
            0 <= term <= 65535,
            0 <= acc <= 0x100000,
            2 <= n <= 17,
            acc <= (n - 1) * 65536,
            nl_series(y as int, y as int, y as int, 2) == nl_series(
                y as int,
                term as int,
                acc as int,
                n as int,
            ),
        decreases 17 - n,
    {
        proof {
            lemma_abs_mul_le(term as int, y as int, 65535, 65535);
            lemma_fdiv_ordered(0, (term as int) * (y as int), SCALE as int);
            lemma_fdiv_le_const((term as int) * (y as int), SCALE as int, 65535);
        }
        let wide: i128 = (term as i128) * (y as i128);
        let t2: i128 = div_floor_i128(wide, SCALE as i128);
        term = t2 as i64;
        proof {
            lemma_fdiv_ordered(0, term as int, n as int);
            lemma_fdiv_le_const(term as int, n as int, 65535);
        }
        let piece: i128 = div_floor_i128(term as i128, n as i128);
        acc = acc + (piece as i64);
        n = n + 1;
    }
    k * ln2 + acc
}

/// A fixed-point scalar: the value `raw / 65536`.
#[derive(Clone, Copy, Debug, PartialEq, Eq, Structural)]
pub struct Fx {
    pub raw: i64,
}

impl View for Fx {
    type V = int;

    open spec fn view(&self) -> int {
        self.raw as int
    }
}

impl Fx {
    /// The scalar with the given raw value.
    pub fn from_raw(raw: i64) -> (r: Fx)
        ensures
            r@ == raw as int,
    {
        Fx { raw }
    }

    /// The scalar standing for the whole number `n`.
    pub fn from_int(n: i32) -> (r: Fx)
        ensures
            r@ == (n as int) * (SCALE as int),
    {
        Fx { raw: (n as i64) * SCALE }
    }

    /// Zero.
    pub fn zero() -> (r: Fx)
        ensures
            r@ == 0,
    {
        Fx { raw: 0 }
    }

    /// One whole unit.
    pub fn one() -> (r: Fx)
        ensures
            r@ == ONE_RAW as int,
    {
        Fx { raw: ONE_RAW }
    }

    /// Exact sum.
    pub fn plus(self, rhs: Fx) -> (r: Fx)
        requires
            i64::MIN <= self@ + rhs@ <= i64::MAX,
        ensures
            r@ == self@ + rhs@,
    {
        Fx { raw: self.raw + rhs.raw }
    }

    /// Exact difference.
    pub fn minus(self, rhs: Fx) -> (r: Fx)
        requires
            i64::MIN <= self@ - rhs@ <= i64::MAX,
        ensures
            r@ == self@ - rhs@,
    {
        Fx { raw: self.raw - rhs.raw }
    }

    /// Exact negation.
    pub fn neg(self) -> (r: Fx)
        requires
            self@ > i64::MIN,
        ensures
            r@ == -self@,
    {
        Fx { raw: -self.raw }
    }

    /// Fixed-point product, flooring.
    pub fn times(self, rhs: Fx) -> (r: Fx)
        requires
            i64::MIN <= fxmul(self@, rhs@) <= i64::MAX,
        ensures
            r@ == fxmul(self@, rhs@),
    {
        let p: i128 = (self.raw as i128) * (rhs.raw as i128);
        let q: i128 = div_floor_i128(p, SCALE as i128);
        Fx { raw: q as i64 }
    }

    /// Fixed-point quotient, flooring; the divisor must not be zero.
    pub fn over(self, rhs: Fx) -> (r: Fx)
        requires
            rhs@ != 0,
            i64::MIN <= fxdiv(self@, rhs@) <= i64::MAX,
        ensures
            r@ == fxdiv(self@, rhs@),
    {
        let n: i128 = (self.raw as i128) * (SCALE as i128);
        let q: i128 = if rhs.raw > 0 {
            div_floor_i128(n, rhs.raw as i128)
        } else {
            div_floor_i128(-n, -(rhs.raw as i128))
        };
        Fx { raw: q as i64 }
    }

    /// The smaller of two scalars.
    pub fn min_of(self, rhs: Fx) -> (r: Fx)
        ensures
            r@ == if self@ <= rhs@ { self@ } else { rhs@ },
    {
        if self.raw <= rhs.raw {
            self
        } else {
            rhs
        }
    }

    /// The larger of two scalars.
    pub fn max_of(self, rhs: Fx) -> (r: Fx)
        ensures
            r@ == if self@ >= rhs@ { self@ } else { rhs@ },
    {
        if self.raw >= rhs.raw {
            self
        } else {
            rhs
        }
    }

    /// The absolute value.
    pub fn abs_of(self) -> (r: Fx)
        requires
            self@ > i64::MIN,
        ensures
            r@ == if self@ >= 0 { self@ } else { -self@ },
    {
        if self.raw >= 0 {
            self
        } else {
            Fx { raw: -self.raw }
        }
    }

    /// Strictly less.
    pub fn lt(self, rhs: Fx) -> (r: bool)
        ensures
            r == (self@ < rhs@),
    {
        self.raw < rhs.raw
    }

    /// Less or equal.
    pub fn le(self, rhs: Fx) -> (r: bool)
        ensures
            r == (self@ <= rhs@),
    {
        self.raw <= rhs.raw
    }

    /// Fixed-point square root, flooring, of a nonnegative scalar.
    ///
    /// The raw result is the floor of the square root of `raw * 65536`,
    /// which is the fixed-point representation of the floor-rounded
    /// square root of the value.
    pub fn sqrt(self) -> (r: Fx)
        requires
            self@ >= 0,
        ensures
            r@ == sqrt_floor(self@ * (SCALE as int)),
            is_sqrt_floor(self@ * (SCALE as int), r@),
            r@ >= 0,
    {
        let n: u128 = (self.raw as u128) * (SCALE as u128);
        proof {
            assert((self.raw as int) * (SCALE as int) < (1u128 << 126)) by {
                assert((1u128 << 126) == 0x40000000000000000000000000000000u128) by (bit_vector);
            }
        }
        let s: u128 = isqrt_u128(n);
        proof {
            let si: int = s as int;
            let ni: int = n as int;
            assert(ni == self@ * (SCALE as int));
            assert(si * si <= ni);
            assert(si < 0x10000000000) by (nonlinear_arith)
                requires
                    si * si <= ni,
                    0 <= si,
                    ni < 0x80000000000000000000,
            ;
            lemma_sqrt_floor_unique(ni, si, sqrt_floor(ni));
        }
        Fx { raw: s as i64 }
    }
}

} // verus!
