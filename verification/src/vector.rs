//! Two-dimensional vectors with fixed-point coordinates.

use vstd::prelude::*;
use vstd::arithmetic::div_mod::lemma_fundamental_div_mod;
use crate::fixed::{div_toward_zero, integer_sqrt, is_sqrt_floor, isqrt, lemma_isqrt, scaled, MAX_COORD, MAX_EXTENT, ONE};

verus! {

/// The largest distance between the squared length of a unit vector and
/// `ONE * ONE`: the length of a unit vector is within three millionths of 1.
pub const UNIT_SLACK: i64 = 5_000_000;

/// A point or a direction of the plane.
#[derive(Clone, Copy, Debug, PartialEq, Eq, Structural)]
pub struct Vec2 {
    pub x: i64,
    pub y: i64,
}

/// The squared length of `v`, as a plain integer.
pub open spec fn norm_sq(v: Vec2) -> int {
    v.x * v.x + v.y * v.y
}

/// The length of `v` in fixed-point, rounded down.
pub open spec fn length(v: Vec2) -> int {
    isqrt(norm_sq(v) * ONE * ONE)
}

/// `v` has length 1 up to rounding.
pub open spec fn is_unit(v: Vec2) -> bool {
    ONE * ONE - UNIT_SLACK <= norm_sq(v) <= ONE * ONE + UNIT_SLACK
}

/// Both coordinates of `v` are within `bound` of zero.
pub open spec fn within_extent(v: Vec2, bound: int) -> bool {
    -bound <= v.x <= bound && -bound <= v.y <= bound
}

/// `v` scaled to length 1: each coordinate times `ONE`, divided by the length
/// of `v` and rounded toward zero.
pub open spec fn normalized(v: Vec2) -> Vec2 {
    Vec2 {
        x: div_toward_zero(v.x * ONE * ONE, length(v)) as i64,
        y: div_toward_zero(v.y * ONE * ONE, length(v)) as i64,
    }
}

/// The point that lies the fraction `s` of the way from `a` to `b`.
pub open spec fn lerped(a: Vec2, b: Vec2, s: int) -> Vec2 {
    Vec2 { x: (a.x + scaled(b.x - a.x, s)) as i64, y: (a.y + scaled(b.y - a.y, s)) as i64 }
}

/// `v` turned a quarter turn counter-clockwise.
pub open spec fn perpendicular(v: Vec2) -> Vec2 {
    Vec2 { x: (-v.y) as i64, y: v.x }
}

/// `v` reversed.
pub open spec fn negated(v: Vec2) -> Vec2 {
    Vec2 { x: (-v.x) as i64, y: (-v.y) as i64 }
}

proof fn lemma_square_le(a: int, b: int)
    by (nonlinear_arith)
    requires
        0 <= a <= b,
    ensures
        a * a <= b * b,
{
}

proof fn lemma_square_lt(a: int, b: int)
    by (nonlinear_arith)
    requires
        0 <= a < b,
    ensures
        a * a < b * b,
{
}

proof fn lemma_lt_of_square_lt(a: int, b: int)
    by (nonlinear_arith)
    requires
        0 <= a,
        0 <= b,
        a * a < b * b,
    ensures
        a < b,
{
}

/// The quotient and the bounds that define it, for a dividend that is not
/// negative and a positive divisor.
proof fn lemma_quotient(p: int, d: int)
    requires
        0 <= p,
        0 < d,
    ensures
        0 <= p / d,
        (p / d) * d <= p,
        p < (p / d) * d + d,
{
    lemma_fundamental_div_mod(p, d);
    assert(d * (p / d) == (p / d) * d) by (nonlinear_arith);
    assert(0 <= p / d) by (nonlinear_arith)
        requires
            0 <= p,
            0 < d,
    ;
}

/// What rounding leaves of a unit length: with `d` the rounded-down length of
/// `(x, y)` in fixed-point, the quotients `x * ONE * ONE / d` and
/// `y * ONE * ONE / d` are at most `ONE` each, and their squares add up to
/// `ONE * ONE` within `UNIT_SLACK`.
proof fn lemma_unit_quotients(x: int, y: int, d: int)
    requires
        0 <= x,
        0 <= y,
        0 < x * x + y * y,
        is_sqrt_floor((x * x + y * y) * ONE * ONE, d),
    ensures
        ONE <= d,
        0 <= x * ONE * ONE / d <= ONE,
        0 <= y * ONE * ONE / d <= ONE,
        ONE * ONE - UNIT_SLACK <= (x * ONE * ONE / d) * (x * ONE * ONE / d) + (y * ONE * ONE / d)
            * (y * ONE * ONE / d) <= ONE * ONE + UNIT_SLACK,
{
    let one = ONE as int;
    let s = x * x + y * y;
    let n = s * ONE * ONE;
    let p = x * ONE * ONE;
    let q = y * ONE * ONE;
    assert(n == s * (one * one)) by (nonlinear_arith)
        requires
            n == s * one * one,
    ;
    assert(p == (x * one) * one && q == (y * one) * one && p >= 0 && q >= 0) by (nonlinear_arith)
        requires
            p == x * one * one,
            q == y * one * one,
            0 <= x,
            0 <= y,
            one == 1_000_000,
    ;
    // the length is at least ONE
    if d < one {
        lemma_square_le(d + 1, one);
        assert(s * (one * one) >= one * one) by (nonlinear_arith)
            requires
                s >= 1,
                one == 1_000_000,
        ;
    }
    // each coordinate, in fixed-point, is at most the length
    assert((x * one) * (x * one) <= n && (y * one) * (y * one) <= n) by (nonlinear_arith)
        requires
            n == (x * x + y * y) * (one * one),
            0 <= x,
            0 <= y,
    ;
    lemma_lt_of_square_lt(x * one, d + 1);
    lemma_lt_of_square_lt(y * one, d + 1);
    lemma_quotient(p, d);
    lemma_quotient(q, d);
    let a = p / d;
    let b = q / d;
    assert(p <= one * d && q <= one * d) by (nonlinear_arith)
        requires
            p == (x * one) * one,
            q == (y * one) * one,
            x * one <= d,
            y * one <= d,
            0 <= one,
    ;
    assert(a <= one) by (nonlinear_arith)
        requires
            a * d <= one * d,
            0 < d,
    ;
    assert(b <= one) by (nonlinear_arith)
        requires
            b * d <= one * d,
            0 < d,
    ;
    // p * p + q * q is n * ONE * ONE
    assert(p * p + q * q == n * (one * one)) by (nonlinear_arith)
        requires
            p == (x * one) * one,
            q == (y * one) * one,
            n == (x * x + y * y) * (one * one),
    ;
    let sum = a * a + b * b;
    // from below: (a * d)^2 + (b * d)^2 <= n * ONE^2 < (d + 1)^2 * ONE^2
    lemma_square_le(a * d, p);
    lemma_square_le(b * d, q);
    assert(sum * (d * d) == (a * d) * (a * d) + (b * d) * (b * d)) by (nonlinear_arith)
        requires
            sum == a * a + b * b,
    ;
    assert(n * (one * one) <= (d * d + 2 * d) * (one * one)) by (nonlinear_arith)
        requires
            n < (d + 1) * (d + 1),
            one == 1_000_000,
    ;
    assert(sum - one * one <= 2 * one) by (nonlinear_arith)
        requires
            sum * (d * d) <= (d * d + 2 * d) * (one * one),
            one <= d,
            one == 1_000_000,
    ;
    // from above: n * ONE^2 < ((a + 1) * d)^2 + ((b + 1) * d)^2, and d^2 <= n
    assert(p < (a + 1) * d && q < (b + 1) * d) by (nonlinear_arith)
        requires
            p < a * d + d,
            q < b * d + d,
    ;
    lemma_square_lt(p, (a + 1) * d);
    lemma_square_lt(q, (b + 1) * d);
    assert(((a + 1) * d) * ((a + 1) * d) + ((b + 1) * d) * ((b + 1) * d) == (sum + 2 * (a + b) + 2)
        * (d * d)) by (nonlinear_arith)
        requires
            sum == a * a + b * b,
    ;
    assert((d * d) * (one * one) <= n * (one * one)) by (nonlinear_arith)
        requires
            d * d <= n,
            one == 1_000_000,
    ;
    assert(one * one < sum + 2 * (a + b) + 2) by (nonlinear_arith)
        requires
            (d * d) * (one * one) < (sum + 2 * (a + b) + 2) * (d * d),
            0 < d,
    ;
}

/// A vector that is not zero and lies within `MAX_EXTENT` normalizes to a unit
/// vector with coordinates of at most `ONE`.
pub proof fn lemma_normalized_is_unit(v: Vec2)
    requires
        within_extent(v, MAX_EXTENT as int),
        v.x != 0 || v.y != 0,
    ensures
        is_unit(normalized(v)),
        within_extent(normalized(v), ONE as int),
        length(v) >= ONE,
{
    let ax: int = if v.x >= 0 { v.x as int } else { -v.x };
    let ay: int = if v.y >= 0 { v.y as int } else { -v.y };
    assert(ax * ax == v.x * v.x && ay * ay == v.y * v.y) by (nonlinear_arith)
        requires
            ax == v.x || ax == -v.x,
            ay == v.y || ay == -v.y,
    ;
    assert(0 < ax * ax + ay * ay) by (nonlinear_arith)
        requires
            0 <= ax,
            0 <= ay,
            ax != 0 || ay != 0,
    ;
    let n = norm_sq(v) * ONE * ONE;
    assert(0 <= n) by (nonlinear_arith)
        requires
            n == (ax * ax + ay * ay) * ONE * ONE,
            0 < ax * ax + ay * ay,
    ;
    lemma_isqrt(n);
    let d = length(v);
    lemma_unit_quotients(ax, ay, d);
    assert(ax * ONE * ONE == -(v.x * ONE * ONE) || ax * ONE * ONE == v.x * ONE * ONE)
        by (nonlinear_arith)
        requires
            ax == v.x || ax == -v.x,
    ;
    assert(ay * ONE * ONE == -(v.y * ONE * ONE) || ay * ONE * ONE == v.y * ONE * ONE)
        by (nonlinear_arith)
        requires
            ay == v.y || ay == -v.y,
    ;
    assert(v.x >= 0 <==> v.x * ONE * ONE >= 0) by (nonlinear_arith);
    assert(v.y >= 0 <==> v.y * ONE * ONE >= 0) by (nonlinear_arith);
    let a = ax * ONE * ONE / d;
    let b = ay * ONE * ONE / d;
    let r = normalized(v);
    assert(r.x == a || r.x == -a);
    assert(r.y == b || r.y == -b);
    assert(r.x * r.x == a * a && r.y * r.y == b * b) by (nonlinear_arith)
        requires
            r.x == a || r.x == -a,
            r.y == b || r.y == -b,
    ;
}

/// The squared length of a unit vector differs from 1 by less than a
/// hundred-thousandth, and so its length does too.
pub proof fn lemma_unit_tolerance(v: Vec2)
    requires
        is_unit(v),
    ensures
        -(ONE * ONE) < 100_000 * (norm_sq(v) - ONE * ONE) < ONE * ONE,
{
}

/// A unit vector is not zero, and its coordinates are at most `ONE + 2`.
pub proof fn lemma_unit_extent(v: Vec2)
    requires
        is_unit(v),
    ensures
        v.x != 0 || v.y != 0,
        within_extent(v, ONE + 2),
{
    assert(v.x * v.x >= 0 && v.y * v.y >= 0) by (nonlinear_arith);
    if v.x >= 1_000_003 || v.x <= -1_000_003 {
        assert(v.x * v.x >= 1_000_006_000_009) by (nonlinear_arith)
            requires
                v.x >= 1_000_003 || v.x <= -1_000_003,
        ;
    }
    if v.y >= 1_000_003 || v.y <= -1_000_003 {
        assert(v.y * v.y >= 1_000_006_000_009) by (nonlinear_arith)
            requires
                v.y >= 1_000_003 || v.y <= -1_000_003,
        ;
    }
}

impl Vec2 {
    /// The vector with both coordinates zero.
    pub fn zero() -> (r: Vec2)
        ensures
            r == (Vec2 { x: 0, y: 0 }),
    {
        Vec2 { x: 0, y: 0 }
    }

    /// Whether the squared length is `ONE * ONE` within `UNIT_SLACK`.
    pub fn is_unit(&self) -> (r: bool)
        ensures
            r == is_unit(*self),
    {
        let x = self.x as i128;
        let y = self.y as i128;
        assert(0 <= x * x <= 0x4000_0000_0000_0000_0000_0000_0000_0000) by (nonlinear_arith)
            requires
                -0x8000_0000_0000_0000 <= x <= 0x8000_0000_0000_0000,
        ;
        assert(0 <= y * y <= 0x4000_0000_0000_0000_0000_0000_0000_0000) by (nonlinear_arith)
            requires
                -0x8000_0000_0000_0000 <= y <= 0x8000_0000_0000_0000,
        ;
        let sq: u128 = (x * x) as u128 + (y * y) as u128;
        let unit: u128 = 1_000_000_000_000;
        unit - (UNIT_SLACK as u128) <= sq && sq <= unit + (UNIT_SLACK as u128)
    }

    /// The vector scaled to length 1.
    pub fn normalize(self) -> (r: Vec2)
        requires
            within_extent(self, MAX_EXTENT as int),
            self.x != 0 || self.y != 0,
        ensures
            r == normalized(self),
            is_unit(r),
            within_extent(r, ONE as int),
    {
        proof {
            lemma_normalized_is_unit(self);
        }
        let x = self.x as i128;
        let y = self.y as i128;
        let unit: i128 = 1_000_000_000_000;
        assert(0 <= x * x <= 16_000_000_000_000_000_000_000_000 && -4_000_000_000_000_000_000_000_000
            <= x * unit <= 4_000_000_000_000_000_000_000_000 && x * unit == self.x * ONE * ONE)
            by (nonlinear_arith)
            requires
                -4_000_000_000_000 <= x <= 4_000_000_000_000,
                x == self.x,
                unit == 1_000_000_000_000,
                ONE == 1_000_000,
        ;
        assert(0 <= y * y <= 16_000_000_000_000_000_000_000_000 && -4_000_000_000_000_000_000_000_000
            <= y * unit <= 4_000_000_000_000_000_000_000_000 && y * unit == self.y * ONE * ONE)
            by (nonlinear_arith)
            requires
                -4_000_000_000_000 <= y <= 4_000_000_000_000,
                y == self.y,
                unit == 1_000_000_000_000,
                ONE == 1_000_000,
        ;
        let sq: u128 = (x * x + y * y) as u128;
        assert(sq * (unit as u128) == norm_sq(self) * ONE * ONE && sq * (unit as u128)
            <= 32_000_000_000_000_000_000_000_000_000_000_000_000) by (nonlinear_arith)
            requires
                sq == norm_sq(self),
                sq <= 32_000_000_000_000_000_000_000_000,
                unit == 1_000_000_000_000,
                ONE == 1_000_000,
        ;
        let len = integer_sqrt(sq * (unit as u128)) as i128;
        Vec2 { x: ((x * unit) / len) as i64, y: ((y * unit) / len) as i64 }
    }

    /// The point that lies the fraction `s` of the way from `self` to `to`.
    pub fn lerp(self, to: Vec2, s: i64) -> (r: Vec2)
        requires
            within_extent(self, MAX_EXTENT as int),
            within_extent(to, MAX_EXTENT as int),
            -MAX_COORD <= s <= MAX_COORD,
        ensures
            r == lerped(self, to, s as int),
    {
        let dx = (to.x - self.x) as i128;
        let dy = (to.y - self.y) as i128;
        let wide = s as i128;
        assert(-8_000_000_000_000_000_000_000_000 <= dx * wide <= 8_000_000_000_000_000_000_000_000)
            by (nonlinear_arith)
            requires
                -8_000_000_000_000 <= dx <= 8_000_000_000_000,
                -1_000_000_000_000 <= wide <= 1_000_000_000_000,
        ;
        assert(-8_000_000_000_000_000_000_000_000 <= dy * wide <= 8_000_000_000_000_000_000_000_000)
            by (nonlinear_arith)
            requires
                -8_000_000_000_000 <= dy <= 8_000_000_000_000,
                -1_000_000_000_000 <= wide <= 1_000_000_000_000,
        ;
        let sx = (dx * wide) / (ONE as i128);
        let sy = (dy * wide) / (ONE as i128);
        Vec2 { x: (self.x as i128 + sx) as i64, y: (self.y as i128 + sy) as i64 }
    }

    /// The vector turned a quarter turn counter-clockwise.
    pub fn perp(self) -> (r: Vec2)
        requires
            self.y > i64::MIN,
        ensures
            r == perpendicular(self),
            norm_sq(r) == norm_sq(self),
    {
        assert((-self.y) * (-self.y) == self.y * self.y) by (nonlinear_arith);
        Vec2 { x: -self.y, y: self.x }
    }

    /// The vector reversed.
    pub fn neg(self) -> (r: Vec2)
        requires
            self.x > i64::MIN,
            self.y > i64::MIN,
        ensures
            r == negated(self),
            norm_sq(r) == norm_sq(self),
    {
        assert((-self.y) * (-self.y) == self.y * self.y) by (nonlinear_arith);
        assert((-self.x) * (-self.x) == self.x * self.x) by (nonlinear_arith);
        Vec2 { x: -self.x, y: -self.y }
    }
}

} // verus!
