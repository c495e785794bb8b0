//! Fixed-point scalars: an `i64` that counts millionths of a unit.

use vstd::prelude::*;

verus! {

/// The fixed-point representation of 1.0.
pub const ONE: i64 = 1_000_000;

/// The largest magnitude of a coordinate of a stored position.
pub const MAX_COORD: i64 = 1_000_000_000_000;

/// The largest magnitude of a speed or of a rotation speed, and the longest
/// time step that is acted on.
pub const MAX_RATE: i64 = 1_000_000_000;

/// The largest magnitude of a coordinate that [`integer_sqrt`] based
/// operations on vectors accept.
pub const MAX_EXTENT: i64 = 4_000_000_000_000;

/// Integer quotient rounded toward zero, for a positive divisor.
pub open spec fn div_toward_zero(a: int, b: int) -> int {
    if a >= 0 {
        a / b
    } else {
        -((-a) / b)
    }
}

/// The fixed-point product of two fixed-point numbers, rounded toward zero.
pub open spec fn scaled(a: int, b: int) -> int {
    div_toward_zero(a * b, ONE as int)
}

/// `r` is the integer square root of `n`, rounded down.
pub open spec fn is_sqrt_floor(n: int, r: int) -> bool {
    0 <= r && r * r <= n && n < (r + 1) * (r + 1)
}

/// The integer square root of `n`, rounded down.
pub open spec fn isqrt(n: int) -> int {
    choose|r: int| is_sqrt_floor(n, r)
}

/// At most one number is the rounded-down square root of `n`.
pub proof fn lemma_sqrt_floor_unique(n: int, r1: int, r2: int)
    requires
        is_sqrt_floor(n, r1),
        is_sqrt_floor(n, r2),
    ensures
        r1 == r2,
{
    if r1 < r2 {
        assert((r1 + 1) * (r1 + 1) <= r2 * r2) by (nonlinear_arith)
            requires
                0 <= r1,
                r1 + 1 <= r2,
        ;
    } else if r2 < r1 {
        assert((r2 + 1) * (r2 + 1) <= r1 * r1) by (nonlinear_arith)
            requires
                0 <= r2,
                r2 + 1 <= r1,
        ;
    }
}

/// Every natural number has a rounded-down square root, and `isqrt` is it.
pub proof fn lemma_isqrt(n: int)
    requires
        0 <= n,
    ensures
        is_sqrt_floor(n, isqrt(n)),
    decreases n,
{
    if n == 0 {
        assert(is_sqrt_floor(0, 0));
    } else {
        lemma_isqrt(n - 1);
        let r = isqrt(n - 1);
        if n < (r + 1) * (r + 1) {
            assert(is_sqrt_floor(n, r));
        } else {
            assert((r + 2) * (r + 2) > (r + 1) * (r + 1)) by (nonlinear_arith)
                requires
                    0 <= r,
            ;
            assert(is_sqrt_floor(n, r + 1));
        }
    }
}

/// The fixed-point product of `a` and `b`, rounded toward zero.
pub fn mul_fixed(a: i64, b: i64) -> (r: i64)
    requires
        i64::MIN <= scaled(a as int, b as int) <= i64::MAX,
    ensures
        r == scaled(a as int, b as int),
{
    assert(-0x4000_0000_0000_0000_0000_0000_0000_0000 <= (a as int) * (b as int)
        <= 0x4000_0000_0000_0000_0000_0000_0000_0000) by (nonlinear_arith)
        requires
            -0x8000_0000_0000_0000 <= a <= 0x8000_0000_0000_0000,
            -0x8000_0000_0000_0000 <= b <= 0x8000_0000_0000_0000,
    ;
    let wide: i128 = (a as i128) * (b as i128);
    (wide / (ONE as i128)) as i64
}

/// The integer square root of `n`, rounded down.
pub fn integer_sqrt(n: u128) -> (r: u128)
    ensures
        r == isqrt(n as int),
        is_sqrt_floor(n as int, r as int),
        r <= u64::MAX,
{
    let mut low: u128 = 0;
    let mut high: u128 = 0x1_0000_0000_0000_0000;
    assert(n < high * high) by (nonlinear_arith)
        requires
            n <= u128::MAX,
            high == 0x1_0000_0000_0000_0000,
    ;
    while high - low > 1
        invariant
            low < high <= 0x1_0000_0000_0000_0000,
            low * low <= n,
            n < high * high,
        decreases high - low,
    {
        let mid: u128 = low + (high - low) / 2;
        assert(mid * mid <= u128::MAX) by (nonlinear_arith)
            requires
                mid < 0x1_0000_0000_0000_0000,
        ;
        if mid * mid <= n {
            low = mid;
        } else {
            high = mid;
        }
    }
    proof {
        assert(high == low + 1);
        lemma_isqrt(n as int);
        lemma_sqrt_floor_unique(n as int, low as int, isqrt(n as int));
    }
    low
}

} // verus!
