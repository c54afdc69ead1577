//! Exact integer arithmetic helpers: truncating scaled multiplication,
//! ceiling square root, single-step wraparound and squared distances.

use vstd::arithmetic::div_mod::{lemma_div_is_ordered, lemma_div_multiples_vanish};
use vstd::prelude::*;

verus! {

/// Absolute value of a mathematical integer.
pub open spec fn abs_val(v: int) -> int {
    if v < 0 {
        -v
    } else {
        v
    }
}

/// `v * num / den` with the division truncating toward zero, the semantics
/// of machine division on a scaled value.
pub open spec fn mul_div_toward_zero(v: int, num: int, den: int) -> int {
    if v >= 0 {
        (v * num) / den
    } else {
        -((-v * num) / den)
    }
}

/// A value wrapped into `[0, limit)` by a single correction step.
pub open spec fn wrap_val(v: int, limit: int) -> int {
    if v < 0 {
        v + limit
    } else if v >= limit {
        v - limit
    } else {
        v
    }
}

/// `r` is the ceiling of the square root of `n`.
pub open spec fn is_sqrt_ceil(n: int, r: int) -> bool {
    &&& 0 <= r
    &&& n <= r * r
    &&& r == 0 || (r - 1) * (r - 1) < n
}

/// The ceiling of the square root of a non-negative integer.
pub closed spec fn sqrt_ceil(n: int) -> int {
    choose|r: int| is_sqrt_ceil(n, r)
}

/// Squares do not decrease on non-negative integers.
proof fn lemma_square_ordered(a: int, b: int)
    requires
        0 <= a <= b,
    ensures
        a * a <= b * b,
{
    assert(a * a <= b * b) by (nonlinear_arith)
        requires
            0 <= a <= b,
    ;
}

/// Any witness of `is_sqrt_ceil` is the value of `sqrt_ceil`.
pub proof fn lemma_sqrt_ceil_unique(n: int, r: int)
    requires
        is_sqrt_ceil(n, r),
    ensures
        sqrt_ceil(n) == r,
{
    assert(is_sqrt_ceil(n, sqrt_ceil(n)));
    let s = sqrt_ceil(n);
    if s < r {
        lemma_square_ordered(s, r - 1);
    }
    if r < s {
        lemma_square_ordered(r, s - 1);
    }
}

/// Scales `v` by `num / den`, truncating toward zero.
pub fn scale_div(v: i64, num: i64, den: i64) -> (r: i64)
    requires
        0 <= num <= 0x7fff_ffff,
        0 < den,
        abs_val(v as int) <= 0x7fff_ffff,
    ensures
        r == mul_div_toward_zero(v as int, num as int, den as int),
        abs_val(r as int) <= (abs_val(v as int) * num) / (den as int),
{
    let neg = v < 0;
    let mag: u64 = if neg {
        (-v) as u64
    } else {
        v as u64
    };
    assert(mag * (num as u64) <= 0x7fff_ffff * 0x7fff_ffff) by (nonlinear_arith)
        requires
            mag <= 0x7fff_ffff,
            0 <= num <= 0x7fff_ffff,
    ;
    let q: u64 = mag * (num as u64) / (den as u64);
    assert(q <= mag * (num as u64)) by {
        assert(mag * (num as u64) <= mag * (num as u64) * (den as int)) by (nonlinear_arith)
            requires
                0 < den,
                0 <= mag * (num as u64),
        ;
        lemma_div_is_ordered(mag * (num as u64), mag * (num as u64) * (den as int), den as int);
        lemma_div_multiples_vanish(mag * (num as u64), den as int);
    }
    if neg {
        -(q as i64)
    } else {
        q as i64
    }
}

/// Ceiling square root, found by binary search.
pub fn isqrt_ceil(n: u64) -> (r: u64)
    requires
        n <= 0x4000_0000_0000_0000,
    ensures
        is_sqrt_ceil(n as int, r as int),
        r as int == sqrt_ceil(n as int),
        r <= 0x8000_0000,
{
    if n == 0 {
        proof {
            lemma_sqrt_ceil_unique(0, 0);
        }
        return 0;
    }
    let mut lo: u64 = 0;
    let mut hi: u64 = 0x8000_0000;
    assert(hi * hi >= n) by (nonlinear_arith)
        requires
            hi == 0x8000_0000,
            n <= 0x4000_0000_0000_0000,
    ;
    while hi - lo > 1
        invariant
            lo < hi <= 0x8000_0000,
            (lo * lo) < n,
            n <= hi * hi,
        decreases hi - lo,
    {
        let mid = lo + (hi - lo) / 2;
        assert(mid * mid < 0x8000_0000 * 0x8000_0000) by (nonlinear_arith)
            requires
                mid < 0x8000_0000,
        ;
        if mid * mid >= n {
            hi = mid;
        } else {
            lo = mid;
        }
    }
    proof {
        lemma_sqrt_ceil_unique(n as int, hi as int);
    }
    hi
}

/// Wraps `v` into `[0, limit)` by one correction step.
pub fn wrap_coord(v: i64, limit: i64) -> (r: i64)
    requires
        0 < limit,
        -limit <= v < 2 * limit,
    ensures
        r == wrap_val(v as int, limit as int),
        0 <= r < limit,
{
    if v < 0 {
        v + limit
    } else if v >= limit {
        v - limit
    } else {
        v
    }
}

/// Squared Euclidean distance between two points.
pub open spec fn dist2(x1: int, y1: int, x2: int, y2: int) -> int {
    (x1 - x2) * (x1 - x2) + (y1 - y2) * (y1 - y2)
}

/// Squared Euclidean distance, computed without overflow on field-sized
/// coordinates.
pub fn distance_squared(x1: i64, y1: i64, x2: i64, y2: i64) -> (r: i64)
    requires
        abs_val(x1 as int) <= 4000000,
        abs_val(y1 as int) <= 4000000,
        abs_val(x2 as int) <= 4000000,
        abs_val(y2 as int) <= 4000000,
    ensures
        r == dist2(x1 as int, y1 as int, x2 as int, y2 as int),
        0 <= r,
{
    let dx = x1 - x2;
    let dy = y1 - y2;
    assert(0 <= dx * dx <= 64000000000000 && 0 <= dy * dy <= 64000000000000) by (nonlinear_arith)
        requires
            -8000000 <= dx <= 8000000,
            -8000000 <= dy <= 8000000,
    ;
    dx * dx + dy * dy
}

} // verus!
