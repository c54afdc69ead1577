//! Fixed-point sine and cosine on milli-degree headings.
//!
//! The half-wave is the classical rational approximation
//! `sin x ~= 4x(180 - x) / (40500 - x(180 - x))` for `x` in degrees between
//! 0 and 180, carried out exactly in milli-units.  Its value is proved to
//! stay within one unit (`[-1000, 1000]`), which is all the movement systems
//! need to bound their per-tick displacement.

use crate::FULL_TURN;
use vstd::arithmetic::div_mod::{lemma_div_is_ordered, lemma_div_multiples_vanish, lemma_div_pos_is_pos};
use vstd::prelude::*;

verus! {

/// Sine of `d` milli-degrees for `d` in `[0, 180000]`, scaled by 1000.
pub open spec fn sin_half(d: int) -> int {
    (4000 * (d * (180000 - d))) / (40500000000 - d * (180000 - d))
}

/// Sine of a heading of `d` milli-degrees, `d` in `[0, 360000)`, scaled by 1000.
pub open spec fn sin_milli(d: int) -> int {
    if d < 180000 {
        sin_half(d)
    } else {
        -sin_half(d - 180000)
    }
}

/// Cosine of a heading of `d` milli-degrees, `d` in `[0, 360000)`, scaled by 1000.
pub open spec fn cos_milli(d: int) -> int {
    if d < 270000 {
        sin_milli(d + 90000)
    } else {
        sin_milli(d - 270000)
    }
}

/// The half-wave sine stays within one scaled unit.
pub proof fn lemma_sin_half_bounds(d: int)
    requires
        0 <= d <= 180000,
    ensures
        0 <= sin_half(d) <= 1000,
{
    let t = d * (180000 - d);
    assert(0 <= t <= 8100000000) by (nonlinear_arith)
        requires
            0 <= d <= 180000,
            t == d * (180000 - d),
    ;
    let num = 4000 * t;
    let den = 40500000000 - t;
    assert(num <= 1000 * den);
    lemma_div_is_ordered(num, 1000 * den, den);
    lemma_div_multiples_vanish(1000, den);
    lemma_div_pos_is_pos(num, den);
}

/// The sine and cosine of any heading stay within one scaled unit.
pub proof fn lemma_sin_cos_bounds(d: int)
    requires
        0 <= d < FULL_TURN,
    ensures
        -1000 <= sin_milli(d) <= 1000,
        -1000 <= cos_milli(d) <= 1000,
{
    if d < 180000 {
        lemma_sin_half_bounds(d);
    } else {
        lemma_sin_half_bounds(d - 180000);
    }
    let c = if d < 270000 {
        d + 90000
    } else {
        d - 270000
    };
    if c < 180000 {
        lemma_sin_half_bounds(c);
    } else {
        lemma_sin_half_bounds(c - 180000);
    }
}

/// Evaluates the scaled half-wave sine exactly.
fn sine_half_wave(d: i64) -> (r: i64)
    requires
        0 <= d <= 180000,
    ensures
        r == sin_half(d as int),
        0 <= r <= 1000,
{
    let du: u64 = d as u64;
    assert(du * (180000 - du) <= 8100000000 && du * (180000 - du) == d * (180000 - d))
        by (nonlinear_arith)
        requires
            0 <= d <= 180000,
            du == d,
    ;
    let t: u64 = du * (180000 - du);
    let num: u64 = 4000 * t;
    let den: u64 = 40500000000 - t;
    let q: u64 = num / den;
    proof {
        assert(num <= 1000 * den);
        assert(1000 * den <= 40500000000000);
        lemma_div_is_ordered(num as int, 1000 * (den as int), den as int);
        lemma_div_multiples_vanish(1000, den as int);
        lemma_div_pos_is_pos(num as int, den as int);
    }
    q as i64
}

/// Sine of a heading, scaled by 1000.
pub fn sine_milli(rot: i64) -> (r: i64)
    requires
        0 <= rot < FULL_TURN,
    ensures
        r == sin_milli(rot as int),
        -1000 <= r <= 1000,
{
    if rot < 180000 {
        sine_half_wave(rot)
    } else {
        -sine_half_wave(rot - 180000)
    }
}

/// Cosine of a heading, scaled by 1000.
pub fn cosine_milli(rot: i64) -> (r: i64)
    requires
        0 <= rot < FULL_TURN,
    ensures
        r == cos_milli(rot as int),
        -1000 <= r <= 1000,
{
    if rot < 270000 {
        sine_milli(rot + 90000)
    } else {
        sine_milli(rot - 270000)
    }
}

} // verus!
