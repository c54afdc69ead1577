//! Unit tests for the fixed-point arithmetic and trigonometry helpers.

use asteroids_core::game::find_spawn_position;
use asteroids_core::num::{distance_squared, isqrt_ceil, scale_div, wrap_coord};
use asteroids_core::trig::{cosine_milli, sine_milli};
use asteroids_core::{FULL_TURN, GAME_HEIGHT, GAME_WIDTH, MIN_SPAWN_DIST, SPAWN_MARGIN};

#[test]
fn sine_exact_values() {
    assert_eq!(sine_milli(0), 0);
    assert_eq!(sine_milli(180000), 0);
    assert_eq!(sine_milli(90000), 1000);
    assert_eq!(sine_milli(270000), -1000);
    // sin 30 deg = 1/2; the rational half-wave gives 30000*150000 -> 4/9ths
    // scaled: 4000*4.5e9 / (40.5e9 - 4.5e9) = 500 exactly.
    assert_eq!(sine_milli(30000), 500);
    assert_eq!(sine_milli(150000), 500);
    // sin 45 deg: 4000*6.075e9 / 34.425e9, truncated.
    assert_eq!(sine_milli(45000), 705);
}

#[test]
fn cosine_matches_shifted_sine() {
    assert_eq!(cosine_milli(0), 1000);
    assert_eq!(cosine_milli(90000), 0);
    assert_eq!(cosine_milli(180000), -1000);
    assert_eq!(cosine_milli(270000), 0);
    assert_eq!(cosine_milli(60000), 500);
    for d in [0i64, 1000, 44500, 90000, 179000, 180000, 250000, 359000] {
        let c = cosine_milli(d);
        assert!((-1000..=1000).contains(&c));
    }
}

#[test]
fn sine_stays_within_unit() {
    let mut d = 0i64;
    while d < FULL_TURN {
        let s = sine_milli(d);
        assert!((-1000..=1000).contains(&s));
        d += 500;
    }
}

#[test]
fn isqrt_ceil_values() {
    assert_eq!(isqrt_ceil(0), 0);
    assert_eq!(isqrt_ceil(1), 1);
    assert_eq!(isqrt_ceil(2), 2);
    assert_eq!(isqrt_ceil(4), 2);
    assert_eq!(isqrt_ceil(99), 10);
    assert_eq!(isqrt_ceil(100), 10);
    assert_eq!(isqrt_ceil(101), 11);
    assert_eq!(isqrt_ceil(100_000_000), 10_000);
}

#[test]
fn scale_div_truncates_toward_zero() {
    assert_eq!(scale_div(2000, 99, 100), 1980);
    assert_eq!(scale_div(-2000, 99, 100), -1980);
    assert_eq!(scale_div(199, 1, 100), 1);
    assert_eq!(scale_div(-199, 1, 100), -1);
    assert_eq!(scale_div(0, 99, 100), 0);
}

#[test]
fn wrap_single_step() {
    assert_eq!(wrap_coord(-1, GAME_WIDTH), GAME_WIDTH - 1);
    assert_eq!(wrap_coord(0, GAME_WIDTH), 0);
    assert_eq!(wrap_coord(GAME_WIDTH - 1, GAME_WIDTH), GAME_WIDTH - 1);
    assert_eq!(wrap_coord(GAME_WIDTH, GAME_WIDTH), 0);
    assert_eq!(wrap_coord(GAME_WIDTH + 2500, GAME_WIDTH), 2500);
    assert_eq!(wrap_coord(362500, FULL_TURN), 2500);
    assert_eq!(wrap_coord(-2500, FULL_TURN), 357500);
}

#[test]
fn distance_squared_exact() {
    assert_eq!(distance_squared(0, 0, 3, 4), 25);
    assert_eq!(distance_squared(650000, 250000, 650000, 250000), 0);
    assert_eq!(distance_squared(400000, 235000, 650000, 250000), 62725000000);
}

#[test]
fn spawn_position_respects_margins_and_distance() {
    // Runs the sampler against the live random source; whatever it draws,
    // the returned placement must honor the margins and the exclusion zone.
    for (px, py) in [(0i64, 0i64), (650000, 250000), (1279999, 639999), (640000, 320000)] {
        for _ in 0..50 {
            let pa = find_spawn_position(px, py);
            assert!(pa.x >= SPAWN_MARGIN && pa.x < GAME_WIDTH - SPAWN_MARGIN);
            assert!(pa.y >= SPAWN_MARGIN && pa.y < GAME_HEIGHT - SPAWN_MARGIN);
            assert!(pa.rot >= 0 && pa.rot < FULL_TURN);
            assert_eq!(pa.size, 128);
            let d2 = distance_squared(pa.x, pa.y, px, py);
            assert!(d2 >= MIN_SPAWN_DIST * MIN_SPAWN_DIST);
        }
    }
}
