//! Simulation core of a top-down arcade shooter: a fixed-timestep
//! entity-component world that advances ship, asteroid and missile state,
//! detects collisions, and manages spawning, scoring and level progression.
//!
//! All world quantities (pixels and degrees) are carried as `i64` values in
//! milli-units: one unit is a thousandth of a pixel or of a degree.  This
//! keeps every computation in exact integer arithmetic, so each system's
//! effect can be stated and proved precisely.

use vstd::prelude::*;

pub mod components;
pub mod game;
pub mod input;
pub mod num;
pub mod rng;
pub mod trig;
pub mod world;

verus! {

/// Width of the playing field in milli-pixels (1280 pixels).
pub const GAME_WIDTH: i64 = 1280000;

/// Height of the playing field in milli-pixels (640 pixels).
pub const GAME_HEIGHT: i64 = 640000;

/// One whole unit (pixel or degree) in milli-units.
pub const MILLI: i64 = 1000;

/// A full turn in milli-degrees.
pub const FULL_TURN: i64 = 360000;

/// Heading change per held turn key per tick, in milli-degrees (2.5 degrees).
pub const ROTATION_SPEED: i64 = 2500;

/// Magnitude of the thrust impulse added per tick, in milli-pixels (3.5).
pub const PLAYER_SPEED: i64 = 3500;

/// Cap on the magnitude of the ship's velocity, in milli-pixels (3.5).
pub const MAX_SPEED: i64 = 3500;

/// Friction applied to the ship's velocity each tick: a factor of 99/100.
pub const FRICTION_NUM: i64 = 99;
/// Denominator of the friction factor.
pub const FRICTION_DEN: i64 = 100;

/// Forward speed of every asteroid, in milli-pixels per tick (2.5).
pub const ASTEROID_SPEED: i64 = 2500;

/// Spin rate of every asteroid, in milli-degrees per tick (0.5).
pub const ASTEROID_ROT_SPEED: i64 = 500;

/// Forward speed of every missile, in milli-pixels per tick (5.0).
pub const MISSILE_SPEED: i64 = 5000;

/// Cap on the number of missiles in flight at once.
pub const MAX_MISSILES: usize = 5;

/// Margin kept from the field edges when placing a new asteroid (50 pixels).
pub const SPAWN_MARGIN: i64 = 50000;

/// Minimum distance between a newly placed asteroid and the ship (150 pixels).
pub const MIN_SPAWN_DIST: i64 = 150000;

/// Proximity threshold under which an asteroid hits the ship (96 pixels).
pub const PLAYER_HIT_RADIUS: i64 = 96000;

/// Proximity threshold under which a missile strikes an asteroid (64 pixels).
pub const MISSILE_HIT_RADIUS: i64 = 64000;

/// Score awarded for each missile strike on an asteroid.
pub const SCORE_AWARD: u32 = 10;

/// Bound on the per-tick speed of any asteroid or missile, in milli-pixels.
/// It is far below either field dimension, so a single wrap step suffices.
pub const MAX_ENTITY_SPEED: i64 = 100000;

/// Entity identifiers beyond this bound are never handed out; a tick creates
/// far fewer than 2^32 entities, so this headroom keeps ids from overflowing.
pub const MAX_ID: u64 = 0xffff_ffff_0000_0000;

} // verus!
