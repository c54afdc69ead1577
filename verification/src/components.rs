//! The component records attached to entities.  All world quantities are
//! `i64` values in milli-units (thousandths of a pixel or of a degree).

use vstd::prelude::*;

verus! {

/// A two-dimensional vector in milli-pixels.
#[derive(Clone, Copy, PartialEq, Eq, Structural, Debug)]
pub struct Vec2 {
    pub x: i64,
    pub y: i64,
}

impl Vec2 {
    /// The zero vector.
    pub open spec fn spec_zero() -> Vec2 {
        Vec2 { x: 0, y: 0 }
    }

    /// The zero vector.
    pub fn zero() -> (v: Vec2)
        ensures
            v == Vec2::spec_zero(),
    {
        Vec2 { x: 0, y: 0 }
    }

    /// Squared magnitude.
    pub open spec fn mag2(self) -> int {
        self.x * self.x + self.y * self.y
    }
}

/// World-space position in milli-pixels and heading in milli-degrees;
/// the heading is kept in `[0, 360000)` after each movement update.
#[derive(Clone, Copy, PartialEq, Eq, Structural, Debug)]
pub struct Position {
    pub x: i64,
    pub y: i64,
    pub rot: i64,
}

/// Presentation-only projection of an entity.  The simulation writes it and
/// mirrors the heading into `rot` each tick, but never reads it back.
pub struct Renderable {
    /// Texture name resolved by the presentation layer.
    pub tex_name: String,
    /// Width of the source texture in pixels.
    pub i_w: u32,
    /// Height of the source texture in pixels.
    pub i_h: u32,
    /// Width of the drawn rectangle in pixels.
    pub o_w: u32,
    /// Height of the drawn rectangle in pixels.
    pub o_h: u32,
    /// Offset into a sprite sheet.
    pub frame: u32,
    /// Number of frames in the sprite sheet.
    pub total_frames: u32,
    /// Drawing rotation, mirrored from the entity's position each tick.
    pub rot: i64,
}

/// The ship: impulse accumulated from input this tick and the velocity
/// carried across ticks.
#[derive(Clone, Copy, PartialEq, Eq, Structural, Debug)]
pub struct Player {
    pub impulse: Vec2,
    pub cur_speed: Vec2,
}

/// An asteroid: forward speed along its heading and constant spin rate.
#[derive(Clone, Copy, PartialEq, Eq, Structural, Debug)]
pub struct Asteroid {
    pub speed: i64,
    pub rot_speed: i64,
}

/// A missile: constant forward speed along its heading.
#[derive(Clone, Copy, PartialEq, Eq, Structural, Debug)]
pub struct Missile {
    pub speed: i64,
}

/// A placement descriptor produced by the spawn algorithm; not itself a
/// stored component.
#[derive(Clone, Copy, PartialEq, Eq, Structural, Debug)]
pub struct PendingAsteroid {
    pub x: i64,
    pub y: i64,
    pub rot: i64,
    pub size: u32,
}

/// Session state held by a single distinguished entity.
#[derive(Clone, Copy, PartialEq, Eq, Structural, Debug)]
pub struct GameData {
    pub score: u32,
    pub level: u32,
    pub god_mode: bool,
}

} // verus!
