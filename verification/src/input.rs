//! The pressed/released state of the logical keys the simulation reads.
//! The presentation layer translates raw key events into these before each
//! tick; the core only ever asks "is this logical key currently held".

use vstd::prelude::*;

verus! {

/// A logical key the simulation reacts to.
#[derive(Clone, Copy, PartialEq, Eq, Structural, Debug)]
pub enum Key {
    /// Turn the ship counter-clockwise.
    Left,
    /// Turn the ship clockwise.
    Right,
    /// Thrust forward.
    Thrust,
    /// Fire a missile.
    Fire,
    /// Debug hook: inflate the level and switch on god mode.
    Cheat,
}

/// Pressed state of every logical key.
#[derive(Clone, Copy, PartialEq, Eq, Structural, Debug)]
pub struct InputState {
    pub left: bool,
    pub right: bool,
    pub thrust: bool,
    pub fire: bool,
    pub cheat: bool,
}

impl InputState {
    /// Whether `key` is held in this state.
    pub open spec fn spec_pressed(self, key: Key) -> bool {
        match key {
            Key::Left => self.left,
            Key::Right => self.right,
            Key::Thrust => self.thrust,
            Key::Fire => self.fire,
            Key::Cheat => self.cheat,
        }
    }

    /// This state with `key` set to `held`.
    pub open spec fn spec_with(self, key: Key, held: bool) -> InputState {
        match key {
            Key::Left => InputState { left: held, ..self },
            Key::Right => InputState { right: held, ..self },
            Key::Thrust => InputState { thrust: held, ..self },
            Key::Fire => InputState { fire: held, ..self },
            Key::Cheat => InputState { cheat: held, ..self },
        }
    }

    /// All keys released.
    pub fn new() -> (s: InputState)
        ensures
            s == (InputState { left: false, right: false, thrust: false, fire: false, cheat: false }),
    {
        InputState { left: false, right: false, thrust: false, fire: false, cheat: false }
    }

    /// Whether `key` is currently held.
    pub fn is_key_pressed(&self, key: Key) -> (r: bool)
        ensures
            r == self.spec_pressed(key),
    {
        match key {
            Key::Left => self.left,
            Key::Right => self.right,
            Key::Thrust => self.thrust,
            Key::Fire => self.fire,
            Key::Cheat => self.cheat,
        }
    }

    /// Records that `key` was pressed.
    pub fn key_down(&mut self, key: Key)
        ensures
            *final(self) == old(self).spec_with(key, true),
    {
        match key {
            Key::Left => self.left = true,
            Key::Right => self.right = true,
            Key::Thrust => self.thrust = true,
            Key::Fire => self.fire = true,
            Key::Cheat => self.cheat = true,
        }
    }

    /// Records that `key` was released.
    pub fn key_up(&mut self, key: Key)
        ensures
            *final(self) == old(self).spec_with(key, false),
    {
        match key {
            Key::Left => self.left = false,
            Key::Right => self.right = false,
            Key::Thrust => self.thrust = false,
            Key::Fire => self.fire = false,
            Key::Cheat => self.cheat = false,
        }
    }
}

} // verus!
