//! The component data that entities carry: position, sprite, and the role
//! data for players, asteroids, rockets and the score singleton.

use vstd::prelude::*;

verus! {

/// Cardinal movement direction of the player.
#[derive(Clone, Copy, PartialEq, Eq, Structural, Debug)]
pub enum Direction {
    Up,
    Down,
    Left,
    Right,
}

/// A screen position in pixels together with a rotation in integer degrees
/// (0 points up; degrees grow clockwise).
#[derive(Clone, Copy, PartialEq, Eq, Structural, Debug)]
pub struct Position {
    pub x: i32,
    pub y: i32,
    pub rot: i32,
}

/// Key of a sprite sheet in the display layer's texture cache.
#[derive(Clone, Copy, PartialEq, Eq, Structural, Debug)]
pub enum TextureName {
    Marco,
    Enemy,
    Rocket,
}

impl TextureName {
    /// The string under which the display layer caches this texture.
    pub open spec fn spec_key(self) -> Seq<char> {
        match self {
            TextureName::Marco => "marco"@,
            TextureName::Enemy => "enemy"@,
            TextureName::Rocket => "rocket"@,
        }
    }

    /// The string under which the display layer caches this texture.
    pub fn key(&self) -> (s: &'static str)
        ensures
            s@ == self.spec_key(),
    {
        match self {
            TextureName::Marco => "marco",
            TextureName::Enemy => "enemy",
            TextureName::Rocket => "rocket",
        }
    }
}

/// A sprite drawn from a horizontal strip: source frame size, on-screen
/// output size, the current frame, and the rotation used when drawing.
#[derive(Clone, Copy, PartialEq, Eq, Structural, Debug)]
pub struct Renderable {
    pub texture_name: TextureName,
    pub input_width: u32,
    pub input_height: u32,
    pub output_width: u32,
    pub output_height: u32,
    pub frame: u32,
    pub total_frames: u32,
    /// Rotation in integer degrees applied when the sprite is drawn.
    pub render_rotation: i32,
}

/// The player ship's intent: speed, direction, and whether collisions with
/// asteroids are lethal (`can_take_damage == false` is godmode).
#[derive(Clone, Copy, PartialEq, Eq, Structural, Debug)]
pub struct Player {
    pub speed: i32,
    pub direction: Direction,
    pub can_take_damage: bool,
}

/// An asteroid: linear speed in pixels per tick, spin rate in millidegrees
/// per tick, and the integer size multiplier that scales its sprite and
/// governs fragmentation and score.
#[derive(Clone, Copy, PartialEq, Eq, Structural, Debug)]
pub struct Asteroid {
    pub speed: i32,
    pub rotation_speed: i32,
    pub size_multiplier: u32,
}

/// A rocket: linear speed in pixels per tick.
#[derive(Clone, Copy, PartialEq, Eq, Structural, Debug)]
pub struct Rocket {
    pub speed: i32,
}

/// A fragment queued during collision handling, committed after the pass.
#[derive(Clone, Copy, PartialEq, Eq, Structural, Debug)]
pub struct PendingAsteroid {
    pub x: i32,
    pub y: i32,
    pub rot: i32,
    pub size_mult: u32,
}

/// The per-session score and level singleton.
#[derive(Clone, Copy, PartialEq, Eq, Structural, Debug)]
pub struct GameData {
    pub score: u32,
    pub level: u32,
}

} // verus!
