//! Core of a small 2D asteroids-style arcade game: the entity/component
//! world, its per-tick update pipeline, and the game rules running on top
//! of it. Rendering, windowing and raw input polling live outside this
//! library; it exchanges plain values with that layer.

use vstd::prelude::*;

pub mod angle;
pub mod asteroid;
pub mod components;
pub mod game;
pub mod hud;
pub mod rocket;
pub mod utils;
pub mod world;

verus! {

/// Width of the playfield in pixels.
pub const SCREEN_WIDTH: i32 = 800;

/// Height of the playfield in pixels.
pub const SCREEN_HEIGHT: i32 = 600;

/// Speed applied to the player while a movement key is held.
pub const PLAYER_MOVE_SPEED: i32 = 5;

/// Greatest number of rockets that may be live at once.
pub const MAX_ROCKETS: usize = 5;

/// `v` clamped to the machine range of `i32`; motion arithmetic lands in
/// this range before it is stored back into a position.
pub open spec fn clamp_i32(v: int) -> int {
    if v > i32::MAX as int {
        i32::MAX as int
    } else if v < i32::MIN as int {
        i32::MIN as int
    } else {
        v
    }
}

/// Clamp a wide intermediate back into `i32`.
pub fn clamp_to_i32(v: i64) -> (r: i32)
    ensures
        r as int == clamp_i32(v as int),
{
    if v > i32::MAX as i64 {
        i32::MAX
    } else if v < i32::MIN as i64 {
        i32::MIN
    } else {
        v as i32
    }
}

/// `v` clamped to the machine range of `u32`; the score saturates there.
pub open spec fn sat_u32(v: int) -> int {
    if v > u32::MAX as int {
        u32::MAX as int
    } else if v < 0 {
        0
    } else {
        v
    }
}

/// Whether the distance between `(px, py)` and `(ax, ay)` is under `w / 2`:
/// the Euclidean hit test, squared so that it stays in integers.
pub open spec fn within_radius(px: int, py: int, ax: int, ay: int, w: int) -> bool {
    4 * ((px - ax) * (px - ax) + (py - ay) * (py - ay)) < w * w
}

/// Decide `within_radius` on machine integers.
pub fn check_radius(px: i32, py: i32, ax: i32, ay: i32, w: u64) -> (r: bool)
    requires
        w <= 0x2_0000_0000,
    ensures
        r == within_radius(px as int, py as int, ax as int, ay as int, w as int),
{
    let dx: i128 = px as i128 - ax as i128;
    let dy: i128 = py as i128 - ay as i128;
    proof {
        assert(-0x1_0000_0000 <= dx <= 0x1_0000_0000);
        assert(-0x1_0000_0000 <= dy <= 0x1_0000_0000);
        assert(dx * dx <= 0x1_0000_0000_0000_0000) by (nonlinear_arith)
            requires
                -0x1_0000_0000 <= dx <= 0x1_0000_0000,
        ;
        assert(dy * dy <= 0x1_0000_0000_0000_0000) by (nonlinear_arith)
            requires
                -0x1_0000_0000 <= dy <= 0x1_0000_0000,
        ;
        assert(dx * dx >= 0) by (nonlinear_arith);
        assert(dy * dy >= 0) by (nonlinear_arith);
        assert((w as i128) * (w as i128) <= 0x4_0000_0000_0000_0000) by (nonlinear_arith)
            requires
                0 <= w as i128 <= 0x2_0000_0000,
        ;
        assert((w as i128) * (w as i128) >= 0) by (nonlinear_arith);
    }
    let d2: i128 = dx * dx + dy * dy;
    let lhs: i128 = 4 * d2;
    let rhs: i128 = (w as i128) * (w as i128);
    lhs < rhs
}

} // verus!
