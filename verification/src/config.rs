//! The game's fixed numbers.

use vstd::prelude::*;

verus! {

/// One field unit, in the millionths that every length is counted in.
pub const UNIT: i64 = 1_000_000;

/// Diameter of the player.
pub const PLAYER_SIZE: u32 = 64_000_000;

/// Field units the player covers in a second.
pub const PLAYER_SPEED: u32 = 500;

/// Field units an enemy covers in a second.
pub const ENEMY_SPEED: u32 = 400;

/// Enemies created at startup.
pub const ENEMY_NUMBER: usize = 3;

/// Diameter of an enemy.
pub const ENEMY_SIZE: u32 = 64_000_000;

/// Diameter of a star.
pub const STAR_SIZE: u32 = 64_000_000;

/// Stars created at startup.
pub const NUMBER_OF_STARS: u8 = 5;

/// Microseconds between two timed stars.
pub const SPAWN_TIMER_STARS: u64 = 1_000_000;

} // verus!
