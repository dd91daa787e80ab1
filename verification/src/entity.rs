//! What lives on the field, and what the rules tell the host.

use vstd::prelude::*;
use crate::direction::Direction;
use crate::geometry::Vec2;

verus! {

/// The circle that the keys steer.
#[derive(Clone, Copy, Debug, PartialEq, Eq)]
pub struct Player {
    pub id: u32,
    pub position: Vec2,
}

/// A circle that crosses the field and bounces off its edges.
#[derive(Clone, Copy, Debug, PartialEq, Eq)]
pub struct Enemy {
    pub id: u32,
    pub position: Vec2,
    pub direction: Direction,
}

/// A star to collect.
#[derive(Clone, Copy, Debug, PartialEq, Eq)]
pub struct Star {
    pub id: u32,
    pub position: Vec2,
}

/// Stars collected so far.
#[derive(Clone, Copy, Debug, PartialEq, Eq)]
pub struct Score {
    pub value: u32,
}

impl Default for Score {
    fn default() -> (score: Score)
        ensures
            score.value == 0,
    {
        Score { value: 0 }
    }
}

/// The end of the game, with the score it ended on.
#[derive(Clone, Copy, Debug, PartialEq, Eq)]
pub struct GameOver {
    pub score: u32,
}

#[derive(Clone, Copy, Debug, PartialEq, Eq)]
pub enum Kind {
    Player,
    Enemy,
    Star,
}

/// What the host is told: to show a new circle, to sound a bounce with one
/// of two cues, to take a collected star away, or to take the player away
/// and end the game.
#[derive(Clone, Copy, Debug, PartialEq, Eq)]
pub enum Event {
    Spawned { kind: Kind, id: u32, position: Vec2 },
    Bounce { cue: u8 },
    StarCollected { id: u32 },
    GameOver(GameOver),
}

/// The movement keys that are down.
#[derive(Clone, Copy, Debug, PartialEq, Eq)]
pub struct Keys {
    pub left: bool,
    pub right: bool,
    pub up: bool,
    pub down: bool,
}

} // verus!
