//! Rules of a small arcade game: a player circle dodges bouncing enemies and
//! collects stars on a rectangular field.
//!
//! Lengths are whole millionths of a field unit, time is whole microseconds,
//! and headings are vectors of length one million. The host supplies input,
//! elapsed time and the field's size each frame and consumes the events that
//! the rules append.

pub mod config;
pub mod geometry;
pub mod bounds;
pub mod direction;
pub mod motion;
pub mod random;
pub mod timer;
pub mod entity;
pub mod world;
pub mod enemy;
pub mod player;
pub mod collision;
pub mod spawner;
pub mod score;
pub mod frame;
