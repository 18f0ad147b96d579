//! A game screen with one player and a handful of enemies, on integer coordinates.
//!
//! Lengths are counted in millionths of a pixel, time in microseconds and speed in
//! pixels per second, so that speed times elapsed time is a length. Directions are
//! fixed-point vectors in which `UNIT` stands for one.
//!
//! - `sqrt`: integer square roots.
//! - `direction`: directions and their normalisation.
//! - `position`: positions, and the steps taken along a direction.
//! - `input`: the keys that steer the player.
//! - `window`: the size of the window.
//! - `world`: the entities and the arena that holds them.
//! - `game`: the systems of the game screen.
//! - `screen`: which systems run when the screen is entered, ticked and left.

pub mod direction;
pub mod game;
pub mod input;
pub mod position;
pub mod screen;
pub mod sqrt;
pub mod window;
pub mod world;
