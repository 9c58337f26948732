//! Deterministic rules engine for a grid-based tower-defense game.
//!
//! The engine advances a world of monsters, towers, spawners, collectors and
//! dropped loot one discrete tick at a time, entirely from player commands:
//! no clock, no randomness, no floating point.  Every state transition is
//! specified by a contract and proved, including the flat-word codec used to
//! persist the world, the occupancy and id-uniqueness invariants, the
//! per-player nonce discipline, and the targeting rule of the tick.

pub mod codec;
pub mod command;
pub mod config;
pub mod object;
pub mod player;
pub mod seqs;
pub mod settlement;
pub mod state;
pub mod store;
pub mod tick;
pub mod tile;

use vstd::prelude::*;

verus! {

/// Grid width of the canonical map layout.
pub const MAP_WIDTH: usize = 20;

/// Grid height of the canonical map layout.
pub const MAP_HEIGHT: usize = 20;

} // verus!
