//! A turn-based dungeon crawler's rules: level generation, spawning,
//! combat, items, monster AI and the player's commands, each stated as a
//! contract and proved.
//!
//! - `generator`, `dungeon`, `spawn`: carving rooms and corridors, placing
//!   monsters and items, moving on the grid.
//! - `object`, `combat`: entities, their stats, attacks and deaths.
//! - `items`, `inventory`: item effects, picking up, dropping, equipment.
//! - `ai`, `turn`, `session`: monster turns, player commands, rounds and
//!   level changes.
//! - `tiles`, `geometry`, `text`, `game`, `constants`: the supporting data.

pub mod ai;
pub mod combat;
pub mod constants;
pub mod dungeon;
pub mod game;
pub mod generator;
pub mod geometry;
pub mod inventory;
pub mod items;
pub mod object;
mod random;
pub mod session;
pub mod spawn;
pub mod text;
pub mod tiles;
pub mod turn;
