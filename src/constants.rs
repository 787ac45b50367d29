use vstd::prelude::*;

verus! {

/// Index of the player in the entity collection.
pub const PLAYER: usize = 0;

pub const MAP_WIDTH: i32 = 80;
pub const MAP_HEIGHT: i32 = 43;

pub const ROOM_MAX_SIZE: i32 = 10;
pub const ROOM_MIN_SIZE: i32 = 6;
pub const MAX_ROOMS: i32 = 30;

/// Inventory capacity: one slot per letter of the menu.
pub const INVENTORY_CAPACITY: usize = 26;

pub const MINOR_HEAL_AMOUNT: i32 = 4;
pub const HEAL_AMOUNT: i32 = 10;
pub const MAJOR_HEAL_AMOUNT: i32 = 30;
pub const LIGHTNING_DAMAGE: i32 = 40;
pub const LIGHTNING_RANGE: i32 = 5;
pub const CONFUSE_RANGE: i32 = 8;
pub const CONFUSE_NUM_TURNS: i32 = 10;
pub const FIREBALL_RADIUS: i32 = 3;
pub const FIREBALL_DAMAGE: i32 = 12;

pub const MAX_POWER: i32 = 30;
pub const MAX_DEFENSE: i32 = 30;
pub const MAX_MAX_HP: i32 = 100;

} // verus!
