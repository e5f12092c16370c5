//! Simulation core of a two-player, turn-based artillery duel.
//!
//! Each side owns one half of a vertical arena filled with breakable terrain
//! blocks, may purchase and place cannons, and fires projectiles across the
//! arena to destroy the opponent's terrain. This crate holds the
//! deterministic simulation: the grid/world coordinate mapper, the terrain
//! and occupancy model, the economy and placement rules, the turn state
//! machine, and the projectile physics with collision and damage resolution.
//! Rendering and input live outside; they feed the simulation plain events
//! (a click position in world space, an end-turn signal, a fixed tick) and
//! read its state back.
//!
//! World space is measured in integer subunits, 1000 to a world unit, so
//! every quantity of the simulation is exact integer arithmetic.

use vstd::prelude::*;

pub mod game;
pub mod grid;
pub mod player;
pub mod shots;
pub mod structures;

verus! {

/// Number of grid columns across the arena.
pub const GRID_X: i64 = 20;

/// Number of grid rows down the arena; each side owns half of them.
pub const GRID_Y: i64 = 40;

/// The row splitting the arena: half of `GRID_Y`. The Bottom side owns rows
/// below it, the Top side rows at or above it.
pub const HALF_GRID_Y: i64 = 20;

/// Side length of one grid cell, in subunits (20 world units).
pub const CELL_SIZE: i64 = 20_000;

/// Half the arena width, in subunits (the arena is 400 x 800 world units).
pub const ARENA_HALF_X: i64 = 200_000;

/// Half the arena height, in subunits.
pub const ARENA_HALF_Y: i64 = 400_000;

/// Half the side of a terrain block's bounding box, in subunits.
pub const BLOCK_HALF: i64 = 10_000;

/// Half the side of a cannon's bounding box, in subunits (cannons are
/// 40 x 40 world units, a 2 x 2 block of cells).
pub const CANNON_HALF: i64 = 20_000;

/// Half the side of a projectile's bounding box, in subunits.
pub const BALL_HALF: i64 = 4_000;

/// Half the side of the probe box used to test whether a click touches a
/// cannon, in subunits (0.5 world units).
pub const PROBE_HALF: i64 = 500;

/// Base speed of a projectile, in subunits per tick (10 world units).
pub const BASE_SPEED: i64 = 10_000;

/// Launch power is measured in thousandths of the base speed.
pub const POWER_UNIT: i64 = 1000;

/// Smallest launch power, in thousandths: a near-zero drag still fires.
pub const POWER_MIN: i64 = 100;

/// Largest launch power, in thousandths: power never exceeds the base speed.
pub const POWER_MAX: i64 = 1000;

/// A drag of this many subunits (100 world units) gives full power.
pub const FULL_POWER_DRAG: i64 = 100_000;

/// Rows of terrain blocks each side starts with.
pub const INITIAL_ROWS: i64 = 5;

/// Health of a dirt block.
pub const DIRT_HEALTH: u8 = 1;

/// Health of a grass block.
pub const GRASS_HEALTH: u8 = 2;

/// Money each player starts with.
pub const STARTING_MONEY: u32 = 100;

/// Cost of a board (terrain patch) purchase.
pub const BOARD_COST: u32 = 50;

/// Cost of a cannon purchase.
pub const CANNON_COST: u32 = 100;

/// Cost of firing one projectile.
pub const CANNONBALL_COST: u32 = 30;

/// Income granted to the newly active player when a turn ends.
pub const TURN_INCOME: u32 = 100;

/// Bound on the world coordinates the simulation accepts from outside,
/// in subunits; far beyond the arena, and small enough that every
/// intermediate product of the aiming arithmetic fits in the machine types.
pub const WORLD_LIMIT: i64 = 10_000_000;

/// Bound on the grid coordinates a structure's anchor may hold; every cell
/// reachable from an accepted click lies well within it.
pub const CELL_LIMIT: i64 = 1_000;

/// A projectile whose position leaves this bound is removed when it moves:
/// the despawn policy for shots that exit the arena without hitting anything.
pub const DESPAWN_LIMIT: i64 = 30_000_000;

} // verus!
