//! The grid/coordinate mapper: conversions between continuous world space
//! (arena-centered, in subunits) and integer grid cells, and the
//! axis-aligned box overlap test the collision resolver and the cannon
//! selector share.

use crate::ARENA_HALF_X;
use crate::ARENA_HALF_Y;
use crate::BLOCK_HALF;
use crate::CELL_LIMIT;
use crate::CELL_SIZE;
use crate::GRID_X;
use crate::GRID_Y;
use crate::WORLD_LIMIT;
use vstd::arithmetic::div_mod::lemma_div_multiples_vanish_fancy;
use vstd::arithmetic::div_mod::lemma_hoist_over_denominator;
use vstd::prelude::*;

verus! {

/// A 2-D vector in world space, in subunits; used both for positions and
/// for per-tick velocities.
#[derive(Clone, Copy, Debug, PartialEq, Eq, Structural)]
pub struct WorldVec {
    pub x: i64,
    pub y: i64,
}

/// An integer 2-D grid coordinate. In-range cells lie in
/// `[0, GRID_X) x [0, GRID_Y)`, but out-of-range cells are representable.
#[derive(Clone, Copy, Debug, PartialEq, Eq, Structural)]
pub struct GridCell {
    pub x: i64,
    pub y: i64,
}

impl WorldVec {
    /// Both coordinates lie within the bound the simulation accepts from
    /// outside.
    pub open spec fn in_world(self) -> bool {
        &&& -WORLD_LIMIT <= self.x <= WORLD_LIMIT
        &&& -WORLD_LIMIT <= self.y <= WORLD_LIMIT
    }
}

impl GridCell {
    /// The anchor bound every placed structure keeps.
    pub open spec fn bounded(self) -> bool {
        &&& -CELL_LIMIT <= self.x <= CELL_LIMIT
        &&& -CELL_LIMIT <= self.y <= CELL_LIMIT
    }

    /// The cell lies on the arena proper.
    pub open spec fn in_range(self) -> bool {
        &&& 0 <= self.x < GRID_X
        &&& 0 <= self.y < GRID_Y
    }
}

/// The grid cell containing a world position: floor division of the
/// arena-corner-relative position by the cell size, on each axis.
pub open spec fn to_grid_spec(p: WorldVec) -> GridCell {
    GridCell {
        x: ((p.x + ARENA_HALF_X) / (CELL_SIZE as int)) as i64,
        y: ((p.y + ARENA_HALF_Y) / (CELL_SIZE as int)) as i64,
    }
}

/// The world-space center of a grid cell.
pub open spec fn from_grid_spec(c: GridCell) -> WorldVec {
    WorldVec {
        x: (c.x * CELL_SIZE - ARENA_HALF_X + BLOCK_HALF) as i64,
        y: (c.y * CELL_SIZE - ARENA_HALF_Y + BLOCK_HALF) as i64,
    }
}

/// Floor division of a bounded subunit coordinate by the cell size,
/// computed by shifting into the nonnegative range first.
fn floor_div_by_cell(n: i64) -> (q: i64)
    requires
        -40_000_000 <= n <= 40_000_000,
    ensures
        q == n as int / (CELL_SIZE as int),
{
    let shifted: u64 = (n + 40_000_000) as u64;
    let qs: u64 = shifted / 20_000;
    proof {
        lemma_hoist_over_denominator(n as int, 2000, 20_000nat);
    }
    (qs as i64) - 2000
}

/// Maps a world position to the grid cell containing it.
pub fn to_grid_coords(p: WorldVec) -> (c: GridCell)
    requires
        p.in_world(),
    ensures
        c == to_grid_spec(p),
        c.bounded(),
{
    GridCell { x: floor_div_by_cell(p.x + ARENA_HALF_X), y: floor_div_by_cell(p.y + ARENA_HALF_Y) }
}

/// Maps a grid cell to the world position of its center.
pub fn from_grid_coords(c: GridCell) -> (p: WorldVec)
    requires
        c.bounded(),
    ensures
        p == from_grid_spec(c),
{
    WorldVec {
        x: c.x * CELL_SIZE - ARENA_HALF_X + BLOCK_HALF,
        y: c.y * CELL_SIZE - ARENA_HALF_Y + BLOCK_HALF,
    }
}

/// Round-trip law: mapping an in-range cell to its world-space center and
/// back yields the same cell.
pub proof fn lemma_grid_round_trip(c: GridCell)
    requires
        c.in_range(),
    ensures
        to_grid_spec(from_grid_spec(c)) == c,
{
    lemma_div_multiples_vanish_fancy(c.x as int, BLOCK_HALF as int, CELL_SIZE as int);
    lemma_div_multiples_vanish_fancy(c.y as int, BLOCK_HALF as int, CELL_SIZE as int);
    assert(from_grid_spec(c).x + ARENA_HALF_X == CELL_SIZE * c.x + BLOCK_HALF);
    assert(from_grid_spec(c).y + ARENA_HALF_Y == CELL_SIZE * c.y + BLOCK_HALF);
}

/// Axis-aligned overlap of two boxes given by center and half-extent:
/// boxes that merely touch count as overlapping, on both axes.
pub open spec fn boxes_overlap(ac: WorldVec, ah: int, bc: WorldVec, bh: int) -> bool {
    &&& ac.x - ah <= bc.x + bh
    &&& bc.x - bh <= ac.x + ah
    &&& ac.y - ah <= bc.y + bh
    &&& bc.y - bh <= ac.y + ah
}

/// Axis-aligned bounding-box collision test between two centered square
/// boxes.
pub fn aabb_collision(a_center: WorldVec, a_half: i64, b_center: WorldVec, b_half: i64) -> (r:
    bool)
    requires
        -100_000_000 <= a_center.x <= 100_000_000,
        -100_000_000 <= a_center.y <= 100_000_000,
        -100_000_000 <= b_center.x <= 100_000_000,
        -100_000_000 <= b_center.y <= 100_000_000,
        0 <= a_half <= 100_000,
        0 <= b_half <= 100_000,
    ensures
        r == boxes_overlap(a_center, a_half as int, b_center, b_half as int),
{
    a_center.x - a_half <= b_center.x + b_half && b_center.x - b_half <= a_center.x + a_half
        && a_center.y - a_half <= b_center.y + b_half && b_center.y - b_half <= a_center.y
        + a_half
}

} // verus!
