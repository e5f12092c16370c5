use cannon_duel::grid::aabb_collision;
use cannon_duel::grid::from_grid_coords;
use cannon_duel::grid::to_grid_coords;
use cannon_duel::grid::GridCell;
use cannon_duel::grid::WorldVec;
use cannon_duel::GRID_X;
use cannon_duel::GRID_Y;

#[test]
fn round_trip_every_in_range_cell() {
    for x in 0..GRID_X {
        for y in 0..GRID_Y {
            let c = GridCell { x, y };
            assert_eq!(to_grid_coords(from_grid_coords(c)), c);
        }
    }
}

#[test]
fn to_grid_concrete_values() {
    // the arena center lies in the cell just past the middle on each axis
    assert_eq!(to_grid_coords(WorldVec { x: 0, y: 0 }), GridCell { x: 10, y: 20 });
    // the lower-left arena corner maps to the first cell
    assert_eq!(
        to_grid_coords(WorldVec { x: -200_000, y: -400_000 }),
        GridCell { x: 0, y: 0 }
    );
    // just below the corner, floor division goes negative
    assert_eq!(
        to_grid_coords(WorldVec { x: -200_001, y: -400_001 }),
        GridCell { x: -1, y: -1 }
    );
}

#[test]
fn from_grid_concrete_values() {
    // center of the first cell: half a cell in from the arena corner
    assert_eq!(
        from_grid_coords(GridCell { x: 0, y: 0 }),
        WorldVec { x: -190_000, y: -390_000 }
    );
    assert_eq!(
        from_grid_coords(GridCell { x: 5, y: 5 }),
        WorldVec { x: -90_000, y: -290_000 }
    );
}

#[test]
fn aabb_overlap_cases() {
    let a = WorldVec { x: 0, y: 0 };
    // clearly overlapping
    assert!(aabb_collision(a, 10_000, WorldVec { x: 5_000, y: 5_000 }, 10_000));
    // touching boxes count as overlapping, as in the collision resolver
    assert!(aabb_collision(a, 10_000, WorldVec { x: 20_000, y: 0 }, 10_000));
    // separated on x only
    assert!(!aabb_collision(a, 10_000, WorldVec { x: 20_001, y: 0 }, 10_000));
    // separated on y only
    assert!(!aabb_collision(a, 10_000, WorldVec { x: 0, y: -20_001 }, 10_000));
}
