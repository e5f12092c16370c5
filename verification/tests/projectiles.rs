use cannon_duel::game::Game;
use cannon_duel::grid::GridCell;
use cannon_duel::grid::WorldVec;
use cannon_duel::player::PlayerSide;
use cannon_duel::shots::Projectile;

/// A still projectile of the Bottom side at the given position.
fn ball_at(x: i64, y: i64) -> Projectile {
    Projectile { side: PlayerSide::Bottom, pos: WorldVec { x, y }, vel: WorldVec { x: 0, y: 0 } }
}

#[test]
fn velocity_moves_projectiles() {
    let mut g = Game::new();
    g.projectiles.push(Projectile {
        side: PlayerSide::Bottom,
        pos: WorldVec { x: 1_000, y: 2_000 },
        vel: WorldVec { x: 300, y: -400 },
    });
    g.apply_velocity();
    assert_eq!(g.projectiles.len(), 1);
    assert_eq!(g.projectiles[0].pos, WorldVec { x: 1_300, y: 1_600 });
    g.apply_velocity();
    assert_eq!(g.projectiles[0].pos, WorldVec { x: 1_600, y: 1_200 });
}

#[test]
fn projectile_leaving_bounds_despawns() {
    let mut g = Game::new();
    g.projectiles.push(Projectile {
        side: PlayerSide::Top,
        pos: WorldVec { x: 29_995_000, y: 0 },
        vel: WorldVec { x: 10_000, y: 0 },
    });
    g.apply_velocity();
    assert_eq!(g.projectiles.len(), 0);
}

#[test]
fn damage_destroys_after_exact_health() {
    let mut g = Game::new();
    // the block at (0, 4) is grass with two health
    let i = g.occupied(GridCell { x: 0, y: 4 }).unwrap();
    g.damage(i);
    assert_eq!(g.structures.len(), 200);
    assert_eq!(g.structures[i].health, Some(1));
    assert!(g.occupied(GridCell { x: 0, y: 4 }).is_some());
    g.damage(i);
    // the second hit removes it and frees its footprint
    assert_eq!(g.structures.len(), 199);
    assert!(g.occupied(GridCell { x: 0, y: 4 }).is_none());
}

#[test]
fn damage_on_missing_or_indestructible_is_a_no_op() {
    let mut g = Game::new();
    g.damage(5_000);
    assert_eq!(g.structures.len(), 200);
    // a cannon has no health and takes no damage
    g.toggle_purchase_menu();
    g.choose_purchase(cannon_duel::player::Purchasable::Cannon);
    g.place_purchase(cannon_duel::grid::from_grid_coords(GridCell { x: 5, y: 5 }));
    g.damage(200);
    assert_eq!(g.structures.len(), 201);
    assert_eq!(g.structures[200].health, None);
}

#[test]
fn one_projectile_damages_exactly_one_structure() {
    let mut g = Game::new();
    // a ball sitting on the edge between the grass blocks at (0, 4) and
    // (1, 4): its box overlaps both
    g.projectiles.push(ball_at(-180_000, -310_000));
    g.resolve_collisions();
    // the projectile despawned on its single hit
    assert_eq!(g.projectiles.len(), 0);
    // the first block in creation order took the one point of damage
    let i = g.occupied(GridCell { x: 0, y: 4 }).unwrap();
    assert_eq!(g.structures[i].health, Some(1));
    // the neighbouring block it also overlapped is untouched
    let j = g.occupied(GridCell { x: 1, y: 4 }).unwrap();
    assert_eq!(g.structures[j].health, Some(2));
    assert_eq!(g.structures.len(), 200);
}

#[test]
fn projectile_missing_everything_stays() {
    let mut g = Game::new();
    g.projectiles.push(ball_at(0, 0));
    g.resolve_collisions();
    assert_eq!(g.projectiles.len(), 1);
    assert_eq!(g.structures.len(), 200);
}

#[test]
fn projectiles_pass_through_cannons() {
    let mut g = Game::new();
    g.toggle_purchase_menu();
    g.choose_purchase(cannon_duel::player::Purchasable::Cannon);
    g.place_purchase(cannon_duel::grid::from_grid_coords(GridCell { x: 5, y: 8 }));
    // a ball inside the cannon's box at (5..7, 8..10), far from any terrain
    g.projectiles.push(ball_at(-80_000, -220_000));
    g.resolve_collisions();
    // cannons are not breakable: no hit, the ball stays
    assert_eq!(g.projectiles.len(), 1);
    assert_eq!(g.structures.len(), 201);
}

#[test]
fn shot_flies_across_the_arena_and_hits_enemy_terrain() {
    let mut g = Game::new();
    g.toggle_purchase_menu();
    g.choose_purchase(cannon_duel::player::Purchasable::Cannon);
    g.place_purchase(cannon_duel::grid::from_grid_coords(GridCell { x: 5, y: 5 }));
    g.bottom.money = 100;
    let center = WorldVec { x: -80_000, y: -280_000 };
    g.select_cannon(center);
    // pull straight down with a full-power drag: the shot flies up at the
    // base speed, 10 world units per tick
    g.fire_selected_cannon(WorldVec { x: center.x, y: center.y - 150_000 });
    assert_eq!(g.projectiles.len(), 1);
    assert_eq!(g.projectiles[0].vel, WorldVec { x: 0, y: 10_000 });
    // the Top side's nearest terrain row starts at world y = 300_000; the
    // shot's box first touches it after 58 ticks
    for _ in 0..57 {
        g.apply_velocity();
        g.resolve_collisions();
        assert_eq!(g.projectiles.len(), 1);
        assert_eq!(g.structures.len(), 201);
    }
    g.apply_velocity();
    g.resolve_collisions();
    assert_eq!(g.projectiles.len(), 0);
    // the shot flew up the boundary of columns 5 and 6 and touched the Top
    // side's grass blocks of both; first-match damages the one created
    // first, column 5, and leaves column 6 untouched
    let i = g.occupied(GridCell { x: 5, y: 35 }).unwrap();
    assert_eq!(g.structures[i].side, PlayerSide::Top);
    assert_eq!(g.structures[i].health, Some(1));
    let j = g.occupied(GridCell { x: 6, y: 35 }).unwrap();
    assert_eq!(g.structures[j].health, Some(2));
}

#[test]
fn destruction_frees_the_footprint_for_placement() {
    // after shooting a block away, its cell can be built on again
    let mut g = Game::new();
    let i = g.occupied(GridCell { x: 3, y: 4 }).unwrap();
    g.damage(i);
    let i = g.occupied(GridCell { x: 3, y: 4 }).unwrap();
    g.damage(i);
    assert!(g.occupied(GridCell { x: 3, y: 4 }).is_none());
    g.toggle_purchase_menu();
    g.choose_purchase(cannon_duel::player::Purchasable::Board);
    g.place_purchase(cannon_duel::grid::from_grid_coords(GridCell { x: 3, y: 4 }));
    assert_eq!(g.bottom.money, 50);
    assert!(g.occupied(GridCell { x: 3, y: 4 }).is_some());
}
