use cannon_duel::game::Game;
use cannon_duel::grid::from_grid_coords;
use cannon_duel::grid::GridCell;
use cannon_duel::player::PlayerSide;
use cannon_duel::player::PlayerState;
use cannon_duel::player::Purchasable;
use cannon_duel::structures::StructureKind;

#[test]
fn initial_board_and_players() {
    let g = Game::new();
    assert_eq!(g.top.money, 100);
    assert_eq!(g.bottom.money, 100);
    assert_eq!(g.turn, PlayerSide::Bottom);
    assert_eq!(g.bottom.state, PlayerState::WaitingForAction);
    assert_eq!(g.top.state, PlayerState::WaitingForTurn);
    assert_eq!(g.structures.len(), 200);
    assert_eq!(g.projectiles.len(), 0);
    // corner cell carries a dirt block of the Bottom side
    let i = g.occupied(GridCell { x: 0, y: 0 }).unwrap();
    assert_eq!(g.structures[i].kind, StructureKind::Dirt);
    assert_eq!(g.structures[i].side, PlayerSide::Bottom);
    assert_eq!(g.structures[i].health, Some(1));
    // the row nearest the middle is grass with two health, on both sides
    let i = g.occupied(GridCell { x: 0, y: 4 }).unwrap();
    assert_eq!(g.structures[i].kind, StructureKind::Grass);
    assert_eq!(g.structures[i].health, Some(2));
    let i = g.occupied(GridCell { x: 7, y: 35 }).unwrap();
    assert_eq!(g.structures[i].kind, StructureKind::Grass);
    assert_eq!(g.structures[i].side, PlayerSide::Top);
    // the middle of the arena is empty
    assert!(g.occupied(GridCell { x: 10, y: 20 }).is_none());
}

#[test]
fn menu_toggling() {
    let mut g = Game::new();
    g.toggle_purchase_menu();
    assert_eq!(g.bottom.state, PlayerState::PurchaseMenu);
    g.toggle_purchase_menu();
    assert_eq!(g.bottom.state, PlayerState::WaitingForAction);
}

#[test]
fn purchase_cannon_and_place() {
    // Bottom buys a cannon for its whole starting money and places it on a
    // free 2 x 2 patch of its own half
    let mut g = Game::new();
    g.toggle_purchase_menu();
    g.choose_purchase(Purchasable::Cannon);
    assert_eq!(g.bottom.state, PlayerState::Placing { item: Purchasable::Cannon });
    assert_eq!(g.bottom.money, 100);
    g.place_purchase(from_grid_coords(GridCell { x: 5, y: 5 }));
    assert_eq!(g.bottom.money, 0);
    assert_eq!(g.bottom.state, PlayerState::WaitingForAction);
    assert_eq!(g.structures.len(), 201);
    let cannon = &g.structures[200];
    assert_eq!(cannon.kind, StructureKind::Cannon);
    assert_eq!(cannon.side, PlayerSide::Bottom);
    assert_eq!(cannon.health, None);
    // the cannon's footprint claims exactly its four cells
    for (x, y) in [(5, 5), (6, 5), (5, 6), (6, 6)] {
        assert_eq!(g.occupied(GridCell { x, y }), Some(200));
    }
    assert!(g.occupied(GridCell { x: 7, y: 5 }).is_none());
    assert!(g.occupied(GridCell { x: 4, y: 5 }).is_none());
}

#[test]
fn placement_on_occupied_cell_rejected() {
    // placing a cannon at a cell already holding a terrain block fails and
    // changes nothing
    let mut g = Game::new();
    g.toggle_purchase_menu();
    g.choose_purchase(Purchasable::Cannon);
    g.place_purchase(from_grid_coords(GridCell { x: 0, y: 0 }));
    assert_eq!(g.bottom.money, 100);
    assert_eq!(g.structures.len(), 200);
    assert_eq!(g.bottom.state, PlayerState::Placing { item: Purchasable::Cannon });
}

#[test]
fn placement_overlapping_footprint_rejected() {
    // the 2 x 2 footprint anchored at (0, 4) overlaps the grass row even
    // though its upper cells are free
    let mut g = Game::new();
    g.toggle_purchase_menu();
    g.choose_purchase(Purchasable::Cannon);
    g.place_purchase(from_grid_coords(GridCell { x: 0, y: 4 }));
    assert_eq!(g.bottom.money, 100);
    assert_eq!(g.structures.len(), 200);
}

#[test]
fn bottom_cannot_cross_middle_row() {
    // anchor row 19 puts the cannon's upper cells at row 20, crossing the
    // middle: rejected
    let mut g = Game::new();
    g.toggle_purchase_menu();
    g.choose_purchase(Purchasable::Cannon);
    g.place_purchase(from_grid_coords(GridCell { x: 5, y: 19 }));
    assert_eq!(g.bottom.money, 100);
    assert_eq!(g.structures.len(), 200);
    // one row lower fits entirely in the Bottom half: accepted
    g.place_purchase(from_grid_coords(GridCell { x: 5, y: 18 }));
    assert_eq!(g.bottom.money, 0);
    assert_eq!(g.structures.len(), 201);
}

#[test]
fn top_cannot_place_below_middle_row() {
    let mut g = Game::new();
    g.change_turn(1);
    assert_eq!(g.turn, PlayerSide::Top);
    g.toggle_purchase_menu();
    g.choose_purchase(Purchasable::Cannon);
    // anchor row 19 is below the middle: always rejected for Top
    g.place_purchase(from_grid_coords(GridCell { x: 5, y: 19 }));
    assert_eq!(g.top.money, 200);
    assert_eq!(g.structures.len(), 200);
    // row 20 is the first the Top side owns: accepted
    g.place_purchase(from_grid_coords(GridCell { x: 5, y: 20 }));
    assert_eq!(g.top.money, 100);
    assert_eq!(g.structures.len(), 201);
}

#[test]
fn unaffordable_item_not_selectable() {
    let mut g = Game::new();
    g.bottom.money = 40;
    g.toggle_purchase_menu();
    g.choose_purchase(Purchasable::Board);
    // a board costs 50: the menu stays open and nothing is placed
    assert_eq!(g.bottom.state, PlayerState::PurchaseMenu);
    assert_eq!(g.bottom.money, 40);
}

#[test]
fn board_purchase_places_grass_block() {
    let mut g = Game::new();
    g.toggle_purchase_menu();
    g.choose_purchase(Purchasable::Board);
    g.place_purchase(from_grid_coords(GridCell { x: 3, y: 10 }));
    assert_eq!(g.bottom.money, 50);
    assert_eq!(g.structures.len(), 201);
    assert_eq!(g.structures[200].kind, StructureKind::Grass);
    assert_eq!(g.structures[200].health, Some(2));
    assert_eq!(g.occupied(GridCell { x: 3, y: 10 }), Some(200));
}

#[test]
fn costs_and_footprints() {
    assert_eq!(Purchasable::Cannon.cost(), 100);
    assert_eq!(Purchasable::Board.cost(), 50);
    assert_eq!(Purchasable::Cannon.footprint(), 2);
    assert_eq!(Purchasable::Board.footprint(), 1);
    assert_eq!(Purchasable::Cannon.label(), "Cannon");
    assert_eq!(Purchasable::Board.label(), "Board");
}
