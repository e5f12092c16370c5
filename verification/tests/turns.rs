use cannon_duel::game::Game;
use cannon_duel::grid::from_grid_coords;
use cannon_duel::grid::GridCell;
use cannon_duel::grid::WorldVec;
use cannon_duel::player::PlayerSide;
use cannon_duel::player::PlayerState;
use cannon_duel::player::Purchasable;

#[test]
fn even_signal_count_is_a_no_op() {
    // two end-turn signals within one tick cancel out in pairs
    let mut g = Game::new();
    g.change_turn(2);
    assert_eq!(g.turn, PlayerSide::Bottom);
    assert_eq!(g.bottom.state, PlayerState::WaitingForAction);
    assert_eq!(g.top.state, PlayerState::WaitingForTurn);
    assert_eq!(g.bottom.money, 100);
    assert_eq!(g.top.money, 100);
    g.change_turn(0);
    assert_eq!(g.turn, PlayerSide::Bottom);
    assert_eq!(g.bottom.money, 100);
}

#[test]
fn odd_signal_count_flips_once() {
    let mut g = Game::new();
    g.change_turn(3);
    assert_eq!(g.turn, PlayerSide::Top);
    assert_eq!(g.top.state, PlayerState::WaitingForAction);
    assert_eq!(g.bottom.state, PlayerState::WaitingForTurn);
}

#[test]
fn income_goes_to_the_new_active_player_only() {
    let mut g = Game::new();
    g.change_turn(1);
    // Top becomes active and receives exactly the per-turn income;
    // Bottom's money is unchanged
    assert_eq!(g.top.money, 200);
    assert_eq!(g.bottom.money, 100);
    g.change_turn(1);
    assert_eq!(g.bottom.money, 200);
    assert_eq!(g.top.money, 200);
}

#[test]
fn turn_end_clears_selection() {
    let mut g = Game::new();
    g.toggle_purchase_menu();
    g.choose_purchase(Purchasable::Cannon);
    g.place_purchase(from_grid_coords(GridCell { x: 5, y: 5 }));
    // click the cannon's center: it becomes selected
    g.select_cannon(WorldVec { x: -80_000, y: -280_000 });
    assert!(g.structures[200].selected);
    g.change_turn(1);
    assert!(!g.structures[200].selected);
}

#[test]
fn turn_end_closes_menu_and_abandons_placing() {
    let mut g = Game::new();
    g.toggle_purchase_menu();
    assert_eq!(g.bottom.state, PlayerState::PurchaseMenu);
    g.change_turn(1);
    // the menu is gone with the turn
    assert_eq!(g.bottom.state, PlayerState::WaitingForTurn);
    g.change_turn(1);
    assert_eq!(g.bottom.state, PlayerState::WaitingForAction);
    // a pending placement is abandoned the same way; money was never spent
    g.toggle_purchase_menu();
    g.choose_purchase(Purchasable::Board);
    assert_eq!(g.bottom.state, PlayerState::Placing { item: Purchasable::Board });
    let money_before = g.bottom.money;
    g.change_turn(1);
    assert_eq!(g.bottom.state, PlayerState::WaitingForTurn);
    assert_eq!(g.bottom.money, money_before);
}

#[test]
fn income_saturates_at_the_largest_balance() {
    let mut g = Game::new();
    g.top.money = u32::MAX - 40;
    g.change_turn(1);
    assert_eq!(g.top.money, u32::MAX);
    assert_eq!(g.bottom.money, 100);
}

#[test]
fn sides_and_labels() {
    assert_eq!(PlayerSide::Top.other(), PlayerSide::Bottom);
    assert_eq!(PlayerSide::Bottom.other(), PlayerSide::Top);
    assert!(PlayerSide::Top.flip_y());
    assert!(!PlayerSide::Bottom.flip_y());
    assert_eq!(cannon_duel::player::menu_button_label(PlayerState::PurchaseMenu), "Cancel");
    assert_eq!(
        cannon_duel::player::menu_button_label(PlayerState::WaitingForAction),
        "Purchase"
    );
}
