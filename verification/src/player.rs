//! Players, sides, interaction states, and the purchasable items of the
//! economy.

use crate::BOARD_COST;
use crate::CANNON_COST;
use vstd::prelude::*;

verus! {

/// One of the two competing sides. Top owns the upper half of the arena,
/// Bottom the lower.
#[derive(Clone, Copy, Debug, PartialEq, Eq, Structural)]
pub enum PlayerSide {
    Top,
    Bottom,
}

impl PlayerSide {
    /// The opposing side.
    pub open spec fn spec_other(self) -> PlayerSide {
        match self {
            PlayerSide::Top => PlayerSide::Bottom,
            PlayerSide::Bottom => PlayerSide::Top,
        }
    }

    /// The opposing side.
    pub fn other(&self) -> (r: PlayerSide)
        ensures
            r == self.spec_other(),
    {
        match self {
            PlayerSide::Top => PlayerSide::Bottom,
            PlayerSide::Bottom => PlayerSide::Top,
        }
    }

    /// Whether sprites of this side are drawn flipped on the y axis; the
    /// renderer reads it, the simulation never does.
    pub fn flip_y(&self) -> (r: bool)
        ensures
            r == (self is Top),
    {
        match self {
            PlayerSide::Top => true,
            PlayerSide::Bottom => false,
        }
    }
}

/// An item a player can purchase and place.
#[derive(Clone, Copy, Debug, PartialEq, Eq, Structural)]
pub enum Purchasable {
    Cannon,
    Board,
}

impl Purchasable {
    /// The fixed cost of the item; a cannon is costlier than a board.
    pub open spec fn spec_cost(self) -> u32 {
        match self {
            Purchasable::Cannon => CANNON_COST,
            Purchasable::Board => BOARD_COST,
        }
    }

    /// The fixed cost of the item.
    pub fn cost(&self) -> (c: u32)
        ensures
            c == self.spec_cost(),
    {
        match self {
            Purchasable::Cannon => CANNON_COST,
            Purchasable::Board => BOARD_COST,
        }
    }

    /// Side length of the item's square footprint, in grid cells: a cannon
    /// takes a 2 x 2 block, a board one cell.
    pub open spec fn spec_footprint(self) -> u8 {
        match self {
            Purchasable::Cannon => 2,
            Purchasable::Board => 1,
        }
    }

    /// Side length of the item's square footprint, in grid cells.
    pub fn footprint(&self) -> (s: u8)
        ensures
            s == self.spec_footprint(),
    {
        match self {
            Purchasable::Cannon => 2,
            Purchasable::Board => 1,
        }
    }

    /// Display label of the item.
    pub fn label(&self) -> (s: &'static str)
        ensures
            self is Cannon ==> s@ == "Cannon"@,
            self is Board ==> s@ == "Board"@,
    {
        match self {
            Purchasable::Cannon => "Cannon",
            Purchasable::Board => "Board",
        }
    }
}

/// The interaction state of one player. Exactly one player is in a state
/// other than `WaitingForTurn` at any time: the active player.
#[derive(Clone, Copy, Debug, PartialEq, Eq, Structural)]
pub enum PlayerState {
    /// Active, with no menu open and nothing being placed.
    WaitingForAction,
    /// Inactive: it is the opponent's turn.
    WaitingForTurn,
    /// Active, with the purchase menu open.
    PurchaseMenu,
    /// Active, having selected an item and now choosing where to place it.
    Placing { item: Purchasable },
}

/// One player: a side, a money balance, and an interaction state.
#[derive(Clone, Copy, Debug, PartialEq, Eq, Structural)]
pub struct Player {
    pub side: PlayerSide,
    pub money: u32,
    pub state: PlayerState,
}

/// Display label of the menu button for a player in the given state:
/// the button closes an open purchase menu and opens one otherwise.
pub fn menu_button_label(state: PlayerState) -> (s: &'static str)
    ensures
        state is PurchaseMenu ==> s@ == "Cancel"@,
        state !is PurchaseMenu ==> s@ == "Purchase"@,
{
    match state {
        PlayerState::PurchaseMenu => "Cancel",
        _ => "Purchase",
    }
}

} // verus!
