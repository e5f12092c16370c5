//! The simulation context: both players, the turn, the placed structures
//! and the projectiles in flight, together with the turn state machine, the
//! economy and placement rules, and cannon selection.

use crate::grid::to_grid_coords;
use crate::grid::to_grid_spec;
use crate::grid::GridCell;
use crate::grid::WorldVec;
use crate::player::Player;
use crate::player::PlayerSide;
use crate::player::PlayerState;
use crate::player::Purchasable;
use crate::shots::Projectile;
use crate::structures::cell_free;
use crate::structures::footprint_free;
use crate::structures::footprints_disjoint;
use crate::structures::footprints_separate;
use crate::structures::in_footprint;
use crate::structures::lemma_damage_seq_invariants;
use crate::structures::lemma_footprint_free_iff_disjoint;
use crate::structures::damage_seq;
use crate::structures::occupancy_exclusive;
use crate::structures::rects_disjoint;
use crate::structures::Structure;
use crate::structures::StructureKind;
use crate::GRID_X;
use crate::GRID_Y;
use crate::HALF_GRID_Y;
use crate::INITIAL_ROWS;
use crate::PROBE_HALF;
use crate::STARTING_MONEY;
use crate::TURN_INCOME;
use vstd::arithmetic::div_mod::lemma_fundamental_div_mod;
use vstd::arithmetic::div_mod::lemma_mod_division_less_than_divisor;
use vstd::prelude::*;

verus! {

/// The whole simulation state. Every core operation takes it explicitly;
/// there is no hidden global.
pub struct Game {
    /// The side whose turn it is; the corresponding player is the active
    /// one.
    pub turn: PlayerSide,
    pub top: Player,
    pub bottom: Player,
    /// Placed structures, in stable creation order.
    pub structures: Vec<Structure>,
    /// Projectiles in flight, in stable firing order.
    pub projectiles: Vec<Projectile>,
}

impl Game {
    /// The player of the given side.
    pub open spec fn player_of(self, s: PlayerSide) -> Player {
        if s is Top {
            self.top
        } else {
            self.bottom
        }
    }

    /// The active player: the one whose side the turn names.
    pub open spec fn active(self) -> Player {
        self.player_of(self.turn)
    }

    /// The inactive player.
    pub open spec fn inactive(self) -> Player {
        self.player_of(self.turn.spec_other())
    }

    /// Well-formedness of the whole simulation state: each player record
    /// carries its own side, exactly the active player is in a state other
    /// than `WaitingForTurn`, every structure is well-formed, no grid cell
    /// is claimed by two structures, a selected cannon always belongs to
    /// the side whose turn it is, and every projectile is well-formed.
    pub open spec fn wf(self) -> bool {
        &&& self.top.side is Top
        &&& self.bottom.side is Bottom
        &&& self.active().state !is WaitingForTurn
        &&& self.inactive().state is WaitingForTurn
        &&& forall|i: int|
            0 <= i < self.structures@.len() ==> (#[trigger] self.structures@[i]).wf()
        &&& occupancy_exclusive(self.structures@)
        &&& forall|i: int|
            0 <= i < self.structures@.len() ==> ((#[trigger] self.structures@[i]).selected
                ==> self.structures@[i].side == self.turn)
        &&& forall|i: int|
            0 <= i < self.projectiles@.len() ==> (#[trigger] self.projectiles@[i]).wf()
    }

    /// Reads the active player's money.
    pub fn read_active_money(&self) -> (m: u32)
        ensures
            m == self.active().money,
    {
        match self.turn {
            PlayerSide::Top => self.top.money,
            PlayerSide::Bottom => self.bottom.money,
        }
    }

    /// Reads the active player's interaction state.
    pub fn read_active_state(&self) -> (s: PlayerState)
        ensures
            s == self.active().state,
    {
        match self.turn {
            PlayerSide::Top => self.top.state,
            PlayerSide::Bottom => self.bottom.state,
        }
    }

    /// Writes the active player's money and state, leaving everything else
    /// unchanged.
    pub(crate) fn set_active_player(&mut self, money: u32, state: PlayerState)
        ensures
            final(self).turn == old(self).turn,
            final(self).structures@ == old(self).structures@,
            final(self).projectiles@ == old(self).projectiles@,
            final(self).active() == (Player {
                side: old(self).active().side,
                money,
                state,
            }),
            final(self).inactive() == old(self).inactive(),
    {
        match self.turn {
            PlayerSide::Top => {
                self.top.money = money;
                self.top.state = state;
            },
            PlayerSide::Bottom => {
                self.bottom.money = money;
                self.bottom.state = state;
            },
        }
    }
}

/// Number of terrain blocks the initial board holds on each side.
pub open spec fn blocks_per_side() -> int {
    GRID_X * INITIAL_ROWS
}

/// Number of terrain blocks the initial board holds.
pub open spec fn initial_block_count() -> int {
    2 * blocks_per_side()
}

/// The `i`-th structure of the initial board: the Bottom side's blocks come
/// first, column by column and row by row from its arena edge inward, then
/// the Top side's, mirrored. The row nearest the arena middle is grass, the
/// rest dirt.
pub open spec fn initial_structure(i: int) -> Structure {
    let side = if i < blocks_per_side() {
        PlayerSide::Bottom
    } else {
        PlayerSide::Top
    };
    let k = if i < blocks_per_side() {
        i
    } else {
        i - blocks_per_side()
    };
    let col = k / (INITIAL_ROWS as int);
    let row = k % (INITIAL_ROWS as int);
    let y = if side is Bottom {
        row
    } else {
        GRID_Y - 1 - row
    };
    let kind = if row == INITIAL_ROWS - 1 {
        StructureKind::Grass
    } else {
        StructureKind::Dirt
    };
    Structure {
        side,
        kind,
        cell: GridCell { x: col as i64, y: y as i64 },
        health: kind.spec_base_health(),
        selected: false,
    }
}

/// Every block of the initial board is well-formed, one cell wide, and sits
/// on its owner's starting rows at the arena's edge; everything between the
/// two bands starts free.
pub proof fn lemma_initial_structure_wf(i: int)
    requires
        0 <= i < initial_block_count(),
    ensures
        initial_structure(i).wf(),
        initial_structure(i).cell.in_range(),
        initial_structure(i).extent() == 1,
        initial_structure(i).side is Bottom ==> initial_structure(i).cell.y < INITIAL_ROWS,
        initial_structure(i).side is Top ==> initial_structure(i).cell.y >= GRID_Y - INITIAL_ROWS,
{
    let k = if i < blocks_per_side() {
        i
    } else {
        i - blocks_per_side()
    };
    lemma_fundamental_div_mod(k, INITIAL_ROWS as int);
    lemma_mod_division_less_than_divisor(k, INITIAL_ROWS as int);
}

/// Distinct blocks of the initial board occupy disjoint footprints.
pub proof fn lemma_initial_structures_disjoint(i: int, j: int)
    requires
        0 <= i < j < initial_block_count(),
    ensures
        footprints_disjoint(initial_structure(i), initial_structure(j)),
{
    let a = initial_structure(i);
    let b = initial_structure(j);
    let ki = if i < blocks_per_side() {
        i
    } else {
        i - blocks_per_side()
    };
    let kj = if j < blocks_per_side() {
        j
    } else {
        j - blocks_per_side()
    };
    lemma_fundamental_div_mod(ki, INITIAL_ROWS as int);
    lemma_mod_division_less_than_divisor(ki, INITIAL_ROWS as int);
    lemma_fundamental_div_mod(kj, INITIAL_ROWS as int);
    lemma_mod_division_less_than_divisor(kj, INITIAL_ROWS as int);
    if !footprints_disjoint(a, b) {
        assert(a.cell == b.cell);
        assert(false);
    }
}

impl Game {
    /// The initial game: both players start with the same money, the
    /// Bottom side moves first, and each side's edge of the arena carries
    /// its starting rows of terrain blocks.
    pub fn new() -> (g: Game)
        ensures
            g.wf(),
            g.turn is Bottom,
            g.top == (Player {
                side: PlayerSide::Top,
                money: STARTING_MONEY,
                state: PlayerState::WaitingForTurn,
            }),
            g.bottom == (Player {
                side: PlayerSide::Bottom,
                money: STARTING_MONEY,
                state: PlayerState::WaitingForAction,
            }),
            g.projectiles@.len() == 0,
            g.structures@.len() == initial_block_count(),
            forall|k: int|
                0 <= k < initial_block_count() ==> g.structures@[k] == initial_structure(k),
    {
        let per_side: usize = (GRID_X * INITIAL_ROWS) as usize;
        let total: usize = 2 * per_side;
        let rows: usize = INITIAL_ROWS as usize;
        let mut structures: Vec<Structure> = Vec::new();
        let mut i: usize = 0;
        while i < total
            invariant
                i <= total,
                per_side == blocks_per_side(),
                total == initial_block_count(),
                rows == INITIAL_ROWS,
                structures@.len() == i,
                forall|k: int| 0 <= k < i ==> structures@[k] == initial_structure(k),
            decreases total - i,
        {
            let side = if i < per_side {
                PlayerSide::Bottom
            } else {
                PlayerSide::Top
            };
            let k: usize = if i < per_side {
                i
            } else {
                i - per_side
            };
            let col = (k / rows) as i64;
            let row = (k % rows) as i64;
            let y = match side {
                PlayerSide::Bottom => row,
                PlayerSide::Top => GRID_Y - 1 - row,
            };
            let kind = if row == INITIAL_ROWS - 1 {
                StructureKind::Grass
            } else {
                StructureKind::Dirt
            };
            let health = kind.base_health();
            let s = Structure { side, kind, cell: GridCell { x: col, y }, health, selected: false };
            proof {
                assert(s == initial_structure(i as int));
            }
            structures.push(s);
            i += 1;
        }
        let g = Game {
            turn: PlayerSide::Bottom,
            top: Player {
                side: PlayerSide::Top,
                money: STARTING_MONEY,
                state: PlayerState::WaitingForTurn,
            },
            bottom: Player {
                side: PlayerSide::Bottom,
                money: STARTING_MONEY,
                state: PlayerState::WaitingForAction,
            },
            structures,
            projectiles: Vec::new(),
        };
        proof {
            assert forall|k: int| 0 <= k < g.structures@.len() implies (
            #[trigger] g.structures@[k]).wf() by {
                lemma_initial_structure_wf(k);
            }
            assert forall|a: int, b: int| 0 <= a < b < g.structures@.len() implies
            footprints_disjoint(#[trigger] g.structures@[a], #[trigger] g.structures@[b]) by {
                lemma_initial_structures_disjoint(a, b);
            }
            assert forall|k: int| 0 <= k < g.structures@.len() implies !(
            #[trigger] g.structures@[k]).selected by {
                assert(g.structures@[k] == initial_structure(k));
            }
        }
        g
    }

    /// Scans the placed structures for the one whose footprint contains
    /// the cell; returns the first such structure's index, in stable
    /// creation order.
    pub fn occupied(&self, c: GridCell) -> (r: Option<usize>)
        requires
            self.wf(),
        ensures
            match r {
                Some(i) => {
                    &&& i < self.structures@.len()
                    &&& self.structures@[i as int].covers(c)
                    &&& forall|k: int|
                        0 <= k < i ==> !(#[trigger] self.structures@[k]).covers(c)
                },
                None => cell_free(self.structures@, c),
            },
    {
        let mut i: usize = 0;
        while i < self.structures.len()
            invariant
                i <= self.structures@.len(),
                self.wf(),
                forall|k: int| 0 <= k < i ==> !(#[trigger] self.structures@[k]).covers(c),
            decreases self.structures@.len() - i,
        {
            let s = self.structures[i];
            if s.contains_cell(c) {
                return Some(i);
            }
            i += 1;
        }
        None
    }
}

/// The side-of-board restriction: the Top side may only anchor placements
/// at or above the middle row; a Bottom placement must lie entirely below
/// it.
pub open spec fn side_allows(cell: GridCell, ext: int, side: PlayerSide) -> bool {
    match side {
        PlayerSide::Top => cell.y >= HALF_GRID_Y,
        PlayerSide::Bottom => cell.y + ext <= HALF_GRID_Y,
    }
}

/// Placement legality: every cell of the footprint is unoccupied and the
/// footprint sits on the placing side's half of the arena. Both conditions
/// are necessary.
pub open spec fn valid_placement(
    ss: Seq<Structure>,
    cell: GridCell,
    ext: int,
    side: PlayerSide,
) -> bool {
    footprint_free(ss, cell, ext) && side_allows(cell, ext, side)
}

/// Side restriction, Top half: a Top-side placement anchored below the
/// middle row is always rejected, whatever is on the board.
pub proof fn lemma_top_side_restriction(ss: Seq<Structure>, cell: GridCell, ext: int)
    requires
        cell.y < HALF_GRID_Y,
    ensures
        !valid_placement(ss, cell, ext, PlayerSide::Top),
{
}

/// Side restriction, Bottom half: a Bottom-side placement whose footprint
/// crosses the middle row is always rejected, whatever is on the board.
pub proof fn lemma_bottom_side_restriction(ss: Seq<Structure>, cell: GridCell, ext: int)
    requires
        cell.y + ext > HALF_GRID_Y,
    ensures
        !valid_placement(ss, cell, ext, PlayerSide::Bottom),
{
}

/// Placement rejection: a placement whose anchor cell is already covered
/// by some structure is rejected, for either side and any footprint.
pub proof fn lemma_placement_rejection(
    ss: Seq<Structure>,
    cell: GridCell,
    i: int,
    ext: int,
    side: PlayerSide,
)
    requires
        0 <= i < ss.len(),
        ss[i].covers(cell),
        ext >= 1,
    ensures
        !valid_placement(ss, cell, ext, side),
{
    assert(in_footprint(cell, ext, cell));
    assert(!cell_free(ss, cell));
}

impl Game {
    /// Placement legality test: true iff every cell of the square footprint
    /// anchored at `cell` is unoccupied and the footprint lies on the
    /// placing side's half of the arena.
    pub fn is_valid_place(&self, cell: GridCell, extent: u8, side: PlayerSide) -> (r: bool)
        requires
            self.wf(),
            cell.bounded(),
            1 <= extent <= 2,
        ensures
            r == valid_placement(self.structures@, cell, extent as int, side),
    {
        let mut free = true;
        let mut k: usize = 0;
        while k < self.structures.len()
            invariant
                k <= self.structures@.len(),
                self.wf(),
                cell.bounded(),
                1 <= extent <= 2,
                free == (forall|t: int|
                    0 <= t < k ==> rects_disjoint(
                        cell,
                        extent as int,
                        (#[trigger] self.structures@[t]).cell,
                        self.structures@[t].extent(),
                    )),
            decreases self.structures@.len() - k,
        {
            let s = self.structures[k];
            let sep = footprints_separate(cell, extent as i64, s.cell, s.kind.extent() as i64);
            free = free && sep;
            k += 1;
        }
        proof {
            lemma_footprint_free_iff_disjoint(self.structures@, cell, extent as int);
        }
        let side_ok = match side {
            PlayerSide::Top => cell.y >= HALF_GRID_Y,
            PlayerSide::Bottom => cell.y + (extent as i64) <= HALF_GRID_Y,
        };
        free && side_ok
    }
}

/// The structure a successful purchase places: a cannon, or — for a board —
/// a grass block at full health.
pub open spec fn placed_kind(item: Purchasable) -> StructureKind {
    match item {
        Purchasable::Cannon => StructureKind::Cannon,
        Purchasable::Board => StructureKind::Grass,
    }
}

/// The structure a successful placement of `item` at `cell` creates for
/// `side`.
pub open spec fn placed_structure(item: Purchasable, cell: GridCell, side: PlayerSide) -> Structure {
    Structure {
        side,
        kind: placed_kind(item),
        cell,
        health: placed_kind(item).spec_base_health(),
        selected: false,
    }
}

impl Game {
    /// Handles a click while the active player is placing a purchased
    /// item: maps the click to its grid cell and, if the item is still
    /// affordable and the placement is legal for the active side, places
    /// the structure, debits the cost, and returns the player to
    /// `WaitingForAction`. On any failure the click is silently rejected:
    /// nothing changes. Clicks in any other state do nothing.
    pub fn place_purchase(&mut self, click: WorldVec)
        requires
            old(self).wf(),
            click.in_world(),
        ensures
            final(self).wf(),
            final(self).turn == old(self).turn,
            final(self).projectiles@ == old(self).projectiles@,
            final(self).inactive() == old(self).inactive(),
            ({
                let p = old(self).active();
                let cell = to_grid_spec(click);
                match p.state {
                    PlayerState::Placing { item } => {
                        if p.money >= item.spec_cost() && valid_placement(
                            old(self).structures@,
                            cell,
                            item.spec_footprint() as int,
                            old(self).turn,
                        ) {
                            &&& final(self).structures@ == old(self).structures@.push(
                                placed_structure(item, cell, old(self).turn),
                            )
                            &&& final(self).active() == (Player {
                                money: (p.money - item.spec_cost()) as u32,
                                state: PlayerState::WaitingForAction,
                                ..p
                            })
                        } else {
                            &&& final(self).structures@ == old(self).structures@
                            &&& final(self).active() == p
                        }
                    },
                    _ => {
                        &&& final(self).structures@ == old(self).structures@
                        &&& final(self).active() == p
                    },
                }
            }),
    {
        let state = self.read_active_state();
        if let PlayerState::Placing { item } = state {
            let cell = to_grid_coords(click);
            let extent = item.footprint();
            let cost = item.cost();
            let money = self.read_active_money();
            let side = self.turn;
            if money >= cost && self.is_valid_place(cell, extent, side) {
                let kind = match item {
                    Purchasable::Cannon => StructureKind::Cannon,
                    Purchasable::Board => StructureKind::Grass,
                };
                let s = Structure {
                    side,
                    kind,
                    cell,
                    health: kind.base_health(),
                    selected: false,
                };
                proof {
                    assert(s == placed_structure(item, to_grid_spec(click), old(self).turn));
                    lemma_footprint_free_iff_disjoint(
                        self.structures@,
                        cell,
                        extent as int,
                    );
                    assert(s.extent() == extent as int);
                    assert forall|k: int| 0 <= k < self.structures@.len() implies
                    footprints_disjoint(#[trigger] self.structures@[k], s) by {
                        assert(rects_disjoint(
                            cell,
                            extent as int,
                            self.structures@[k].cell,
                            self.structures@[k].extent(),
                        ));
                    }
                }
                self.structures.push(s);
                self.set_active_player(money - cost, PlayerState::WaitingForAction);
            }
        }
    }

    /// Opens the purchase menu when the active player is waiting for an
    /// action, closes it when it is open, and does nothing while an item
    /// is being placed.
    pub fn toggle_purchase_menu(&mut self)
        requires
            old(self).wf(),
        ensures
            final(self).wf(),
            final(self).turn == old(self).turn,
            final(self).structures@ == old(self).structures@,
            final(self).projectiles@ == old(self).projectiles@,
            final(self).inactive() == old(self).inactive(),
            ({
                let p = old(self).active();
                match p.state {
                    PlayerState::WaitingForAction => final(self).active() == (Player {
                        state: PlayerState::PurchaseMenu,
                        ..p
                    }),
                    PlayerState::PurchaseMenu => final(self).active() == (Player {
                        state: PlayerState::WaitingForAction,
                        ..p
                    }),
                    _ => final(self).active() == p,
                }
            }),
    {
        let state = self.read_active_state();
        let money = self.read_active_money();
        match state {
            PlayerState::WaitingForAction => {
                self.set_active_player(money, PlayerState::PurchaseMenu);
            },
            PlayerState::PurchaseMenu => {
                self.set_active_player(money, PlayerState::WaitingForAction);
            },
            _ => {},
        }
    }

    /// Handles the active player pressing a purchase button: if the menu
    /// is open and the item is affordable, the player moves to placing it
    /// and the menu closes; money is spent only at successful placement.
    /// Otherwise nothing changes.
    pub fn choose_purchase(&mut self, item: Purchasable)
        requires
            old(self).wf(),
        ensures
            final(self).wf(),
            final(self).turn == old(self).turn,
            final(self).structures@ == old(self).structures@,
            final(self).projectiles@ == old(self).projectiles@,
            final(self).inactive() == old(self).inactive(),
            ({
                let p = old(self).active();
                if p.state is PurchaseMenu && p.money >= item.spec_cost() {
                    final(self).active() == (Player { state: PlayerState::Placing { item }, ..p })
                } else {
                    final(self).active() == p
                }
            }),
    {
        let state = self.read_active_state();
        let money = self.read_active_money();
        let cost = item.cost();
        match state {
            PlayerState::PurchaseMenu => {
                if money >= cost {
                    self.set_active_player(money, PlayerState::Placing { item });
                }
            },
            _ => {},
        }
    }
}

/// The money a player holds after receiving the per-turn income; the grant
/// saturates at the largest representable balance.
pub open spec fn grant_income(m: u32) -> u32 {
    if m + TURN_INCOME <= u32::MAX {
        (m + TURN_INCOME) as u32
    } else {
        u32::MAX
    }
}

impl Game {
    /// Consumes the end-turn signals of one tick. Signals cancel out in
    /// pairs: an even count leaves the whole state unchanged, an odd count
    /// flips the turn exactly once. A flip grants the newly active player
    /// the per-turn income and leaves the other player's money unchanged,
    /// sets the new active player to `WaitingForAction` and the other to
    /// `WaitingForTurn` (abandoning any open menu or pending placement),
    /// and clears every cannon's selection.
    pub fn change_turn(&mut self, signals: u32)
        requires
            old(self).wf(),
        ensures
            final(self).wf(),
            signals % 2 == 0 ==> {
                &&& final(self).turn == old(self).turn
                &&& final(self).top == old(self).top
                &&& final(self).bottom == old(self).bottom
                &&& final(self).structures@ == old(self).structures@
                &&& final(self).projectiles@ == old(self).projectiles@
            },
            signals % 2 == 1 ==> ({
                let t = old(self).turn.spec_other();
                let gained = old(self).inactive();
                let lost = old(self).active();
                &&& final(self).turn == t
                &&& final(self).player_of(t) == (Player {
                    money: grant_income(gained.money),
                    state: PlayerState::WaitingForAction,
                    ..gained
                })
                &&& final(self).player_of(old(self).turn) == (Player {
                    state: PlayerState::WaitingForTurn,
                    ..lost
                })
                &&& final(self).projectiles@ == old(self).projectiles@
                &&& final(self).structures@.len() == old(self).structures@.len()
                &&& forall|k: int|
                    0 <= k < old(self).structures@.len() ==> final(self).structures@[k] == (
                    Structure { selected: false, ..old(self).structures@[k] })
            }),
    {
        if signals % 2 == 0 {
            return ;
        }
        let new_turn = self.turn.other();
        self.turn = new_turn;
        match new_turn {
            PlayerSide::Top => {
                self.top.state = PlayerState::WaitingForAction;
                self.top.money = if self.top.money <= u32::MAX - TURN_INCOME {
                    self.top.money + TURN_INCOME
                } else {
                    u32::MAX
                };
                self.bottom.state = PlayerState::WaitingForTurn;
            },
            PlayerSide::Bottom => {
                self.bottom.state = PlayerState::WaitingForAction;
                self.bottom.money = if self.bottom.money <= u32::MAX - TURN_INCOME {
                    self.bottom.money + TURN_INCOME
                } else {
                    u32::MAX
                };
                self.top.state = PlayerState::WaitingForTurn;
            },
        }
        let turn_now = self.turn;
        let top_now = self.top;
        let bottom_now = self.bottom;
        let mut i: usize = 0;
        while i < self.structures.len()
            invariant
                i <= self.structures@.len(),
                self.turn == turn_now,
                self.top == top_now,
                self.bottom == bottom_now,
                self.projectiles@ == old(self).projectiles@,
                self.structures@.len() == old(self).structures@.len(),
                forall|k: int|
                    0 <= k < i ==> self.structures@[k] == (Structure {
                        selected: false,
                        ..old(self).structures@[k]
                    }),
                forall|k: int|
                    i <= k < self.structures@.len() ==> self.structures@[k] == old(
                        self,
                    ).structures@[k],
            decreases self.structures@.len() - i,
        {
            let mut s = self.structures[i];
            s.selected = false;
            self.structures.set(i, s);
            i += 1;
        }
        proof {
            assert forall|a: int, b: int| 0 <= a < b < self.structures@.len() implies
            footprints_disjoint(#[trigger] self.structures@[a], #[trigger] self.structures@[b]) by {
                assert(footprints_disjoint(old(self).structures@[a], old(self).structures@[b]));
            }
        }
    }
}

/// Whether a click selects the structure: it is a cannon of the side whose
/// turn it is, and the click's probe box overlaps the cannon's box.
pub open spec fn cannon_hit(s: Structure, click: WorldVec, turn: PlayerSide) -> bool {
    &&& s.kind is Cannon
    &&& s.side == turn
    &&& crate::grid::boxes_overlap(click, PROBE_HALF as int, s.spec_box_center(), s.spec_box_half())
}

impl Game {
    /// Handles a click-down: every cannon becomes selected exactly when the
    /// click touches it and it belongs to the side whose turn it is; all
    /// other cannons are deselected in the same pass.
    pub fn select_cannon(&mut self, click: WorldVec)
        requires
            old(self).wf(),
            click.in_world(),
        ensures
            final(self).wf(),
            final(self).turn == old(self).turn,
            final(self).top == old(self).top,
            final(self).bottom == old(self).bottom,
            final(self).projectiles@ == old(self).projectiles@,
            final(self).structures@.len() == old(self).structures@.len(),
            forall|k: int|
                0 <= k < old(self).structures@.len() ==> final(self).structures@[k] == (Structure {
                    selected: cannon_hit(old(self).structures@[k], click, old(self).turn),
                    ..old(self).structures@[k]
                }),
    {
        let turn = self.turn;
        let top_now = self.top;
        let bottom_now = self.bottom;
        let mut i: usize = 0;
        while i < self.structures.len()
            invariant
                i <= self.structures@.len(),
                old(self).wf(),
                click.in_world(),
                turn == old(self).turn,
                self.turn == old(self).turn,
                self.top == top_now,
                self.bottom == bottom_now,
                self.projectiles@ == old(self).projectiles@,
                self.structures@.len() == old(self).structures@.len(),
                forall|k: int|
                    0 <= k < i ==> self.structures@[k] == (Structure {
                        selected: cannon_hit(old(self).structures@[k], click, old(self).turn),
                        ..old(self).structures@[k]
                    }),
                forall|k: int|
                    i <= k < self.structures@.len() ==> self.structures@[k] == old(
                        self,
                    ).structures@[k],
            decreases self.structures@.len() - i,
        {
            let mut s = self.structures[i];
            match s.kind {
                StructureKind::Cannon => {
                    let center = s.box_center();
                    let half = s.box_half();
                    let touched = crate::grid::aabb_collision(click, PROBE_HALF, center, half);
                    let is_own = match (s.side, turn) {
                        (PlayerSide::Top, PlayerSide::Top) => true,
                        (PlayerSide::Bottom, PlayerSide::Bottom) => true,
                        _ => false,
                    };
                    s.selected = touched && is_own;
                    self.structures.set(i, s);
                },
                _ => {
                    proof {
                        assert(!old(self).structures@[i as int].selected);
                    }
                },
            }
            i += 1;
        }
        proof {
            assert forall|a: int, b: int| 0 <= a < b < self.structures@.len() implies
            footprints_disjoint(#[trigger] self.structures@[a], #[trigger] self.structures@[b]) by {
                assert(footprints_disjoint(old(self).structures@[a], old(self).structures@[b]));
            }
        }
    }

    /// Applies one point of damage to the structure at index `i`:
    /// a breakable structure loses one health and is removed — freeing its
    /// footprint — when its health reaches zero; an indestructible
    /// structure or an out-of-range index is a no-op, so health never goes
    /// negative and a removed structure cannot be damaged again.
    pub fn damage(&mut self, i: usize)
        requires
            old(self).wf(),
        ensures
            final(self).wf(),
            final(self).turn == old(self).turn,
            final(self).top == old(self).top,
            final(self).bottom == old(self).bottom,
            final(self).projectiles@ == old(self).projectiles@,
            final(self).structures@ == damage_seq(old(self).structures@, i as int),
    {
        proof {
            lemma_damage_seq_invariants(self.structures@, i as int, self.turn);
        }
        if i < self.structures.len() {
            let s = self.structures[i];
            match s.health {
                Some(h) => {
                    if h <= 1 {
                        self.structures.remove(i);
                    } else {
                        let mut s2 = s;
                        s2.health = Some(h - 1);
                        self.structures.set(i, s2);
                    }
                },
                None => {},
            }
        }
    }
}

} // verus!
