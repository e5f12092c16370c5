//! The terrain and occupancy model: placed structures, their grid
//! footprints and world-space boxes, exclusive occupancy, and the damage
//! rule that removes a structure when its health reaches zero.

use crate::grid::from_grid_spec;
use crate::grid::GridCell;
use crate::grid::WorldVec;
use crate::player::PlayerSide;
use crate::BLOCK_HALF;
use crate::CANNON_HALF;
use crate::DIRT_HEALTH;
use crate::GRASS_HEALTH;
use vstd::prelude::*;

verus! {

/// What a placed structure is: a breakable terrain block (dirt or grass) or
/// an indestructible cannon.
#[derive(Clone, Copy, Debug, PartialEq, Eq, Structural)]
pub enum StructureKind {
    Dirt,
    Grass,
    Cannon,
}

impl StructureKind {
    /// Side length of the kind's square footprint, in grid cells.
    pub open spec fn spec_extent(self) -> int {
        if self is Cannon {
            2
        } else {
            1
        }
    }

    /// Health a fresh structure of this kind has; `None` means the kind is
    /// indestructible.
    pub open spec fn spec_base_health(self) -> Option<u8> {
        match self {
            StructureKind::Dirt => Some(DIRT_HEALTH),
            StructureKind::Grass => Some(GRASS_HEALTH),
            StructureKind::Cannon => None,
        }
    }

    /// Side length of the kind's square footprint, in grid cells.
    pub fn extent(&self) -> (e: u8)
        ensures
            e as int == self.spec_extent(),
    {
        match self {
            StructureKind::Cannon => 2,
            _ => 1,
        }
    }

    /// Health a fresh structure of this kind has.
    pub fn base_health(&self) -> (h: Option<u8>)
        ensures
            h == self.spec_base_health(),
    {
        match self {
            StructureKind::Dirt => Some(DIRT_HEALTH),
            StructureKind::Grass => Some(GRASS_HEALTH),
            StructureKind::Cannon => None,
        }
    }
}

/// A placed object: terrain block or cannon. Its footprint is the square of
/// cells with the anchor `cell` as lowest corner; breakables carry their
/// remaining health; only cannons can be selected for firing.
#[derive(Clone, Copy, Debug, PartialEq, Eq)]
pub struct Structure {
    pub side: PlayerSide,
    pub kind: StructureKind,
    pub cell: GridCell,
    pub health: Option<u8>,
    pub selected: bool,
}

impl Structure {
    /// Well-formedness: the anchor is bounded, health is present exactly on
    /// breakable kinds and positive while the structure lives, and only
    /// cannons carry the selected flag.
    pub open spec fn wf(self) -> bool {
        &&& self.cell.bounded()
        &&& (self.kind is Cannon <==> self.health is None)
        &&& (self.health matches Some(h) ==> h >= 1)
        &&& (self.selected ==> self.kind is Cannon)
    }

    /// Side length of the structure's square footprint, in grid cells.
    pub open spec fn extent(self) -> int {
        self.kind.spec_extent()
    }

    /// The footprint contains the given cell.
    pub open spec fn covers(self, c: GridCell) -> bool {
        in_footprint(self.cell, self.extent(), c)
    }

    /// The structure can take damage.
    pub open spec fn breakable(self) -> bool {
        self.health is Some
    }

    /// Center of the structure's world-space bounding box: the anchor
    /// cell's center for a block, shifted half a cell up and right for a
    /// 2 x 2 cannon.
    pub open spec fn spec_box_center(self) -> WorldVec {
        if self.kind is Cannon {
            WorldVec {
                x: (from_grid_spec(self.cell).x + BLOCK_HALF) as i64,
                y: (from_grid_spec(self.cell).y + BLOCK_HALF) as i64,
            }
        } else {
            from_grid_spec(self.cell)
        }
    }

    /// Half-extent of the structure's world-space bounding box.
    pub open spec fn spec_box_half(self) -> int {
        if self.kind is Cannon {
            CANNON_HALF as int
        } else {
            BLOCK_HALF as int
        }
    }

    /// Whether the footprint contains the given cell.
    pub fn contains_cell(&self, c: GridCell) -> (r: bool)
        requires
            self.cell.bounded(),
        ensures
            r == self.covers(c),
    {
        let ext = self.kind.extent() as i64;
        self.cell.x <= c.x && c.x < self.cell.x + ext && self.cell.y <= c.y && c.y < self.cell.y
            + ext
    }

    /// Center of the structure's world-space bounding box.
    pub fn box_center(&self) -> (c: WorldVec)
        requires
            self.cell.bounded(),
        ensures
            c == self.spec_box_center(),
    {
        let anchor = crate::grid::from_grid_coords(self.cell);
        match self.kind {
            StructureKind::Cannon => WorldVec { x: anchor.x + BLOCK_HALF, y: anchor.y + BLOCK_HALF },
            _ => anchor,
        }
    }

    /// Half-extent of the structure's world-space bounding box.
    pub fn box_half(&self) -> (h: i64)
        ensures
            h == self.spec_box_half(),
    {
        match self.kind {
            StructureKind::Cannon => CANNON_HALF,
            _ => BLOCK_HALF,
        }
    }
}

/// The square footprint anchored at `cell` with side `ext` contains the
/// cell `c`.
pub open spec fn in_footprint(cell: GridCell, ext: int, c: GridCell) -> bool {
    &&& cell.x <= c.x < cell.x + ext
    &&& cell.y <= c.y < cell.y + ext
}

/// The two square footprints share no grid cell, stated as axis separation.
pub open spec fn rects_disjoint(ca: GridCell, ea: int, cb: GridCell, eb: int) -> bool {
    ||| ca.x + ea <= cb.x
    ||| cb.x + eb <= ca.x
    ||| ca.y + ea <= cb.y
    ||| cb.y + eb <= ca.y
}

/// The two structures' footprints share no grid cell.
pub open spec fn footprints_disjoint(a: Structure, b: Structure) -> bool {
    rects_disjoint(a.cell, a.extent(), b.cell, b.extent())
}

/// Runtime separation test for two bounded square footprints.
pub fn footprints_separate(ca: GridCell, ea: i64, cb: GridCell, eb: i64) -> (r: bool)
    requires
        ca.bounded(),
        cb.bounded(),
        0 <= ea <= 2,
        0 <= eb <= 2,
    ensures
        r == rects_disjoint(ca, ea as int, cb, eb as int),
{
    ca.x + ea <= cb.x || cb.x + eb <= ca.x || ca.y + ea <= cb.y || cb.y + eb <= ca.y
}

/// Separated footprints indeed share no cell.
pub proof fn lemma_rects_disjoint_no_shared_cell(
    ca: GridCell,
    ea: int,
    cb: GridCell,
    eb: int,
    c: GridCell,
)
    requires
        rects_disjoint(ca, ea, cb, eb),
    ensures
        !(in_footprint(ca, ea, c) && in_footprint(cb, eb, c)),
{
}

/// Nonempty footprints that are not separated share a concrete cell: the
/// corner of their intersection.
pub proof fn lemma_rects_overlap_shared_cell(ca: GridCell, ea: int, cb: GridCell, eb: int)
    requires
        !rects_disjoint(ca, ea, cb, eb),
        ea >= 1,
        eb >= 1,
    ensures
        exists|c: GridCell| in_footprint(ca, ea, c) && in_footprint(cb, eb, c),
{
    let cx: i64 = if ca.x >= cb.x {
        ca.x
    } else {
        cb.x
    };
    let cy: i64 = if ca.y >= cb.y {
        ca.y
    } else {
        cb.y
    };
    let c = GridCell { x: cx, y: cy };
    assert(in_footprint(ca, ea, c) && in_footprint(cb, eb, c));
}

/// No structure of the sequence covers the cell.
pub open spec fn cell_free(ss: Seq<Structure>, c: GridCell) -> bool {
    forall|i: int| 0 <= i < ss.len() ==> !(#[trigger] ss[i]).covers(c)
}

/// Every cell of the square footprint anchored at `cell` with side `ext` is
/// unoccupied.
pub open spec fn footprint_free(ss: Seq<Structure>, cell: GridCell, ext: int) -> bool {
    forall|c: GridCell| #[trigger] in_footprint(cell, ext, c) ==> cell_free(ss, c)
}

/// A footprint is entirely unoccupied exactly when it is separated from
/// every placed structure's footprint.
pub proof fn lemma_footprint_free_iff_disjoint(ss: Seq<Structure>, cell: GridCell, ext: int)
    requires
        ext >= 1,
    ensures
        footprint_free(ss, cell, ext) <==> (forall|k: int|
            0 <= k < ss.len() ==> rects_disjoint(
                cell,
                ext,
                (#[trigger] ss[k]).cell,
                ss[k].extent(),
            )),
{
    if footprint_free(ss, cell, ext) {
        assert forall|k: int| 0 <= k < ss.len() implies rects_disjoint(
            cell,
            ext,
            (#[trigger] ss[k]).cell,
            ss[k].extent(),
        ) by {
            if !rects_disjoint(cell, ext, ss[k].cell, ss[k].extent()) {
                lemma_rects_overlap_shared_cell(cell, ext, ss[k].cell, ss[k].extent());
                let c = choose|c: GridCell|
                    in_footprint(cell, ext, c) && in_footprint(ss[k].cell, ss[k].extent(), c);
                assert(cell_free(ss, c));
                assert(!ss[k].covers(c));
            }
        }
    }
    if forall|k: int|
        0 <= k < ss.len() ==> rects_disjoint(cell, ext, (#[trigger] ss[k]).cell, ss[k].extent()) {
        assert forall|c: GridCell| #[trigger] in_footprint(cell, ext, c) implies cell_free(
            ss,
            c,
        ) by {
            assert forall|k: int| 0 <= k < ss.len() implies !(#[trigger] ss[k]).covers(c) by {
                assert(rects_disjoint(cell, ext, ss[k].cell, ss[k].extent()));
                lemma_rects_disjoint_no_shared_cell(cell, ext, ss[k].cell, ss[k].extent(), c);
            }
        }
    }
}

/// Occupancy exclusivity: the structures' footprints are pairwise disjoint,
/// so no grid cell is claimed by two of them.
pub open spec fn occupancy_exclusive(ss: Seq<Structure>) -> bool {
    forall|i: int, j: int|
        0 <= i < j < ss.len() ==> footprints_disjoint(#[trigger] ss[i], #[trigger] ss[j])
}

/// One point of damage applied to the structure at index `j`: health drops
/// by one; a structure whose health reaches zero is removed, freeing its
/// footprint. Out-of-range indices and indestructible structures are left
/// unchanged, so damage to a missing structure is a no-op and health never
/// goes negative.
pub open spec fn damage_seq(ss: Seq<Structure>, j: int) -> Seq<Structure> {
    if 0 <= j < ss.len() {
        match ss[j].health {
            Some(h) => if h <= 1 {
                ss.remove(j)
            } else {
                ss.update(j, Structure { health: Some((h - 1) as u8), ..ss[j] })
            },
            None => ss,
        }
    } else {
        ss
    }
}

/// Removing a structure keeps the remaining footprints pairwise disjoint.
pub proof fn lemma_occupancy_remove(ss: Seq<Structure>, i: int)
    requires
        occupancy_exclusive(ss),
        0 <= i < ss.len(),
    ensures
        occupancy_exclusive(ss.remove(i)),
{
    let st = ss.remove(i);
    ss.remove_ensures(i);
    assert forall|a: int, b: int| 0 <= a < b < st.len() implies footprints_disjoint(
        #[trigger] st[a],
        #[trigger] st[b],
    ) by {
        let a0: int = if a < i {
            a
        } else {
            a + 1
        };
        let b0: int = if b < i {
            b
        } else {
            b + 1
        };
        assert(st[a] == ss[a0]);
        assert(st[b] == ss[b0]);
        assert(footprints_disjoint(ss[a0], ss[b0]));
    }
}

/// Damage preserves the occupancy model's invariants: structures stay
/// well-formed, footprints stay pairwise disjoint, and a selected structure
/// still belongs to the given side.
pub proof fn lemma_damage_seq_invariants(ss: Seq<Structure>, j: int, side: PlayerSide)
    requires
        forall|k: int| 0 <= k < ss.len() ==> (#[trigger] ss[k]).wf(),
        occupancy_exclusive(ss),
        forall|k: int| 0 <= k < ss.len() ==> ((#[trigger] ss[k]).selected ==> ss[k].side == side),
    ensures
        forall|k: int|
            0 <= k < damage_seq(ss, j).len() ==> (#[trigger] damage_seq(ss, j)[k]).wf(),
        occupancy_exclusive(damage_seq(ss, j)),
        forall|k: int|
            0 <= k < damage_seq(ss, j).len() ==> ((#[trigger] damage_seq(ss, j)[k]).selected
                ==> damage_seq(ss, j)[k].side == side),
{
    let st = damage_seq(ss, j);
    if 0 <= j < ss.len() {
        match ss[j].health {
            Some(h) => {
                if h <= 1 {
                    lemma_occupancy_remove(ss, j);
                    ss.remove_ensures(j);
                    assert forall|k: int| 0 <= k < st.len() implies (#[trigger] st[k]).wf() && (
                    st[k].selected ==> st[k].side == side) by {
                        let k0: int = if k < j {
                            k
                        } else {
                            k + 1
                        };
                        assert(st[k] == ss[k0]);
                    }
                } else {
                    let s1 = Structure { health: Some((h - 1) as u8), ..ss[j] };
                    assert(st == ss.update(j, s1));
                    assert(s1.wf());
                    assert forall|a: int, b: int| 0 <= a < b < st.len() implies footprints_disjoint(
                        #[trigger] st[a],
                        #[trigger] st[b],
                    ) by {
                        assert(footprints_disjoint(ss[a], ss[b]));
                    }
                }
            },
            None => {},
        }
    }
}

/// `n` points of damage applied one by one at index `j`.
pub open spec fn damage_n(ss: Seq<Structure>, j: int, n: nat) -> Seq<Structure>
    decreases n,
{
    if n == 0 {
        ss
    } else {
        damage_n(damage_seq(ss, j), j, (n - 1) as nat)
    }
}

/// Damage-to-destruction law: a structure with health `h` survives any
/// `n < h` hits, keeping exactly `h - n` health, and is removed by its
/// `h`-th hit — never fewer hits, never more, and the rest of the sequence
/// is untouched.
pub proof fn lemma_damage_to_destruction(ss: Seq<Structure>, j: int, h: u8, n: nat)
    requires
        0 <= j < ss.len(),
        ss[j].health == Some(h),
        h >= 1,
        n <= h,
    ensures
        n < h ==> damage_n(ss, j, n) == ss.update(
            j,
            Structure { health: Some((h - n) as u8), ..ss[j] },
        ),
        n == h ==> damage_n(ss, j, n) == ss.remove(j),
    decreases n,
{
    if n == 0 {
        assert(Structure { health: Some((h - 0) as u8), ..ss[j] } == ss[j]);
        assert(ss.update(j, ss[j]) =~= ss);
    } else {
        if h == 1 {
            assert(n == 1);
            assert(damage_seq(ss, j) == ss.remove(j));
            assert(damage_n(ss.remove(j), j, 0) == ss.remove(j));
        } else {
            let s1 = Structure { health: Some((h - 1) as u8), ..ss[j] };
            let ss1 = ss.update(j, s1);
            assert(damage_seq(ss, j) == ss1);
            lemma_damage_to_destruction(ss1, j, (h - 1) as u8, (n - 1) as nat);
            if n < h {
                assert(Structure { health: Some((h - n) as u8), ..ss1[j] } == Structure {
                    health: Some((h - n) as u8),
                    ..ss[j]
                });
                assert(ss1.update(j, Structure { health: Some((h - n) as u8), ..ss[j] }) =~= ss.update(
                    j,
                    Structure { health: Some((h - n) as u8), ..ss[j] },
                ));
            } else {
                assert(ss1.remove(j) =~= ss.remove(j));
            }
        }
    }
}

} // verus!
