//! Territories and the mathematical model of a map under construction: the
//! per-cell owner sequence, the abstract territory states, and the invariant
//! tying cell ownership to territory membership.

use vstd::prelude::*;

use crate::geometry::{cell_index, in_bounds, Coord};
use crate::grid::HexGrid;

verus! {

/// A connected group of cells owned by one player, grown from a single seed
/// cell. Its id is its position in the generation's territory list; the first
/// entry of `cells` is the seed cell.
pub struct Territory {
    /// The player this territory belongs to.
    pub player: u32,
    /// The member cells, in the order they were claimed.
    pub cells: Vec<Coord>,
    /// Set once the territory has no unclaimed neighbor cell left; its size
    /// never changes afterwards.
    pub blocked: bool,
}

/// The abstract state of one territory.
pub ghost struct TerrState {
    pub player: u32,
    pub cells: Seq<Coord>,
    pub blocked: bool,
}

impl View for Territory {
    type V = TerrState;

    open spec fn view(&self) -> TerrState {
        TerrState { player: self.player, cells: self.cells@, blocked: self.blocked }
    }
}

impl Territory {
    /// The number of member cells.
    pub fn size(&self) -> (n: usize)
        ensures
            n == self@.cells.len(),
    {
        self.cells.len()
    }
}

/// The abstract state of a map under construction: the owner of every cell,
/// row-major, and the state of every territory, indexed by territory id.
pub ghost struct GrowState {
    pub owners: Seq<Option<u32>>,
    pub terrs: Seq<TerrState>,
}

/// The abstract states of a list of territories.
pub open spec fn terrs_view(ts: Seq<Territory>) -> Seq<TerrState> {
    ts.map_values(|t: Territory| t@)
}

/// The abstract state carried by a grid and its territory list.
pub open spec fn state_of(g: HexGrid, ts: Seq<Territory>) -> GrowState {
    GrowState { owners: g.cells@, terrs: terrs_view(ts) }
}

/// Territory `t` is internally consistent: it has at least its seed cell, its
/// member cells are on the grid, distinct, and each is owned by `t`.
pub open spec fn terr_ok(w: int, h: int, s: GrowState, t: int) -> bool {
    let mc = s.terrs[t].cells;
    &&& mc.len() >= 1
    &&& forall|j: int| 0 <= j < mc.len() ==> in_bounds(w, h, #[trigger] mc[j].col as int, mc[j].row as int)
        && s.owners[cell_index(w, mc[j].col as int, mc[j].row as int)] == Some(t as u32)
    &&& forall|j: int, k: int| 0 <= j < k < mc.len() ==> mc[j] != mc[k]
}

/// The owner recorded at `(c, r)`, if any, is a valid territory id whose
/// member list contains the cell.
pub open spec fn owner_ok(w: int, h: int, s: GrowState, c: int, r: int) -> bool {
    match s.owners[cell_index(w, c, r)] {
        None => true,
        Some(id) => id < s.terrs.len() && s.terrs[id as int].cells.contains(
            Coord { col: c as u32, row: r as u32 },
        ),
    }
}

/// The invariant of a map under construction on a `w` by `h` grid: every cell
/// belongs to at most one territory, and ownership and membership agree.
pub open spec fn inv(w: int, h: int, s: GrowState) -> bool {
    &&& 1 <= w <= u32::MAX
    &&& 1 <= h <= u32::MAX
    &&& w * h <= usize::MAX
    &&& s.owners.len() == w * h
    &&& s.terrs.len() <= u32::MAX
    &&& forall|t: int| 0 <= t < s.terrs.len() ==> #[trigger] terr_ok(w, h, s, t)
    &&& forall|c: int, r: int|
        #![trigger s.owners[cell_index(w, c, r)]]
        in_bounds(w, h, c, r) ==> owner_ok(w, h, s, c, r)
}

/// No territory exceeds `target` cells.
pub open spec fn sizes_at_most(s: GrowState, target: int) -> bool {
    forall|t: int| 0 <= t < s.terrs.len() ==> (#[trigger] s.terrs[t].cells).len() <= target
}

/// The total number of member cells over all territories.
pub open spec fn sum_sizes(terrs: Seq<TerrState>) -> nat
    decreases terrs.len(),
{
    if terrs.len() == 0 {
        0
    } else {
        sum_sizes(terrs.drop_last()) + terrs.last().cells.len()
    }
}

/// Adding a territory adds its size to the total.
pub proof fn lemma_sum_sizes_push(terrs: Seq<TerrState>, t: TerrState)
    ensures
        sum_sizes(terrs.push(t)) == sum_sizes(terrs) + t.cells.len(),
{
    assert(terrs.push(t).drop_last() =~= terrs);
}

/// Replacing one territory shifts the total by the difference of sizes.
pub proof fn lemma_sum_sizes_update(terrs: Seq<TerrState>, t: int, tt: TerrState)
    requires
        0 <= t < terrs.len(),
    ensures
        sum_sizes(terrs.update(t, tt)) + terrs[t].cells.len() == sum_sizes(terrs)
            + tt.cells.len(),
    decreases terrs.len(),
{
    let updated = terrs.update(t, tt);
    if t == terrs.len() - 1 {
        assert(updated.drop_last() =~= terrs.drop_last());
    } else {
        assert(updated.drop_last() =~= terrs.drop_last().update(t, tt));
        lemma_sum_sizes_update(terrs.drop_last(), t, tt);
    }
}

/// When every territory has exactly one cell, the total is their number.
pub proof fn lemma_sum_sizes_ones(terrs: Seq<TerrState>)
    requires
        forall|t: int| 0 <= t < terrs.len() ==> (#[trigger] terrs[t]).cells.len() == 1,
    ensures
        sum_sizes(terrs) == terrs.len(),
    decreases terrs.len(),
{
    if terrs.len() > 0 {
        lemma_sum_sizes_ones(terrs.drop_last());
    }
}

/// The cell sets of two distinct territories never intersect: a cell of one
/// territory is owned by it, so it cannot be a member of another.
pub proof fn lemma_territories_disjoint(w: int, h: int, s: GrowState, t1: int, t2: int, c: Coord)
    requires
        inv(w, h, s),
        0 <= t1 < s.terrs.len(),
        0 <= t2 < s.terrs.len(),
        t1 != t2,
        s.terrs[t1].cells.contains(c),
    ensures
        !s.terrs[t2].cells.contains(c),
{
    assert(terr_ok(w, h, s, t1));
    assert(terr_ok(w, h, s, t2));
    let j1 = choose|j: int| 0 <= j < s.terrs[t1].cells.len() && s.terrs[t1].cells[j] == c;
    assert(s.owners[cell_index(w, c.col as int, c.row as int)] == Some(t1 as u32));
    if s.terrs[t2].cells.contains(c) {
        let j2 = choose|j: int| 0 <= j < s.terrs[t2].cells.len() && s.terrs[t2].cells[j] == c;
        assert(s.owners[cell_index(w, c.col as int, c.row as int)] == Some(t2 as u32));
    }
}

/// Every owned cell belongs to exactly one territory: the one its owner id
/// names, and no other.
pub proof fn lemma_owned_cell_unique_territory(w: int, h: int, s: GrowState, c: int, r: int)
    requires
        inv(w, h, s),
        in_bounds(w, h, c, r),
        s.owners[cell_index(w, c, r)] is Some,
    ensures
        ({
            let id = s.owners[cell_index(w, c, r)]->0;
            &&& id < s.terrs.len()
            &&& s.terrs[id as int].cells.contains(Coord { col: c as u32, row: r as u32 })
            &&& forall|t: int| 0 <= t < s.terrs.len() && t != id ==> !(#[trigger] s.terrs[t].cells)
                .contains(Coord { col: c as u32, row: r as u32 })
        }),
{
    let id = s.owners[cell_index(w, c, r)]->0;
    assert(owner_ok(w, h, s, c, r));
    assert forall|t: int| 0 <= t < s.terrs.len() && t != id implies !(#[trigger] s.terrs[t].cells)
        .contains(Coord { col: c as u32, row: r as u32 }) by {
        lemma_territories_disjoint(w, h, s, id as int, t, Coord { col: c as u32, row: r as u32 });
    }
}

} // verus!
