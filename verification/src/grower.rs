//! Territory growth: rounds of flood-fill in which every unfinished
//! territory, in ascending id order, claims the first unclaimed neighbor cell
//! of its members in row-major order, or becomes blocked when none is left.
//! A round claims at most one cell per territory, and growth converges once
//! every territory has reached the target size or is blocked.
//!
//! The whole policy is the spec function [`grow_spec`]; the executable
//! [`grow`] is proved to realize exactly that function, which also makes
//! growth deterministic in its inputs.

use vstd::prelude::*;

use crate::geometry::{adjacent, cell_index, in_bounds, Coord};
use crate::grid::HexGrid;
use crate::seeder::count_owned;
use crate::territory::{
    inv, lemma_sum_sizes_update, owner_ok, sizes_at_most, state_of, sum_sizes, terr_ok,
    terrs_view, GrowState, TerrState, Territory,
};

verus! {

/// The smaller of two integers.
pub open spec fn imin(a: int, b: int) -> int {
    if a <= b {
        a
    } else {
        b
    }
}

/// Whether some member cell in `mc` is hex-adjacent to `(c, r)`.
pub open spec fn has_neighbor_in(mc: Seq<Coord>, c: int, r: int) -> bool {
    exists|j: int|
        0 <= j < mc.len() && adjacent((#[trigger] mc[j]).col as int, mc[j].row as int, c, r)
}

/// Whether `(c, r)` is a growth candidate for a territory with member cells
/// `mc`: on the grid, unclaimed, and adjacent to some member.
pub open spec fn is_candidate(
    w: int,
    h: int,
    owners: Seq<Option<u32>>,
    mc: Seq<Coord>,
    c: int,
    r: int,
) -> bool {
    &&& in_bounds(w, h, c, r)
    &&& owners[cell_index(w, c, r)] is None
    &&& has_neighbor_in(mc, c, r)
}

/// The first candidate in row `row` at column `col` or to its right.
pub open spec fn first_in_row(
    w: int,
    h: int,
    owners: Seq<Option<u32>>,
    mc: Seq<Coord>,
    row: int,
    col: int,
) -> Option<Coord>
    decreases w - col,
{
    if col < 0 || col >= w {
        None
    } else if is_candidate(w, h, owners, mc, col, row) {
        Some(Coord { col: col as u32, row: row as u32 })
    } else {
        first_in_row(w, h, owners, mc, row, col + 1)
    }
}

/// The first candidate in row `row` or below, in row-major order.
pub open spec fn first_from_row(
    w: int,
    h: int,
    owners: Seq<Option<u32>>,
    mc: Seq<Coord>,
    row: int,
) -> Option<Coord>
    decreases h - row,
{
    if row < 0 || row >= h {
        None
    } else {
        match first_in_row(w, h, owners, mc, row, 0) {
            Some(c) => Some(c),
            None => first_from_row(w, h, owners, mc, row + 1),
        }
    }
}

/// The candidate a territory claims: the first unclaimed adjacent cell in
/// row-major order, if any.
pub open spec fn first_candidate(
    w: int,
    h: int,
    owners: Seq<Option<u32>>,
    mc: Seq<Coord>,
) -> Option<Coord> {
    first_from_row(w, h, owners, mc, 0)
}

/// A territory is finished growing: blocked, or at (or above) target size.
pub open spec fn terr_done(t: TerrState, target: int) -> bool {
    t.blocked || t.cells.len() >= target
}

/// Every territory in the list is finished growing.
pub open spec fn all_done_terrs(terrs: Seq<TerrState>, target: int) -> bool {
    forall|t: int| 0 <= t < terrs.len() ==> terr_done(#[trigger] terrs[t], target)
}

/// Every territory is finished growing.
pub open spec fn all_done(s: GrowState, target: int) -> bool {
    all_done_terrs(s.terrs, target)
}

/// One growth step for territory `t`: a finished territory is left alone; an
/// unfinished one claims its first candidate cell, or becomes blocked when it
/// has none.
pub open spec fn step_terr(w: int, h: int, target: int, s: GrowState, t: int) -> GrowState {
    let tt = s.terrs[t];
    if terr_done(tt, target) {
        s
    } else {
        match first_candidate(w, h, s.owners, tt.cells) {
            None => GrowState {
                owners: s.owners,
                terrs: s.terrs.update(
                    t,
                    TerrState { player: tt.player, cells: tt.cells, blocked: true },
                ),
            },
            Some(c) => GrowState {
                owners: s.owners.update(cell_index(w, c.col as int, c.row as int), Some(t as u32)),
                terrs: s.terrs.update(
                    t,
                    TerrState { player: tt.player, cells: tt.cells.push(c), blocked: tt.blocked },
                ),
            },
        }
    }
}

/// One round, restricted to territories `0 .. n`, in ascending id order.
pub open spec fn run_round_upto(w: int, h: int, target: int, s: GrowState, n: nat) -> GrowState
    decreases n,
{
    if n == 0 {
        s
    } else {
        step_terr(w, h, target, run_round_upto(w, h, target, s, (n - 1) as nat), n - 1)
    }
}

/// One full growth round over every territory.
pub open spec fn run_round(w: int, h: int, target: int, s: GrowState) -> GrowState {
    run_round_upto(w, h, target, s, s.terrs.len())
}

/// `rounds` growth rounds in sequence.
pub open spec fn run_rounds(w: int, h: int, target: int, s: GrowState, rounds: nat) -> GrowState
    decreases rounds,
{
    if rounds == 0 {
        s
    } else {
        run_rounds(w, h, target, run_round(w, h, target, s), (rounds - 1) as nat)
    }
}

/// The final state of growth: `target` rounds always suffice for
/// convergence, so the result of growth is this state.
pub open spec fn grow_spec(w: int, h: int, target: int, s: GrowState) -> GrowState {
    run_rounds(w, h, target, s, target as nat)
}

/// A candidate returned by the row-major scan of one row is a candidate, in
/// that row.
pub proof fn lemma_first_in_row_some(
    w: int,
    h: int,
    owners: Seq<Option<u32>>,
    mc: Seq<Coord>,
    row: int,
    col: int,
    c: Coord,
)
    requires
        w <= u32::MAX,
        0 <= row <= u32::MAX,
        first_in_row(w, h, owners, mc, row, col) == Some(c),
    ensures
        is_candidate(w, h, owners, mc, c.col as int, c.row as int),
        c.row == row,
        c.col >= col,
    decreases w - col,
{
    if col < 0 || col >= w {
    } else if is_candidate(w, h, owners, mc, col, row) {
    } else {
        lemma_first_in_row_some(w, h, owners, mc, row, col + 1, c);
    }
}

/// A candidate returned by the full row-major scan is a candidate.
pub proof fn lemma_first_from_row_some(
    w: int,
    h: int,
    owners: Seq<Option<u32>>,
    mc: Seq<Coord>,
    row: int,
    c: Coord,
)
    requires
        w <= u32::MAX,
        h <= u32::MAX,
        0 <= row,
        first_from_row(w, h, owners, mc, row) == Some(c),
    ensures
        is_candidate(w, h, owners, mc, c.col as int, c.row as int),
        c.row >= row,
    decreases h - row,
{
    if row < 0 || row >= h {
    } else {
        match first_in_row(w, h, owners, mc, row, 0) {
            Some(c0) => {
                lemma_first_in_row_some(w, h, owners, mc, row, 0, c0);
            },
            None => {
                lemma_first_from_row_some(w, h, owners, mc, row + 1, c);
            },
        }
    }
}

/// One growth step preserves the map invariant and the size bound, touches
/// only territory `t`, and either finishes, blocks, or grows it by one cell.
pub proof fn lemma_step_props(w: int, h: int, target: int, s: GrowState, t: int)
    requires
        inv(w, h, s),
        sizes_at_most(s, target),
        target >= 1,
        0 <= t < s.terrs.len(),
    ensures
        ({
            let s2 = step_terr(w, h, target, s, t);
            &&& inv(w, h, s2)
            &&& sizes_at_most(s2, target)
            &&& s2.terrs.len() == s.terrs.len()
            &&& s2.owners.len() == s.owners.len()
            &&& forall|u: int| 0 <= u < s.terrs.len() && u != t ==> s2.terrs[u] == s.terrs[u]
            &&& s2.terrs[t].player == s.terrs[t].player
            &&& s2.terrs[t].cells.len() >= s.terrs[t].cells.len()
            &&& (s.terrs[t].blocked ==> s2.terrs[t] == s.terrs[t])
            &&& (terr_done(s.terrs[t], target) ==> s2 == s)
            &&& (!terr_done(s.terrs[t], target) ==> s2.terrs[t].blocked || s2.terrs[t].cells.len()
                == s.terrs[t].cells.len() + 1)
        }),
{
    let tt = s.terrs[t];
    let s2 = step_terr(w, h, target, s, t);
    if terr_done(tt, target) {
    } else {
        match first_candidate(w, h, s.owners, tt.cells) {
            None => {
                let tt2 = TerrState { player: tt.player, cells: tt.cells, blocked: true };
                let terrs2 = s.terrs.update(t, tt2);
                assert forall|u: int| 0 <= u < terrs2.len() implies #[trigger] terr_ok(
                    w,
                    h,
                    s2,
                    u,
                ) by {
                    assert(terr_ok(w, h, s, u));
                    if u != t {
                        assert(terrs2[u] == s.terrs[u]);
                    }
                }
                assert forall|c: int, r: int|
                    #![trigger s2.owners[cell_index(w, c, r)]]
                    in_bounds(w, h, c, r) implies owner_ok(w, h, s2, c, r) by {
                    crate::geometry::lemma_cell_index_bounds(w, h, c, r);
                    assert(owner_ok(w, h, s, c, r));
                    let ci = cell_index(w, c, r);
                    if s.owners[ci] is Some {
                        let oid = s.owners[ci]->0;
                        if oid as int == t {
                            assert(terrs2[t].cells == tt.cells);
                        } else {
                            assert(terrs2[oid as int] == s.terrs[oid as int]);
                        }
                    }
                }
            },
            Some(c) => {
                lemma_first_from_row_some(w, h, s.owners, tt.cells, 0, c);
                let dc = c.col as int;
                let dr = c.row as int;
                let ci = cell_index(w, dc, dr);
                crate::geometry::lemma_cell_index_bounds(w, h, dc, dr);
                let owners2 = s.owners.update(ci, Some(t as u32));
                let tt2 = TerrState { player: tt.player, cells: tt.cells.push(c), blocked: tt.blocked };
                let terrs2 = s.terrs.update(t, tt2);
                assert(terr_ok(w, h, s, t));
                // The claimed cell is not already a member of any territory:
                // it is unowned, while members are owned.
                assert forall|u: int| 0 <= u < terrs2.len() implies #[trigger] terr_ok(
                    w,
                    h,
                    s2,
                    u,
                ) by {
                    assert(terr_ok(w, h, s, u));
                    if u != t {
                        assert(terrs2[u] == s.terrs[u]);
                        let mc = s.terrs[u].cells;
                        assert forall|j: int| 0 <= j < mc.len() implies in_bounds(
                            w,
                            h,
                            #[trigger] mc[j].col as int,
                            mc[j].row as int,
                        ) && owners2[cell_index(w, mc[j].col as int, mc[j].row as int)] == Some(
                            u as u32,
                        ) by {
                            let mj = cell_index(w, mc[j].col as int, mc[j].row as int);
                            crate::geometry::lemma_cell_index_bounds(
                                w,
                                h,
                                mc[j].col as int,
                                mc[j].row as int,
                            );
                            assert(s.owners[mj] == Some(u as u32));
                            assert(mj != ci);
                        }
                    } else {
                        let mc2 = tt2.cells;
                        assert(mc2.len() == tt.cells.len() + 1);
                        assert forall|j: int| 0 <= j < mc2.len() implies in_bounds(
                            w,
                            h,
                            #[trigger] mc2[j].col as int,
                            mc2[j].row as int,
                        ) && owners2[cell_index(w, mc2[j].col as int, mc2[j].row as int)] == Some(
                            t as u32,
                        ) by {
                            if j < tt.cells.len() {
                                assert(mc2[j] == tt.cells[j]);
                                let mj = cell_index(w, mc2[j].col as int, mc2[j].row as int);
                                crate::geometry::lemma_cell_index_bounds(
                                    w,
                                    h,
                                    mc2[j].col as int,
                                    mc2[j].row as int,
                                );
                                assert(s.owners[mj] == Some(t as u32));
                                assert(mj != ci);
                            } else {
                                assert(mc2[j] == c);
                                assert(owners2[ci] == Some(t as u32));
                            }
                        }
                        assert forall|j: int, k: int| 0 <= j < k < mc2.len() implies mc2[j]
                            != mc2[k] by {
                            if k < tt.cells.len() {
                            } else {
                                // The new member was unowned; old members are owned.
                                assert(mc2[k] == c);
                                assert(mc2[j] == tt.cells[j]);
                                if mc2[j] == c {
                                    assert(s.owners[cell_index(
                                        w,
                                        tt.cells[j].col as int,
                                        tt.cells[j].row as int,
                                    )] == Some(t as u32));
                                }
                            }
                        }
                    }
                }
                assert forall|cc: int, rr: int|
                    #![trigger s2.owners[cell_index(w, cc, rr)]]
                    in_bounds(w, h, cc, rr) implies owner_ok(w, h, s2, cc, rr) by {
                    let cci = cell_index(w, cc, rr);
                    crate::geometry::lemma_cell_index_bounds(w, h, cc, rr);
                    assert(owner_ok(w, h, s, cc, rr));
                    if cci == ci {
                        crate::geometry::lemma_cell_index_injective(w, h, cc, rr, dc, dr);
                        assert(owners2[cci] == Some(t as u32));
                        assert(tt2.cells[tt.cells.len() as int] == c);
                        assert(tt2.cells.contains(Coord { col: cc as u32, row: rr as u32 }));
                    } else {
                        assert(owners2[cci] == s.owners[cci]);
                        if s.owners[cci] is Some {
                            let oid = s.owners[cci]->0;
                            if oid as int == t {
                                let pos = choose|j: int|
                                    0 <= j < tt.cells.len() && tt.cells[j] == Coord {
                                        col: cc as u32,
                                        row: rr as u32,
                                    };
                                assert(tt2.cells[pos] == Coord { col: cc as u32, row: rr as u32 });
                                assert(tt2.cells.contains(
                                    Coord { col: cc as u32, row: rr as u32 },
                                ));
                            } else {
                                assert(terrs2[oid as int] == s.terrs[oid as int]);
                            }
                        }
                    }
                }
                assert(inv(w, h, s2));
                assert forall|u: int| 0 <= u < s2.terrs.len() implies (#[trigger] s2.terrs[u]).cells.len()
                    <= target by {
                    if u != t {
                        assert(s2.terrs[u] == s.terrs[u]);
                    }
                }
            },
        }
    }
}

/// A partial round preserves the map invariant and the size bound, leaves
/// territories at or past the cursor untouched, never shrinks or unblocks a
/// territory, and makes every processed, unfinished territory grow or block.
pub proof fn lemma_round_upto_props(w: int, h: int, target: int, s: GrowState, n: nat)
    requires
        inv(w, h, s),
        sizes_at_most(s, target),
        target >= 1,
        n <= s.terrs.len(),
    ensures
        ({
            let s2 = run_round_upto(w, h, target, s, n);
            &&& inv(w, h, s2)
            &&& sizes_at_most(s2, target)
            &&& s2.terrs.len() == s.terrs.len()
            &&& s2.owners.len() == s.owners.len()
            &&& forall|u: int| n <= u < s.terrs.len() ==> s2.terrs[u] == s.terrs[u]
            &&& forall|u: int| 0 <= u < s.terrs.len() ==> (#[trigger] s2.terrs[u]).cells.len()
                >= s.terrs[u].cells.len() && s2.terrs[u].player == s.terrs[u].player
            &&& forall|u: int| 0 <= u < s.terrs.len() && s.terrs[u].blocked ==> s2.terrs[u]
                == s.terrs[u]
            &&& forall|u: int| 0 <= u < n && !terr_done(s.terrs[u], target) ==> (
            #[trigger] s2.terrs[u]).blocked || s2.terrs[u].cells.len() >= s.terrs[u].cells.len()
                + 1
        }),
    decreases n,
{
    if n > 0 {
        lemma_round_upto_props(w, h, target, s, (n - 1) as nat);
        let s1 = run_round_upto(w, h, target, s, (n - 1) as nat);
        lemma_step_props(w, h, target, s1, n - 1);
        let s2 = run_round_upto(w, h, target, s, n);
        assert(s1.terrs[n - 1] == s.terrs[n - 1]);
        assert forall|u: int| 0 <= u < s.terrs.len() && s.terrs[u].blocked implies s2.terrs[u]
            == s.terrs[u] by {
            if u != n - 1 {
                assert(s2.terrs[u] == s1.terrs[u]);
            }
        }
    }
}

/// A full round preserves the map invariant and the size bound, and every
/// territory that was unfinished when the round began grows or blocks.
pub proof fn lemma_round_props(w: int, h: int, target: int, s: GrowState)
    requires
        inv(w, h, s),
        sizes_at_most(s, target),
        target >= 1,
    ensures
        ({
            let s2 = run_round(w, h, target, s);
            &&& inv(w, h, s2)
            &&& sizes_at_most(s2, target)
            &&& s2.terrs.len() == s.terrs.len()
            &&& s2.owners.len() == s.owners.len()
            &&& forall|u: int| 0 <= u < s.terrs.len() ==> (#[trigger] s2.terrs[u]).cells.len()
                >= s.terrs[u].cells.len() && s2.terrs[u].player == s.terrs[u].player
            &&& forall|u: int| 0 <= u < s.terrs.len() && s.terrs[u].blocked ==> s2.terrs[u]
                == s.terrs[u]
            &&& forall|u: int| 0 <= u < s.terrs.len() && !terr_done(s.terrs[u], target) ==> (
            #[trigger] s2.terrs[u]).blocked || s2.terrs[u].cells.len() >= s.terrs[u].cells.len()
                + 1
        }),
{
    lemma_round_upto_props(w, h, target, s, s.terrs.len());
}

/// After `r` rounds, every territory is blocked or has grown to at least
/// `min(target, 1 + r)` cells: each round a territory is neither blocked nor
/// at target, it gains a cell.
pub open spec fn round_progress(s: GrowState, target: int, r: int) -> bool {
    forall|t: int| 0 <= t < s.terrs.len() ==> (#[trigger] s.terrs[t]).blocked
        || s.terrs[t].cells.len() >= imin(target, 1 + r)
}

/// One round advances the progress measure by one.
pub proof fn lemma_round_progress(w: int, h: int, target: int, s: GrowState, r: int)
    requires
        inv(w, h, s),
        sizes_at_most(s, target),
        target >= 1,
        r >= 0,
        round_progress(s, target, r),
    ensures
        round_progress(run_round(w, h, target, s), target, r + 1),
{
    lemma_round_props(w, h, target, s);
    let s2 = run_round(w, h, target, s);
    assert forall|t: int| 0 <= t < s2.terrs.len() implies (#[trigger] s2.terrs[t]).blocked
        || s2.terrs[t].cells.len() >= imin(target, 2 + r) by {
        assert(s.terrs[t].blocked || s.terrs[t].cells.len() >= imin(target, 1 + r));
        if !s.terrs[t].blocked {
            if terr_done(s.terrs[t], target) {
                assert(s2.terrs[t].cells.len() >= s.terrs[t].cells.len());
            } else {
                assert(s.terrs[t].cells.len() >= 1 + r || s.terrs[t].cells.len() >= target);
            }
        }
    }
}

/// While some territory is still unfinished, fewer than `target` rounds have
/// run: the round counter can never pass the target size.
pub proof fn lemma_progress_bounds_rounds(s: GrowState, target: int, r: int)
    requires
        target >= 1,
        r >= 0,
        round_progress(s, target, r),
        !all_done(s, target),
    ensures
        r < target,
{
    let t = choose|t: int| 0 <= t < s.terrs.len() && !terr_done(#[trigger] s.terrs[t], target);
    assert(s.terrs[t].cells.len() >= imin(target, 1 + r));
}

/// Once every territory is finished, a round changes nothing.
pub proof fn lemma_round_upto_stutter(w: int, h: int, target: int, s: GrowState, n: nat)
    requires
        all_done(s, target),
        n <= s.terrs.len(),
    ensures
        run_round_upto(w, h, target, s, n) == s,
    decreases n,
{
    if n > 0 {
        lemma_round_upto_stutter(w, h, target, s, (n - 1) as nat);
    }
}

/// Once every territory is finished, any number of further rounds changes
/// nothing.
pub proof fn lemma_rounds_stutter(w: int, h: int, target: int, s: GrowState, rounds: nat)
    requires
        all_done(s, target),
    ensures
        run_rounds(w, h, target, s, rounds) == s,
    decreases rounds,
{
    if rounds > 0 {
        lemma_round_upto_stutter(w, h, target, s, s.terrs.len());
        lemma_rounds_stutter(w, h, target, s, (rounds - 1) as nat);
    }
}

/// Rounds compose: running `a + b` rounds is running `a`, then `b`.
pub proof fn lemma_run_rounds_add(w: int, h: int, target: int, s: GrowState, a: nat, b: nat)
    ensures
        run_rounds(w, h, target, s, a + b) == run_rounds(
            w,
            h,
            target,
            run_rounds(w, h, target, s, a),
            b,
        ),
    decreases a,
{
    if a > 0 {
        lemma_run_rounds_add(w, h, target, run_round(w, h, target, s), (a - 1) as nat, b);
        assert(a + b - 1 == (a - 1) as nat + b);
    }
}

/// Growth is deterministic: its outcome is a function of the grid
/// dimensions, the seeded state, and the target size alone, so repeated runs
/// from equal states produce identical final ownership.
pub proof fn lemma_grow_deterministic(
    w: int,
    h: int,
    target: int,
    s1: GrowState,
    s2: GrowState,
)
    requires
        s1 == s2,
    ensures
        grow_spec(w, h, target, s1) == grow_spec(w, h, target, s2),
{
}

/// Running `k` rounds advances the progress measure by `k`.
pub proof fn lemma_rounds_progress(
    w: int,
    h: int,
    target: int,
    s: GrowState,
    k: nat,
    r0: int,
)
    requires
        inv(w, h, s),
        sizes_at_most(s, target),
        target >= 1,
        r0 >= 0,
        round_progress(s, target, r0),
    ensures
        ({
            let s2 = run_rounds(w, h, target, s, k);
            &&& inv(w, h, s2)
            &&& sizes_at_most(s2, target)
            &&& round_progress(s2, target, r0 + k)
            &&& s2.terrs.len() == s.terrs.len()
            &&& forall|u: int| 0 <= u < s.terrs.len() ==> (#[trigger] s2.terrs[u]).player
                == s.terrs[u].player
            &&& forall|u: int| 0 <= u < s.terrs.len() && s.terrs[u].blocked ==> s2.terrs[u]
                == s.terrs[u]
        }),
    decreases k,
{
    if k > 0 {
        lemma_round_props(w, h, target, s);
        lemma_round_progress(w, h, target, s, r0);
        lemma_rounds_progress(w, h, target, run_round(w, h, target, s), (k - 1) as nat, r0 + 1);
    }
}

/// Once a territory is blocked, growth never changes it again: its size is
/// permanently fixed.
pub proof fn lemma_blocked_stays(w: int, h: int, target: int, s: GrowState, k: nat, u: int)
    requires
        inv(w, h, s),
        sizes_at_most(s, target),
        target >= 1,
        0 <= u < s.terrs.len(),
        s.terrs[u].blocked,
    ensures
        run_rounds(w, h, target, s, k).terrs[u] == s.terrs[u],
{
    assert forall|t: int| 0 <= t < s.terrs.len() implies (#[trigger] s.terrs[t]).blocked
        || s.terrs[t].cells.len() >= imin(target, 1) by {
        assert(terr_ok(w, h, s, t));
    }
    lemma_rounds_progress(w, h, target, s, k, 0);
}

/// After growth, a territory's size never exceeds the target, and it is
/// exactly at the target unless the territory is blocked.
pub proof fn lemma_done_size_exact(s: GrowState, target: int, t: int)
    requires
        all_done(s, target),
        sizes_at_most(s, target),
        0 <= t < s.terrs.len(),
    ensures
        s.terrs[t].cells.len() <= target,
        s.terrs[t].cells.len() == target || s.terrs[t].blocked,
{
    assert(terr_done(s.terrs[t], target));
    assert(s.terrs[t].cells.len() <= target);
}

/// Growth always converges: after `target` rounds every territory is at the
/// target size or blocked, and the map invariant and size bound still hold.
pub proof fn lemma_grow_spec_converges(w: int, h: int, target: int, s: GrowState)
    requires
        inv(w, h, s),
        sizes_at_most(s, target),
        target >= 1,
    ensures
        ({
            let s2 = grow_spec(w, h, target, s);
            &&& all_done(s2, target)
            &&& inv(w, h, s2)
            &&& sizes_at_most(s2, target)
            &&& s2.terrs.len() == s.terrs.len()
        }),
{
    assert forall|t: int| 0 <= t < s.terrs.len() implies (#[trigger] s.terrs[t]).blocked
        || s.terrs[t].cells.len() >= imin(target, 1) by {
        assert(terr_ok(w, h, s, t));
    }
    lemma_rounds_progress(w, h, target, s, target as nat, 0);
    let s2 = grow_spec(w, h, target, s);
    assert forall|t: int| 0 <= t < s2.terrs.len() implies terr_done(
        #[trigger] s2.terrs[t],
        target,
    ) by {
        assert(s2.terrs[t].blocked || s2.terrs[t].cells.len() >= imin(target, 1 + target));
    }
}

/// One growth step moves the total of territory sizes and the count of owned
/// cells in lockstep: a claim raises both by one, blocking changes neither.
pub proof fn lemma_step_count(w: int, h: int, target: int, s: GrowState, t: int)
    requires
        inv(w, h, s),
        sizes_at_most(s, target),
        target >= 1,
        0 <= t < s.terrs.len(),
    ensures
        ({
            let s2 = step_terr(w, h, target, s, t);
            sum_sizes(s2.terrs) + count_owned(s.owners) == sum_sizes(s.terrs) + count_owned(
                s2.owners,
            )
        }),
{
    let tt = s.terrs[t];
    if terr_done(tt, target) {
    } else {
        match first_candidate(w, h, s.owners, tt.cells) {
            None => {
                lemma_sum_sizes_update(
                    s.terrs,
                    t,
                    TerrState { player: tt.player, cells: tt.cells, blocked: true },
                );
            },
            Some(c) => {
                lemma_first_from_row_some(w, h, s.owners, tt.cells, 0, c);
                crate::geometry::lemma_cell_index_bounds(w, h, c.col as int, c.row as int);
                crate::seeder::lemma_count_owned_update(
                    s.owners,
                    cell_index(w, c.col as int, c.row as int),
                    t as u32,
                );
                lemma_sum_sizes_update(
                    s.terrs,
                    t,
                    TerrState { player: tt.player, cells: tt.cells.push(c), blocked: tt.blocked },
                );
            },
        }
    }
}

/// A partial round moves the size total and the owned count in lockstep.
pub proof fn lemma_round_upto_count(w: int, h: int, target: int, s: GrowState, n: nat)
    requires
        inv(w, h, s),
        sizes_at_most(s, target),
        target >= 1,
        n <= s.terrs.len(),
    ensures
        ({
            let s2 = run_round_upto(w, h, target, s, n);
            sum_sizes(s2.terrs) + count_owned(s.owners) == sum_sizes(s.terrs) + count_owned(
                s2.owners,
            )
        }),
    decreases n,
{
    if n > 0 {
        lemma_round_upto_count(w, h, target, s, (n - 1) as nat);
        lemma_round_upto_props(w, h, target, s, (n - 1) as nat);
        lemma_step_count(w, h, target, run_round_upto(w, h, target, s, (n - 1) as nat), n - 1);
    }
}

/// Any number of rounds moves the size total and the owned count in
/// lockstep.
pub proof fn lemma_rounds_count(w: int, h: int, target: int, s: GrowState, k: nat)
    requires
        inv(w, h, s),
        sizes_at_most(s, target),
        target >= 1,
    ensures
        ({
            let s2 = run_rounds(w, h, target, s, k);
            sum_sizes(s2.terrs) + count_owned(s.owners) == sum_sizes(s.terrs) + count_owned(
                s2.owners,
            )
        }),
    decreases k,
{
    if k > 0 {
        lemma_round_props(w, h, target, s);
        lemma_round_upto_count(w, h, target, s, s.terrs.len());
        lemma_rounds_count(w, h, target, run_round(w, h, target, s), (k - 1) as nat);
    }
}

/// Grown territories still account exactly for the owned cells, so the sum
/// of all territory sizes never exceeds the number of grid cells.
pub proof fn lemma_grow_spec_claims_bounded(w: int, h: int, target: int, s: GrowState)
    requires
        inv(w, h, s),
        sizes_at_most(s, target),
        target >= 1,
        sum_sizes(s.terrs) == count_owned(s.owners),
    ensures
        ({
            let s2 = grow_spec(w, h, target, s);
            &&& sum_sizes(s2.terrs) == count_owned(s2.owners)
            &&& sum_sizes(s2.terrs) <= w * h
        }),
{
    lemma_rounds_count(w, h, target, s, target as nat);
    lemma_grow_spec_converges(w, h, target, s);
    crate::seeder::lemma_count_owned_le(grow_spec(w, h, target, s).owners);
}

/// Whether some member of `terr` is hex-adjacent to `(col, row)`.
fn has_adjacent_member(terr: &Territory, col: u32, row: u32) -> (r: bool)
    ensures
        r == has_neighbor_in(terr@.cells, col as int, row as int),
{
    let mut j: usize = 0;
    while j < terr.cells.len()
        invariant
            j <= terr@.cells.len(),
            forall|k: int| 0 <= k < j ==> !adjacent(
                (#[trigger] terr@.cells[k]).col as int,
                terr@.cells[k].row as int,
                col as int,
                row as int,
            ),
        decreases terr@.cells.len() - j,
    {
        let m = terr.cells[j];
        if crate::geometry::is_adjacent(m, Coord { col, row }) {
            proof {
                assert(terr@.cells[j as int] == m);
            }
            return true;
        }
        j += 1;
    }
    false
}

/// The first growth candidate of `terr` in row-major order, if any: the scan
/// realizes exactly [`first_candidate`] on the current ownership.
fn find_candidate(grid: &HexGrid, terr: &Territory) -> (r: Option<Coord>)
    requires
        grid.wf(),
    ensures
        r == first_candidate(grid.width as int, grid.height as int, grid.cells@, terr@.cells),
{
    let ghost w = grid.width as int;
    let ghost h = grid.height as int;
    let ghost owners = grid.cells@;
    let ghost mc = terr@.cells;
    let mut row: u32 = 0;
    while row < grid.height
        invariant
            grid.wf(),
            w == grid.width as int,
            h == grid.height as int,
            owners == grid.cells@,
            mc == terr@.cells,
            row <= grid.height,
            first_from_row(w, h, owners, mc, 0) == first_from_row(w, h, owners, mc, row as int),
        decreases h - row,
    {
        let mut col: u32 = 0;
        while col < grid.width
            invariant
                grid.wf(),
                w == grid.width as int,
                h == grid.height as int,
                owners == grid.cells@,
                mc == terr@.cells,
                row < grid.height,
                col <= grid.width,
                first_from_row(w, h, owners, mc, 0) == first_from_row(
                    w,
                    h,
                    owners,
                    mc,
                    row as int,
                ),
                first_in_row(w, h, owners, mc, row as int, 0) == first_in_row(
                    w,
                    h,
                    owners,
                    mc,
                    row as int,
                    col as int,
                ),
            decreases w - col,
        {
            proof {
                crate::geometry::lemma_cell_index_bounds(w, h, col as int, row as int);
            }
            let n: usize = grid.cells.len();
            let i: usize = (row as usize) * (grid.width as usize) + (col as usize);
            if grid.cells[i].is_none() {
                if has_adjacent_member(terr, col, row) {
                    proof {
                        assert(is_candidate(w, h, owners, mc, col as int, row as int));
                    }
                    return Some(Coord { col, row });
                }
            }
            proof {
                assert(!is_candidate(w, h, owners, mc, col as int, row as int));
            }
            col = col + 1;
        }
        proof {
            assert(first_in_row(w, h, owners, mc, row as int, w) is None);
            assert(first_from_row(w, h, owners, mc, row as int) == first_from_row(
                w,
                h,
                owners,
                mc,
                row as int + 1,
            ));
        }
        row = row + 1;
    }
    proof {
        assert(first_from_row(w, h, owners, mc, h) is None);
    }
    None
}

/// Whether every territory has reached the target size or is blocked.
fn check_all_done(territories: &Vec<Territory>, target_size: u32) -> (r: bool)
    ensures
        r == all_done_terrs(terrs_view(territories@), target_size as int),
{
    let mut i: usize = 0;
    while i < territories.len()
        invariant
            i <= territories@.len(),
            forall|u: int| 0 <= u < i ==> terr_done(
                #[trigger] terrs_view(territories@)[u],
                target_size as int,
            ),
        decreases territories@.len() - i,
    {
        let tr = &territories[i];
        if !tr.blocked && tr.cells.len() < target_size as usize {
            proof {
                assert(!terr_done(terrs_view(territories@)[i as int], target_size as int));
            }
            return false;
        }
        proof {
            assert(terr_done(terrs_view(territories@)[i as int], target_size as int));
        }
        i = i + 1;
    }
    true
}

/// Grows every territory over the grid until each has reached `target_size`
/// cells or is blocked, running rounds in ascending territory id order and
/// claiming the row-major first unclaimed neighbor for each: the loop
/// realizes exactly [`grow_spec`]. Returns the number of rounds run, which
/// never exceeds `target_size`.
pub fn grow(grid: &mut HexGrid, territories: &mut Vec<Territory>, target_size: u32) -> (rounds:
    u32)
    requires
        old(grid).wf(),
        target_size >= 1,
        inv(
            old(grid).width as int,
            old(grid).height as int,
            state_of(*old(grid), old(territories)@),
        ),
        sizes_at_most(state_of(*old(grid), old(territories)@), target_size as int),
    ensures
        final(grid).wf(),
        final(grid).width == old(grid).width,
        final(grid).height == old(grid).height,
        final(territories)@.len() == old(territories)@.len(),
        rounds <= target_size,
        ({
            let w = old(grid).width as int;
            let h = old(grid).height as int;
            let tgt = target_size as int;
            let s0 = state_of(*old(grid), old(territories)@);
            let s1 = state_of(*final(grid), final(territories)@);
            &&& s1 == grow_spec(w, h, tgt, s0)
            &&& inv(w, h, s1)
            &&& sizes_at_most(s1, tgt)
            &&& all_done(s1, tgt)
        }),
{
    let ghost w = old(grid).width as int;
    let ghost h = old(grid).height as int;
    let ghost tgt = target_size as int;
    let ghost s0 = state_of(*old(grid), old(territories)@);
    let mut rounds: u32 = 0;
    let mut done = check_all_done(territories, target_size);
    proof {
        assert forall|t: int| 0 <= t < s0.terrs.len() implies (#[trigger] s0.terrs[t]).blocked
            || s0.terrs[t].cells.len() >= imin(tgt, 1) by {
            assert(terr_ok(w, h, s0, t));
        }
    }
    while !done
        invariant
            grid.wf(),
            w == grid.width as int,
            h == grid.height as int,
            tgt == target_size as int,
            target_size >= 1,
            inv(w, h, state_of(*grid, territories@)),
            sizes_at_most(state_of(*grid, territories@), tgt),
            round_progress(state_of(*grid, territories@), tgt, rounds as int),
            state_of(*grid, territories@) == run_rounds(w, h, tgt, s0, rounds as nat),
            territories@.len() == s0.terrs.len(),
            done == all_done(state_of(*grid, territories@), tgt),
            rounds <= target_size,
            !done ==> rounds < target_size,
        decreases target_size - rounds,
    {
        let ghost rs = state_of(*grid, territories@);
        let mut t: usize = 0;
        while t < territories.len()
            invariant
                grid.wf(),
                w == grid.width as int,
                h == grid.height as int,
                tgt == target_size as int,
                target_size >= 1,
                inv(w, h, rs),
                sizes_at_most(rs, tgt),
                t <= territories@.len(),
                territories@.len() == rs.terrs.len(),
                state_of(*grid, territories@) == run_round_upto(w, h, tgt, rs, t as nat),
            decreases territories@.len() - t,
        {
            proof {
                lemma_round_upto_props(w, h, tgt, rs, t as nat);
            }
            let ghost cur = state_of(*grid, territories@);
            let mut tt = territories.remove(t);
            proof {
                assert(tt@ == cur.terrs[t as int]);
                assert(cur.terrs[t as int] == rs.terrs[t as int]);
            }
            let working = !tt.blocked && tt.cells.len() < target_size as usize;
            if working {
                match find_candidate(grid, &tt) {
                    Some(c) => {
                        proof {
                            lemma_first_from_row_some(w, h, cur.owners, tt@.cells, 0, c);
                        }
                        grid.claim(c.col, c.row, t as u32);
                        tt.cells.push(c);
                    },
                    None => {
                        tt.blocked = true;
                    },
                }
            }
            let ghost ttv = tt@;
            let ghost pre = territories@;
            territories.insert(t, tt);
            proof {
                assert(territories@ == pre.insert(t as int, territories@[t as int]));
                assert(terrs_view(territories@) =~= cur.terrs.update(t as int, ttv));
                let s2 = step_terr(w, h, tgt, cur, t as int);
                if working {
                    assert(!terr_done(cur.terrs[t as int], tgt));
                } else {
                    assert(terr_done(cur.terrs[t as int], tgt));
                    assert(terrs_view(territories@) =~= cur.terrs);
                }
                assert(state_of(*grid, territories@) == s2);
                assert(state_of(*grid, territories@) == run_round_upto(
                    w,
                    h,
                    tgt,
                    rs,
                    (t + 1) as nat,
                ));
            }
            t = t + 1;
        }
        proof {
            assert(state_of(*grid, territories@) == run_round(w, h, tgt, rs));
            lemma_round_props(w, h, tgt, rs);
            lemma_round_progress(w, h, tgt, rs, rounds as int);
            lemma_run_rounds_add(w, h, tgt, s0, rounds as nat, 1);
        }
        rounds = rounds + 1;
        done = check_all_done(territories, target_size);
        proof {
            assert(run_rounds(w, h, tgt, rs, 1nat) == run_rounds(
                w,
                h,
                tgt,
                run_round(w, h, tgt, rs),
                0nat,
            ));
            assert(run_rounds(w, h, tgt, s0, rounds as nat) == run_rounds(w, h, tgt, rs, 1nat));
            if !done {
                lemma_progress_bounds_rounds(
                    state_of(*grid, territories@),
                    tgt,
                    rounds as int,
                );
            }
        }
    }
    proof {
        lemma_run_rounds_add(w, h, tgt, s0, rounds as nat, (target_size - rounds) as nat);
        lemma_rounds_stutter(
            w,
            h,
            tgt,
            state_of(*grid, territories@),
            (target_size - rounds) as nat,
        );
    }
    rounds
}

} // verus!
