//! Territory seeding: territories are placed one by one on cells drawn from a
//! random source, rejecting draws that hit an already-owned cell, within a
//! bounded budget of draws. Players are assigned round-robin by territory id.
//!
//! The whole placement policy is captured by the spec function [`seed_spec`],
//! which consumes the draw sequence deterministically; the executable seeders
//! are proved to realize exactly that function.

use vstd::prelude::*;

use crate::geometry::{cell_index, in_bounds, Coord};
use crate::grid::HexGrid;
use crate::rng::MapRng;
use crate::territory::{inv, owner_ok, terr_ok, terrs_view, GrowState, TerrState, Territory};
use crate::MapError;

verus! {

/// How many draws the seeding budget allows per requested territory.
pub const SEED_ATTEMPTS: u32 = 32;

/// How many cells of the grid are owned.
pub open spec fn count_owned(owners: Seq<Option<u32>>) -> nat
    decreases owners.len(),
{
    if owners.len() == 0 {
        0
    } else {
        count_owned(owners.drop_last()) + if owners.last() is Some {
            1nat
        } else {
            0nat
        }
    }
}

/// No more cells are owned than exist.
pub proof fn lemma_count_owned_le(owners: Seq<Option<u32>>)
    ensures
        count_owned(owners) <= owners.len(),
    decreases owners.len(),
{
    if owners.len() > 0 {
        lemma_count_owned_le(owners.drop_last());
    }
}

/// A grid with no owners has an owned count of zero.
pub proof fn lemma_count_owned_none(owners: Seq<Option<u32>>)
    requires
        forall|i: int| 0 <= i < owners.len() ==> owners[i] is None,
    ensures
        count_owned(owners) == 0,
    decreases owners.len(),
{
    if owners.len() > 0 {
        lemma_count_owned_none(owners.drop_last());
    }
}

/// Claiming an unowned cell raises the owned count by one.
pub proof fn lemma_count_owned_update(owners: Seq<Option<u32>>, i: int, v: u32)
    requires
        0 <= i < owners.len(),
        owners[i] is None,
    ensures
        count_owned(owners.update(i, Some(v))) == count_owned(owners) + 1,
    decreases owners.len(),
{
    let updated = owners.update(i, Some(v));
    if i == owners.len() - 1 {
        assert(updated.drop_last() =~= owners.drop_last());
    } else {
        assert(updated.drop_last() =~= owners.drop_last().update(i, Some(v)));
        lemma_count_owned_update(owners.drop_last(), i, v);
    }
}

/// The outcome of running the seeding policy: the final owners and
/// territories, and whether the draw budget ran out first.
pub ghost struct SeedOutcome {
    pub owners: Seq<Option<u32>>,
    pub terrs: Seq<TerrState>,
    pub exhausted: bool,
}

/// Whether the next draw `d` claims a cell: it must land on the grid, on an
/// unowned cell, and a fresh territory id must be representable.
pub open spec fn draw_claims(
    w: int,
    h: int,
    owners: Seq<Option<u32>>,
    terrs: Seq<TerrState>,
    d: Coord,
) -> bool {
    &&& in_bounds(w, h, d.col as int, d.row as int)
    &&& owners[cell_index(w, d.col as int, d.row as int)] is None
    &&& terrs.len() < u32::MAX
}

/// The seeding policy itself: consume draws in order until `remaining`
/// territories are placed or the draws run out. A draw that claims a cell
/// founds a territory of one cell, not blocked, owned by player
/// `id % player_count`; any other draw is rejected and costs one attempt.
pub open spec fn seed_spec(
    w: int,
    h: int,
    owners: Seq<Option<u32>>,
    terrs: Seq<TerrState>,
    player_count: int,
    remaining: nat,
    draws: Seq<Coord>,
) -> SeedOutcome
    decreases draws.len(),
{
    if remaining == 0 {
        SeedOutcome { owners, terrs, exhausted: false }
    } else if draws.len() == 0 {
        SeedOutcome { owners, terrs, exhausted: true }
    } else {
        let d = draws[0];
        let rest = draws.subrange(1, draws.len() as int);
        if draw_claims(w, h, owners, terrs, d) {
            seed_spec(
                w,
                h,
                owners.update(cell_index(w, d.col as int, d.row as int), Some(terrs.len() as u32)),
                terrs.push(
                    TerrState {
                        player: (terrs.len() as int % player_count) as u32,
                        cells: seq![d],
                        blocked: false,
                    },
                ),
                player_count,
                (remaining - 1) as nat,
                rest,
            )
        } else {
            seed_spec(w, h, owners, terrs, player_count, remaining, rest)
        }
    }
}

/// Players are assigned to territories round-robin by territory id.
pub open spec fn players_round_robin(terrs: Seq<TerrState>, player_count: int) -> bool {
    forall|t: int| 0 <= t < terrs.len() ==> (#[trigger] terrs[t]).player == t % player_count
}

/// The shape every territory has right after seeding: a single seed cell, not
/// blocked, player assigned round-robin.
pub open spec fn seeded_shape(terrs: Seq<TerrState>, player_count: int) -> bool {
    &&& players_round_robin(terrs, player_count)
    &&& forall|t: int| 0 <= t < terrs.len() ==> (#[trigger] terrs[t]).cells.len() == 1
        && !terrs[t].blocked
}

/// Seeding is deterministic in the supplied draws: from equal grids, counts
/// and draw sequences, the outcome is the same, so a seeded random source
/// reproduces its map.
pub proof fn lemma_seed_deterministic(
    w: int,
    h: int,
    owners1: Seq<Option<u32>>,
    owners2: Seq<Option<u32>>,
    player_count: int,
    remaining: nat,
    draws1: Seq<Coord>,
    draws2: Seq<Coord>,
)
    requires
        owners1 == owners2,
        draws1 == draws2,
    ensures
        seed_spec(w, h, owners1, Seq::<TerrState>::empty(), player_count, remaining, draws1)
            == seed_spec(w, h, owners2, Seq::<TerrState>::empty(), player_count, remaining, draws2),
{
}

/// Seeding preserves the map invariant and the seeded shape, places one
/// territory per claimed cell, and places all `remaining` territories unless
/// it reports exhaustion.
pub proof fn lemma_seed_spec_props(
    w: int,
    h: int,
    owners: Seq<Option<u32>>,
    terrs: Seq<TerrState>,
    player_count: int,
    remaining: nat,
    draws: Seq<Coord>,
)
    requires
        inv(w, h, GrowState { owners, terrs }),
        1 <= player_count <= u32::MAX,
        seeded_shape(terrs, player_count),
        count_owned(owners) == terrs.len(),
    ensures
        ({
            let out = seed_spec(w, h, owners, terrs, player_count, remaining, draws);
            &&& inv(w, h, GrowState { owners: out.owners, terrs: out.terrs })
            &&& seeded_shape(out.terrs, player_count)
            &&& count_owned(out.owners) == out.terrs.len()
            &&& terrs.len() <= out.terrs.len() <= terrs.len() + remaining
            &&& !out.exhausted ==> out.terrs.len() == terrs.len() + remaining
            &&& out.owners.len() == owners.len()
        }),
    decreases draws.len(),
{
    let out = seed_spec(w, h, owners, terrs, player_count, remaining, draws);
    if remaining == 0 || draws.len() == 0 {
    } else {
        let d = draws[0];
        let rest = draws.subrange(1, draws.len() as int);
        if draw_claims(w, h, owners, terrs, d) {
            let dc = d.col as int;
            let dr = d.row as int;
            let di = cell_index(w, dc, dr);
            let id = terrs.len();
            let owners2 = owners.update(di, Some(id as u32));
            let terrs2 = terrs.push(
                TerrState {
                    player: (id as int % player_count) as u32,
                    cells: seq![d],
                    blocked: false,
                },
            );
            let s2 = GrowState { owners: owners2, terrs: terrs2 };
            crate::geometry::lemma_cell_index_bounds(w, h, dc, dr);
            assert forall|t: int| 0 <= t < terrs2.len() implies #[trigger] terr_ok(w, h, s2, t) by {
                if t < terrs.len() {
                    assert(terr_ok(w, h, GrowState { owners, terrs }, t));
                    assert(terrs2[t] == terrs[t]);
                    let mc = terrs[t].cells;
                    assert forall|j: int| 0 <= j < mc.len() implies in_bounds(
                        w,
                        h,
                        #[trigger] mc[j].col as int,
                        mc[j].row as int,
                    ) && owners2[cell_index(w, mc[j].col as int, mc[j].row as int)] == Some(
                        t as u32,
                    ) by {
                        let mj = cell_index(w, mc[j].col as int, mc[j].row as int);
                        crate::geometry::lemma_cell_index_bounds(
                            w,
                            h,
                            mc[j].col as int,
                            mc[j].row as int,
                        );
                        assert(owners[mj] == Some(t as u32));
                        assert(mj != di);
                    }
                } else {
                    assert(owners2[di] == Some(id as u32));
                    assert(terrs2[t].cells =~= seq![d]);
                }
            }
            assert forall|c: int, r: int|
                #![trigger owners2[cell_index(w, c, r)]]
                in_bounds(w, h, c, r) implies owner_ok(w, h, s2, c, r) by {
                let ci = cell_index(w, c, r);
                crate::geometry::lemma_cell_index_bounds(w, h, c, r);
                if ci == di {
                    crate::geometry::lemma_cell_index_injective(w, h, c, r, dc, dr);
                    assert(owners2[ci] == Some(id as u32));
                    assert(terrs2[id as int].cells[0] == d);
                    assert(terrs2[id as int].cells.contains(Coord { col: c as u32, row: r as u32 }));
                } else {
                    assert(owners2[ci] == owners[ci]);
                    assert(owner_ok(w, h, GrowState { owners, terrs }, c, r));
                    if owners[ci] is Some {
                        let oid = owners[ci]->0;
                        assert(terrs2[oid as int] == terrs[oid as int]);
                    }
                }
            }
            assert(inv(w, h, s2));
            assert forall|t: int| 0 <= t < terrs2.len() implies (#[trigger] terrs2[t]).cells.len()
                == 1 && !terrs2[t].blocked && terrs2[t].player == t % player_count by {
                if t < terrs.len() {
                    assert(terrs2[t] == terrs[t]);
                } else {
                    assert(t == terrs.len());
                    assert(terrs2[t].player == (id as int % player_count) as u32);
                    assert(0 <= id as int % player_count < player_count);
                }
            }
            lemma_count_owned_update(owners, di, id as u32);
            lemma_seed_spec_props(w, h, owners2, terrs2, player_count, (remaining - 1) as nat, rest);
        } else {
            lemma_seed_spec_props(w, h, owners, terrs, player_count, remaining, rest);
        }
    }
}

/// If more territories are requested than unowned cells exist, the draw
/// budget always runs out: seeding reports exhaustion whatever the draws.
pub proof fn lemma_seed_spec_exhausts(
    w: int,
    h: int,
    owners: Seq<Option<u32>>,
    terrs: Seq<TerrState>,
    player_count: int,
    remaining: nat,
    draws: Seq<Coord>,
)
    requires
        owners.len() == w * h,
        count_owned(owners) + remaining > w * h,
    ensures
        seed_spec(w, h, owners, terrs, player_count, remaining, draws).exhausted,
    decreases draws.len(),
{
    lemma_count_owned_le(owners);
    if remaining == 0 {
    } else if draws.len() == 0 {
    } else {
        let d = draws[0];
        let rest = draws.subrange(1, draws.len() as int);
        if draw_claims(w, h, owners, terrs, d) {
            let di = cell_index(w, d.col as int, d.row as int);
            crate::geometry::lemma_cell_index_bounds(w, h, d.col as int, d.row as int);
            lemma_count_owned_update(owners, di, terrs.len() as u32);
            lemma_seed_spec_exhausts(
                w,
                h,
                owners.update(di, Some(terrs.len() as u32)),
                terrs.push(
                    TerrState {
                        player: (terrs.len() as int % player_count) as u32,
                        cells: seq![d],
                        blocked: false,
                    },
                ),
                player_count,
                (remaining - 1) as nat,
                rest,
            );
        } else {
            lemma_seed_spec_exhausts(w, h, owners, terrs, player_count, remaining, rest);
        }
    }
}

/// With at most one territory requested, seeding a fresh grid succeeds on
/// every outcome: there is no collision to reject, so the first draw (when
/// one is needed at all) already claims a cell.
pub proof fn lemma_seed_spec_single(
    w: int,
    h: int,
    owners: Seq<Option<u32>>,
    player_count: int,
    remaining: nat,
    draws: Seq<Coord>,
)
    requires
        w >= 1,
        h >= 1,
        owners.len() == w * h,
        forall|i: int| 0 <= i < owners.len() ==> owners[i] is None,
        forall|i: int| 0 <= i < draws.len() ==> in_bounds(
            w,
            h,
            (#[trigger] draws[i]).col as int,
            draws[i].row as int,
        ),
        remaining <= 1,
        remaining <= draws.len(),
    ensures
        !seed_spec(w, h, owners, Seq::<TerrState>::empty(), player_count, remaining, draws)
            .exhausted,
{
    if remaining == 1 {
        let d = draws[0];
        let rest = draws.subrange(1, draws.len() as int);
        crate::geometry::lemma_cell_index_bounds(w, h, d.col as int, d.row as int);
        assert(draw_claims(w, h, owners, Seq::<TerrState>::empty(), d));
        let owners2 = owners.update(cell_index(w, d.col as int, d.row as int), Some(0u32));
        let terrs2 = Seq::<TerrState>::empty().push(
            TerrState {
                player: (0int % player_count) as u32,
                cells: seq![d],
                blocked: false,
            },
        );
        assert(seed_spec(w, h, owners, Seq::<TerrState>::empty(), player_count, remaining, draws)
            == seed_spec(w, h, owners2, terrs2, player_count, 0nat, rest));
        assert(!seed_spec(w, h, owners2, terrs2, player_count, 0nat, rest).exhausted);
    } else {
        assert(remaining == 0);
        assert(!seed_spec(
            w,
            h,
            owners,
            Seq::<TerrState>::empty(),
            player_count,
            remaining,
            draws,
        ).exhausted);
    }
}

/// Seeds `territory_count` territories by consuming the given draw sequence:
/// the deterministic core of seeding, realizing exactly [`seed_spec`] on a
/// territory list that starts empty. Returns `SeedingExhausted` when the
/// draws run out first; the grid keeps the claims made up to that point.
pub fn seed_with_draws(
    grid: &mut HexGrid,
    player_count: u32,
    territory_count: u32,
    draws: &Vec<Coord>,
) -> (r: Result<Vec<Territory>, MapError>)
    requires
        old(grid).wf(),
        player_count >= 1,
    ensures
        final(grid).wf(),
        final(grid).width == old(grid).width,
        final(grid).height == old(grid).height,
        ({
            let out = seed_spec(
                old(grid).width as int,
                old(grid).height as int,
                old(grid).cells@,
                Seq::<TerrState>::empty(),
                player_count as int,
                territory_count as nat,
                draws@,
            );
            &&& final(grid).cells@ == out.owners
            &&& out.exhausted ==> r == Err::<Vec<Territory>, MapError>(MapError::SeedingExhausted)
            &&& !out.exhausted ==> (r matches Ok(ts) && terrs_view(ts@) == out.terrs)
        }),
{
    let ghost w = old(grid).width as int;
    let ghost h = old(grid).height as int;
    let ghost pc = player_count as int;
    let ghost goal = seed_spec(
        w,
        h,
        old(grid).cells@,
        Seq::<TerrState>::empty(),
        pc,
        territory_count as nat,
        draws@,
    );
    let mut terrs: Vec<Territory> = Vec::new();
    let mut di: usize = 0;
    proof {
        assert(terrs_view(terrs@) =~= Seq::<TerrState>::empty());
        assert(draws@.subrange(0, draws@.len() as int) =~= draws@);
    }
    while terrs.len() < territory_count as usize && di < draws.len()
        invariant
            grid.wf(),
            grid.width == old(grid).width,
            grid.height == old(grid).height,
            player_count >= 1,
            w == grid.width as int,
            h == grid.height as int,
            pc == player_count as int,
            terrs@.len() <= territory_count,
            di <= draws@.len(),
            seed_spec(
                w,
                h,
                grid.cells@,
                terrs_view(terrs@),
                pc,
                (territory_count - terrs@.len()) as nat,
                draws@.subrange(di as int, draws@.len() as int),
            ) == goal,
        decreases draws@.len() - di,
    {
        let d = draws[di];
        di = di + 1;
        let ghost pre_rest = draws@.subrange(di - 1, draws@.len() as int);
        proof {
            assert(pre_rest[0] == draws@[di - 1]);
            assert(pre_rest.subrange(1, pre_rest.len() as int) =~= draws@.subrange(
                di as int,
                draws@.len() as int,
            ));
        }
        let claims = if d.col < grid.width && d.row < grid.height {
            proof {
                crate::geometry::lemma_cell_index_bounds(w, h, d.col as int, d.row as int);
            }
            let n: usize = grid.cells.len();
            let i: usize = (d.row as usize) * (grid.width as usize) + (d.col as usize);
            grid.cells[i].is_none()
        } else {
            false
        };
        if claims {
            let id: u32 = terrs.len() as u32;
            grid.claim(d.col, d.row, id);
            let t = Territory { player: id % player_count, cells: vec_of_one(d), blocked: false };
            proof {
                assert(t@.cells =~= seq![d]);
                assert(terrs_view(terrs@.push(t)) =~= terrs_view(terrs@).push(t@));
            }
            terrs.push(t);
        }
    }
    if terrs.len() < territory_count as usize {
        proof {
            assert(draws@.subrange(di as int, draws@.len() as int) =~= Seq::<Coord>::empty());
        }
        Err(MapError::SeedingExhausted)
    } else {
        Ok(terrs)
    }
}

/// A vector holding a single coordinate.
fn vec_of_one(c: Coord) -> (v: Vec<Coord>)
    ensures
        v@ =~= seq![c],
{
    let mut v: Vec<Coord> = Vec::new();
    v.push(c);
    v
}

/// Seeds `territory_count` territories on a fresh grid, drawing cells from
/// the random source, with a budget of [`SEED_ATTEMPTS`] draws per requested
/// territory. On success every requested territory was placed on its own
/// previously unclaimed cell, with one cell each and players assigned
/// round-robin. Requesting more territories than the grid has cells always
/// fails with `SeedingExhausted`; requesting at most one always succeeds,
/// since a fresh grid has no collision to reject.
pub fn seed(
    grid: &mut HexGrid,
    player_count: u32,
    territory_count: u32,
    rng: &mut MapRng,
) -> (r: Result<Vec<Territory>, MapError>)
    requires
        old(grid).wf(),
        old(grid).all_unowned(),
        player_count >= 1,
        territory_count * SEED_ATTEMPTS <= usize::MAX,
    ensures
        final(grid).wf(),
        final(grid).width == old(grid).width,
        final(grid).height == old(grid).height,
        r matches Ok(ts) ==> ({
            let s = crate::territory::state_of(*final(grid), ts@);
            &&& ts@.len() == territory_count
            &&& inv(old(grid).width as int, old(grid).height as int, s)
            &&& seeded_shape(s.terrs, player_count as int)
            &&& count_owned(final(grid).cells@) == territory_count
            &&& crate::territory::sum_sizes(s.terrs) == territory_count
        }),
        territory_count > old(grid).width * old(grid).height ==> r is Err,
        territory_count <= 1 ==> r is Ok,
        r is Err ==> r == Err::<Vec<Territory>, MapError>(MapError::SeedingExhausted),
{
    let ghost w = old(grid).width as int;
    let ghost h = old(grid).height as int;
    let total: usize = (territory_count as usize) * (SEED_ATTEMPTS as usize);
    let mut draws: Vec<Coord> = Vec::new();
    while draws.len() < total
        invariant
            grid.wf(),
            *grid == *old(grid),
            draws@.len() <= total,
            forall|i: int| 0 <= i < draws@.len() ==> (#[trigger] draws@[i]).col < grid.width
                && draws@[i].row < grid.height,
        decreases total - draws@.len(),
    {
        let c = rng.draw_coord(grid.width, grid.height);
        draws.push(c);
    }
    let n: usize = grid.cells.len();
    proof {
        lemma_count_owned_none(grid.cells@);
        let s0 = GrowState { owners: grid.cells@, terrs: Seq::<TerrState>::empty() };
        assert forall|c: int, r: int|
            #![trigger s0.owners[cell_index(w, c, r)]]
            in_bounds(w, h, c, r) implies owner_ok(w, h, s0, c, r) by {
            crate::geometry::lemma_cell_index_bounds(w, h, c, r);
        }
        assert(inv(w, h, s0));
        lemma_seed_spec_props(
            w,
            h,
            grid.cells@,
            Seq::<TerrState>::empty(),
            player_count as int,
            territory_count as nat,
            draws@,
        );
        let out = seed_spec(
            w,
            h,
            grid.cells@,
            Seq::<TerrState>::empty(),
            player_count as int,
            territory_count as nat,
            draws@,
        );
        crate::territory::lemma_sum_sizes_ones(out.terrs);
        if territory_count > old(grid).width * old(grid).height {
            lemma_seed_spec_exhausts(
                w,
                h,
                grid.cells@,
                Seq::<TerrState>::empty(),
                player_count as int,
                territory_count as nat,
                draws@,
            );
        }
        if territory_count <= 1 {
            lemma_seed_spec_single(
                w,
                h,
                grid.cells@,
                player_count as int,
                territory_count as nat,
                draws@,
            );
        }
    }
    seed_with_draws(grid, player_count, territory_count, &draws)
}

} // verus!
