//! Procedural hex-map generation: a rectangular grid of hexagonal cells is
//! seeded with territories on random cells, each territory is grown outward
//! over adjacent unclaimed cells until it reaches a target size or is blocked,
//! and every claimed cell is assigned its owning player's display color.

pub mod colors;
pub mod config;
pub mod geometry;
pub mod grid;
pub mod grower;
pub mod rng;
pub mod seeder;
pub mod territory;

pub use colors::{colors_for, owner_color, player_color, Color};
pub use config::GameSettings;
pub use geometry::Coord;
pub use grid::HexGrid;
pub use grower::grow;
pub use rng::MapRng;
pub use seeder::{seed, seed_with_draws, SEED_ATTEMPTS};
pub use territory::Territory;

use vstd::prelude::*;

verus! {

/// The errors that map generation can surface.
#[derive(Clone, Copy, Debug, PartialEq, Eq, Structural)]
pub enum MapError {
    /// The grid width or height is zero.
    InvalidDimensions,
    /// A coordinate lies outside the grid extent.
    OutOfBounds,
    /// A cell already has a different owner.
    AlreadyOwned,
    /// The requested territory count cannot be placed on unclaimed cells
    /// within the attempt budget.
    SeedingExhausted,
    /// The player count exceeds the supported color palette.
    UnsupportedPlayerCount,
}

/// A finished map: the grid with its final per-cell ownership, the grown
/// territories, and the number of growth rounds that ran.
pub struct GeneratedMap {
    pub grid: HexGrid,
    pub territories: Vec<Territory>,
    pub rounds: u32,
}

/// Runs the whole generation pipeline: validates the configuration, builds
/// the grid, seeds `player_count * 4` territories on random cells, and grows
/// each to the target size or until blocked. A resolved player count outside
/// `1..=8` is rejected with `UnsupportedPlayerCount`, a zero dimension with
/// `InvalidDimensions`, and a grid too small for the requested territories
/// with `SeedingExhausted`.
pub fn generate_map(settings: &GameSettings, rng: &mut MapRng) -> (r: Result<
    GeneratedMap,
    MapError,
>)
    requires
        settings.width * settings.height <= usize::MAX,
    ensures
        ({
            let pc = settings.spec_resolved_player_count();
            let tgt = settings.spec_resolved_area_size();
            let w = settings.width as int;
            let h = settings.height as int;
            &&& (r == Err::<GeneratedMap, MapError>(MapError::UnsupportedPlayerCount) <==> !(1
                <= pc <= 8))
            &&& (r == Err::<GeneratedMap, MapError>(MapError::InvalidDimensions) <==> (1 <= pc
                <= 8 && (settings.width == 0 || settings.height == 0)))
            &&& (r == Err::<GeneratedMap, MapError>(MapError::SeedingExhausted) ==> 1 <= pc <= 8
                && settings.width >= 1 && settings.height >= 1)
            &&& (1 <= pc <= 8 && settings.width >= 1 && settings.height >= 1 && 4 * pc > w * h
                ==> r == Err::<GeneratedMap, MapError>(MapError::SeedingExhausted))
            &&& (r is Err ==> r == Err::<GeneratedMap, MapError>(MapError::UnsupportedPlayerCount)
                || r == Err::<GeneratedMap, MapError>(MapError::InvalidDimensions) || r == Err::<
                GeneratedMap,
                MapError,
            >(MapError::SeedingExhausted))
            &&& (r matches Ok(m) ==> ({
                let s = crate::territory::state_of(m.grid, m.territories@);
                &&& m.grid.wf()
                &&& m.grid.width == settings.width
                &&& m.grid.height == settings.height
                &&& m.territories@.len() == 4 * pc
                &&& crate::territory::inv(w, h, s)
                &&& crate::territory::sizes_at_most(s, tgt as int)
                &&& crate::grower::all_done(s, tgt as int)
                &&& crate::seeder::players_round_robin(s.terrs, pc as int)
                &&& (forall|t: int| 0 <= t < s.terrs.len() ==> (#[trigger] s.terrs[t]).player
                    < pc)
                &&& crate::territory::sum_sizes(s.terrs) == crate::seeder::count_owned(
                    m.grid.cells@,
                )
                &&& crate::territory::sum_sizes(s.terrs) <= w * h
                &&& m.rounds <= tgt
            }))
        }),
{
    let pc = settings.resolved_player_count();
    if pc < 1 || pc > 8 {
        return Err(MapError::UnsupportedPlayerCount);
    }
    let target = settings.resolved_area_size();
    let mut grid = match HexGrid::new(settings.width, settings.height) {
        Ok(g) => g,
        Err(e) => {
            return Err(e);
        },
    };
    let territory_count: u32 = pc * 4;
    let mut territories = match seed(&mut grid, pc, territory_count, rng) {
        Ok(ts) => ts,
        Err(e) => {
            return Err(e);
        },
    };
    let ghost w = settings.width as int;
    let ghost h = settings.height as int;
    let ghost seeded = crate::territory::state_of(grid, territories@);
    proof {
        assert forall|t: int| 0 <= t < seeded.terrs.len() implies (#[trigger] seeded.terrs[t])
            .cells.len() <= target as int by {
            assert(seeded.terrs[t].cells.len() == 1);
        }
    }
    let rounds = grow(&mut grid, &mut territories, target);
    proof {
        let s1 = crate::territory::state_of(grid, territories@);
        assert(s1 == crate::grower::grow_spec(w, h, target as int, seeded));
        crate::grower::lemma_rounds_progress(w, h, target as int, seeded, target as nat, 0);
        crate::grower::lemma_grow_spec_claims_bounded(w, h, target as int, seeded);
        assert forall|t: int| 0 <= t < s1.terrs.len() implies (#[trigger] s1.terrs[t]).player
            < pc by {
            assert(seeded.terrs[t].player == t % (pc as int));
            assert(0 <= t % (pc as int) < pc as int);
            assert(s1.terrs[t].player == seeded.terrs[t].player);
        }
        assert forall|t: int| 0 <= t < s1.terrs.len() implies (#[trigger] s1.terrs[t]).player
            == t % (pc as int) by {
            assert(seeded.terrs[t].player == t % (pc as int));
            assert(s1.terrs[t].player == seeded.terrs[t].player);
        }
    }
    Ok(GeneratedMap { grid, territories, rounds })
}

} // verus!
