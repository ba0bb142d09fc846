//! The ownership view: a read-only projection from cell ownership to display
//! colors. Each of the up to eight supported players has one fixed color in
//! the palette; a player id past the palette is a configuration error.

use vstd::prelude::*;

use crate::grid::HexGrid;
use crate::territory::{inv, owner_ok, state_of, terrs_view, Territory};
use crate::MapError;

verus! {

/// An RGB display color used to tint a rendered hex.
#[derive(Clone, Copy, Debug, PartialEq, Eq, Structural)]
pub struct Color {
    pub red: u8,
    pub green: u8,
    pub blue: u8,
}

/// The fixed palette: one predefined color per supported player, none past
/// the eighth player.
pub open spec fn spec_player_color(p: int) -> Option<Color> {
    if p == 0 {
        Some(Color { red: 78, green: 205, blue: 196 })
    } else if p == 1 {
        Some(Color { red: 199, green: 244, blue: 100 })
    } else if p == 2 {
        Some(Color { red: 255, green: 107, blue: 107 })
    } else if p == 3 {
        Some(Color { red: 196, green: 77, blue: 88 })
    } else if p == 4 {
        Some(Color { red: 85, green: 98, blue: 112 })
    } else if p == 5 {
        Some(Color { red: 73, green: 10, blue: 61 })
    } else if p == 6 {
        Some(Color { red: 189, green: 21, blue: 80 })
    } else if p == 7 {
        Some(Color { red: 233, green: 127, blue: 2 })
    } else {
        None
    }
}

/// The display color of a player: one of the eight palette entries, or
/// nothing for an unsupported player id.
pub fn player_color(p: u32) -> (r: Option<Color>)
    ensures
        r == spec_player_color(p as int),
        r is Some <==> p < 8,
{
    match p {
        0 => Some(Color { red: 78, green: 205, blue: 196 }),
        1 => Some(Color { red: 199, green: 244, blue: 100 }),
        2 => Some(Color { red: 255, green: 107, blue: 107 }),
        3 => Some(Color { red: 196, green: 77, blue: 88 }),
        4 => Some(Color { red: 85, green: 98, blue: 112 }),
        5 => Some(Color { red: 73, green: 10, blue: 61 }),
        6 => Some(Color { red: 189, green: 21, blue: 80 }),
        7 => Some(Color { red: 233, green: 127, blue: 2 }),
        _ => None,
    }
}

/// The display color of each territory, by territory id: its player's
/// palette entry. Fails with `UnsupportedPlayerCount` exactly when some
/// territory's player has no palette entry.
pub fn colors_for(territories: &Vec<Territory>) -> (r: Result<Vec<Color>, MapError>)
    ensures
        r is Ok <==> (forall|t: int| 0 <= t < territories@.len() ==> (#[trigger] territories@[t]@)
            .player < 8),
        r matches Ok(v) ==> v@.len() == territories@.len() && (forall|t: int|
            0 <= t < territories@.len() ==> Some(#[trigger] v@[t]) == spec_player_color(
                territories@[t]@.player as int,
            )),
        r is Err ==> r == Err::<Vec<Color>, MapError>(MapError::UnsupportedPlayerCount),
{
    let mut v: Vec<Color> = Vec::new();
    let mut t: usize = 0;
    while t < territories.len()
        invariant
            t <= territories@.len(),
            v@.len() == t,
            forall|u: int| 0 <= u < t ==> (#[trigger] territories@[u]@).player < 8,
            forall|u: int| 0 <= u < t ==> Some(#[trigger] v@[u]) == spec_player_color(
                territories@[u]@.player as int,
            ),
        decreases territories@.len() - t,
    {
        let tr = &territories[t];
        match player_color(tr.player) {
            Some(c) => {
                v.push(c);
            },
            None => {
                proof {
                    assert(territories@[t as int]@.player >= 8);
                }
                return Err(MapError::UnsupportedPlayerCount);
            },
        }
        t = t + 1;
    }
    Ok(v)
}

/// The display color of the cell at `(col, row)`: the palette entry of the
/// player owning its territory, nothing for an unclaimed cell, `OutOfBounds`
/// off the grid, and `UnsupportedPlayerCount` when the owning player has no
/// palette entry.
pub fn owner_color(grid: &HexGrid, territories: &Vec<Territory>, col: u32, row: u32) -> (r:
    Result<Option<Color>, MapError>)
    requires
        grid.wf(),
        inv(grid.width as int, grid.height as int, state_of(*grid, territories@)),
    ensures
        r is Err <==> (!grid.spec_in_bounds(col as int, row as int) || (grid.spec_owner(
            col as int,
            row as int,
        ) matches Some(id) && terrs_view(territories@)[id as int].player >= 8)),
        !grid.spec_in_bounds(col as int, row as int) ==> r == Err::<Option<Color>, MapError>(
            MapError::OutOfBounds,
        ),
        grid.spec_in_bounds(col as int, row as int) ==> match grid.spec_owner(
            col as int,
            row as int,
        ) {
            None => r == Ok::<Option<Color>, MapError>(None),
            Some(id) => if terrs_view(territories@)[id as int].player < 8 {
                r == Ok::<Option<Color>, MapError>(
                    spec_player_color(terrs_view(territories@)[id as int].player as int),
                )
            } else {
                r == Err::<Option<Color>, MapError>(MapError::UnsupportedPlayerCount)
            },
        },
{
    if col >= grid.width || row >= grid.height {
        return Err(MapError::OutOfBounds);
    }
    proof {
        crate::geometry::lemma_cell_index_bounds(
            grid.width as int,
            grid.height as int,
            col as int,
            row as int,
        );
    }
    let n: usize = grid.cells.len();
    let i: usize = (row as usize) * (grid.width as usize) + (col as usize);
    match grid.cells[i] {
        None => Ok(None),
        Some(id) => {
            proof {
                assert(owner_ok(
                    grid.width as int,
                    grid.height as int,
                    state_of(*grid, territories@),
                    col as int,
                    row as int,
                ));
            }
            let tr = &territories[id as usize];
            match player_color(tr.player) {
                Some(c) => Ok(Some(c)),
                None => Err(MapError::UnsupportedPlayerCount),
            }
        },
    }
}

} // verus!
