//! The hex grid: it owns the cells and their ownership state, looks cells up
//! by coordinate, and enumerates the in-bounds neighbors of a cell.

use vstd::prelude::*;

use crate::geometry::{adjacent, cell_index, in_bounds, Coord};
use crate::MapError;

verus! {

broadcast use vstd::seq_lib::lemma_seq_contains_after_push;

/// A rectangular grid of hex cells. Each cell optionally holds the id of the
/// territory that owns it; cells are stored row-major, row by row.
pub struct HexGrid {
    pub width: u32,
    pub height: u32,
    pub cells: Vec<Option<u32>>,
}

impl HexGrid {
    /// Well-formedness: positive dimensions and one stored cell per position.
    pub open spec fn wf(&self) -> bool {
        &&& self.width >= 1
        &&& self.height >= 1
        &&& self.cells@.len() == self.width * self.height
    }

    /// The owner recorded at an in-bounds coordinate.
    pub open spec fn spec_owner(&self, col: int, row: int) -> Option<u32> {
        self.cells@[cell_index(self.width as int, col, row)]
    }

    /// Whether the coordinate lies on this grid.
    pub open spec fn spec_in_bounds(&self, col: int, row: int) -> bool {
        in_bounds(self.width as int, self.height as int, col, row)
    }

    /// Whether no cell has an owner yet.
    pub open spec fn all_unowned(&self) -> bool {
        forall|i: int| 0 <= i < self.cells@.len() ==> self.cells@[i] is None
    }

    /// Builds a grid of `width * height` cells, all initially unowned.
    /// Zero width or height is rejected with `InvalidDimensions`.
    pub fn new(width: u32, height: u32) -> (r: Result<HexGrid, MapError>)
        requires
            width * height <= usize::MAX,
        ensures
            r is Err <==> (width == 0 || height == 0),
            r is Err ==> r == Err::<HexGrid, MapError>(MapError::InvalidDimensions),
            r matches Ok(g) ==> g.wf() && g.width == width && g.height == height
                && g.all_unowned(),
    {
        if width == 0 || height == 0 {
            return Err(MapError::InvalidDimensions);
        }
        let n: usize = (width as usize) * (height as usize);
        let mut cells: Vec<Option<u32>> = Vec::new();
        while cells.len() < n
            invariant
                cells@.len() <= n,
                forall|i: int| 0 <= i < cells@.len() ==> cells@[i] is None,
            decreases n - cells@.len(),
        {
            cells.push(None);
        }
        Ok(HexGrid { width, height, cells })
    }

    /// Looks the owner of a coordinate up; `OutOfBounds` if the coordinate
    /// does not lie on the grid.
    pub fn owner_of(&self, col: u32, row: u32) -> (r: Result<Option<u32>, MapError>)
        requires
            self.wf(),
        ensures
            r is Ok <==> self.spec_in_bounds(col as int, row as int),
            r matches Ok(o) ==> o == self.spec_owner(col as int, row as int),
            r is Err ==> r == Err::<Option<u32>, MapError>(MapError::OutOfBounds),
    {
        if col >= self.width || row >= self.height {
            return Err(MapError::OutOfBounds);
        }
        proof {
            crate::geometry::lemma_cell_index_bounds(
                self.width as int,
                self.height as int,
                col as int,
                row as int,
            );
        }
        let n: usize = self.cells.len();
        let i: usize = (row as usize) * (self.width as usize) + (col as usize);
        Ok(self.cells[i])
    }

    /// Sets the owner of a coordinate. Setting the owner a cell already has is
    /// allowed and changes nothing; a different existing owner is refused with
    /// `AlreadyOwned`, and a coordinate off the grid with `OutOfBounds`.
    pub fn set_owner(&mut self, col: u32, row: u32, owner: u32) -> (r: Result<(), MapError>)
        requires
            old(self).wf(),
        ensures
            final(self).wf(),
            final(self).width == old(self).width,
            final(self).height == old(self).height,
            !old(self).spec_in_bounds(col as int, row as int) ==> r
                == Err::<(), MapError>(MapError::OutOfBounds) && *final(self) == *old(self),
            old(self).spec_in_bounds(col as int, row as int) ==> {
                let prev = old(self).spec_owner(col as int, row as int);
                &&& (prev is None || prev == Some(owner)) ==> r is Ok
                    && final(self).cells@ == old(self).cells@.update(
                        cell_index(old(self).width as int, col as int, row as int),
                        Some(owner),
                    )
                &&& (prev is Some && prev != Some(owner)) ==> r
                    == Err::<(), MapError>(MapError::AlreadyOwned) && *final(self) == *old(self)
            },
    {
        if col >= self.width || row >= self.height {
            return Err(MapError::OutOfBounds);
        }
        proof {
            crate::geometry::lemma_cell_index_bounds(
                self.width as int,
                self.height as int,
                col as int,
                row as int,
            );
        }
        let n: usize = self.cells.len();
        let i: usize = (row as usize) * (self.width as usize) + (col as usize);
        match self.cells[i] {
            None => {
                self.cells.set(i, Some(owner));
                Ok(())
            },
            Some(existing) => {
                if existing == owner {
                    proof {
                        assert(self.cells@ =~= old(self).cells@.update(i as int, Some(owner)));
                    }
                    Ok(())
                } else {
                    Err(MapError::AlreadyOwned)
                }
            },
        }
    }

    /// Claims an unowned in-bounds cell for a territory.
    pub(crate) fn claim(&mut self, col: u32, row: u32, owner: u32)
        requires
            old(self).wf(),
            old(self).spec_in_bounds(col as int, row as int),
            old(self).spec_owner(col as int, row as int) is None,
        ensures
            final(self).wf(),
            final(self).width == old(self).width,
            final(self).height == old(self).height,
            final(self).cells@ == old(self).cells@.update(
                cell_index(old(self).width as int, col as int, row as int),
                Some(owner),
            ),
    {
        proof {
            crate::geometry::lemma_cell_index_bounds(
                self.width as int,
                self.height as int,
                col as int,
                row as int,
            );
        }
        let n: usize = self.cells.len();
        let i: usize = (row as usize) * (self.width as usize) + (col as usize);
        self.cells.set(i, Some(owner));
    }

    /// The in-bounds hex neighbors of an on-grid cell: between 0 and 6
    /// coordinates, each on the grid and adjacent to `(col, row)`, with no
    /// repetitions, and covering every such coordinate.
    pub fn neighbors(&self, col: u32, row: u32) -> (r: Vec<Coord>)
        requires
            self.wf(),
            self.spec_in_bounds(col as int, row as int),
        ensures
            r@.len() <= 6,
            forall|i: int| 0 <= i < r@.len() ==> self.spec_in_bounds(
                #[trigger] r@[i].col as int,
                r@[i].row as int,
            ) && adjacent(col as int, row as int, r@[i].col as int, r@[i].row as int),
            forall|c: Coord| self.spec_in_bounds(c.col as int, c.row as int)
                && adjacent(col as int, row as int, c.col as int, c.row as int)
                ==> r@.contains(c),
            forall|i: int, j: int| 0 <= i < j < r@.len() ==> r@[i] != r@[j],
    {
        let mut r: Vec<Coord> = Vec::new();
        // Vertical neighbors, shared by both column parities.
        if row >= 1 {
            r.push(Coord { col, row: row - 1 });
        }
        if row + 1 < self.height {
            r.push(Coord { col, row: row + 1 });
        }
        if col % 2 == 0 {
            // Even column: the lateral neighbors sit on this row and the one above.
            if col >= 1 && row >= 1 {
                r.push(Coord { col: col - 1, row: row - 1 });
            }
            if col >= 1 {
                r.push(Coord { col: col - 1, row });
            }
            if col + 1 < self.width && row >= 1 {
                r.push(Coord { col: col + 1, row: row - 1 });
            }
            if col + 1 < self.width {
                r.push(Coord { col: col + 1, row });
            }
        } else {
            // Odd column: the lateral neighbors sit on this row and the one below.
            if col >= 1 {
                r.push(Coord { col: col - 1, row });
            }
            if col >= 1 && row + 1 < self.height {
                r.push(Coord { col: col - 1, row: row + 1 });
            }
            if col + 1 < self.width {
                r.push(Coord { col: col + 1, row });
            }
            if col + 1 < self.width && row + 1 < self.height {
                r.push(Coord { col: col + 1, row: row + 1 });
            }
        }
        r
    }
}

} // verus!
