//! Offset-coordinate hex geometry: coordinates, bounds, row-major cell
//! indexing, and the asymmetric six-neighbor adjacency rule in which even
//! columns are vertically shifted relative to odd columns.

use vstd::prelude::*;

verus! {

/// A cell position, addressed by integer column and row.
#[derive(Clone, Copy, Debug, PartialEq, Eq, Structural)]
pub struct Coord {
    pub col: u32,
    pub row: u32,
}

/// Whether `(col, row)` lies on a grid of the given dimensions.
pub open spec fn in_bounds(width: int, height: int, col: int, row: int) -> bool {
    0 <= col < width && 0 <= row < height
}

/// The row-major index of `(col, row)` in the grid's cell storage.
pub open spec fn cell_index(width: int, col: int, row: int) -> int {
    row * width + col
}

/// Hex adjacency on the offset layout: the six neighbor offsets of a cell
/// depend on the parity of its column.
pub open spec fn adjacent(c1: int, r1: int, c2: int, r2: int) -> bool {
    if c1 % 2 == 0 {
        ||| c2 == c1 && (r2 == r1 - 1 || r2 == r1 + 1)
        ||| (c2 == c1 - 1 || c2 == c1 + 1) && (r2 == r1 - 1 || r2 == r1)
    } else {
        ||| c2 == c1 && (r2 == r1 - 1 || r2 == r1 + 1)
        ||| (c2 == c1 - 1 || c2 == c1 + 1) && (r2 == r1 || r2 == r1 + 1)
    }
}

/// Adjacency is symmetric: if `b` is a neighbor of `a` then `a` is a
/// neighbor of `b`.
pub proof fn lemma_adjacent_symmetric(c1: int, r1: int, c2: int, r2: int)
    requires
        c1 >= 0,
        c2 >= 0,
    ensures
        adjacent(c1, r1, c2, r2) <==> adjacent(c2, r2, c1, r1),
{
}

/// Row-major indexing stays within a `width * height` cell store.
pub proof fn lemma_cell_index_bounds(width: int, height: int, col: int, row: int)
    requires
        in_bounds(width, height, col, row),
    ensures
        0 <= cell_index(width, col, row) < width * height,
{
    assert(row * width + col < width * height) by (nonlinear_arith)
        requires
            0 <= col < width,
            0 <= row < height,
    ;
    assert(row * width >= 0) by (nonlinear_arith)
        requires
            row >= 0,
            width >= 0,
    ;
}

/// Row-major indexing is injective on in-bounds coordinates.
pub proof fn lemma_cell_index_injective(
    width: int,
    height: int,
    col1: int,
    row1: int,
    col2: int,
    row2: int,
)
    requires
        in_bounds(width, height, col1, row1),
        in_bounds(width, height, col2, row2),
        cell_index(width, col1, row1) == cell_index(width, col2, row2),
    ensures
        col1 == col2 && row1 == row2,
{
    assert(col1 == col2 && row1 == row2) by (nonlinear_arith)
        requires
            0 <= col1 < width,
            0 <= col2 < width,
            0 <= row1 < height,
            0 <= row2 < height,
            row1 * width + col1 == row2 * width + col2,
    ;
}

/// Whether `b` is one of the six hex neighbors of `a`.
pub fn is_adjacent(a: Coord, b: Coord) -> (r: bool)
    ensures
        r == adjacent(a.col as int, a.row as int, b.col as int, b.row as int),
{
    let dc: i64 = b.col as i64 - a.col as i64;
    let dr: i64 = b.row as i64 - a.row as i64;
    if a.col % 2 == 0 {
        (dc == 0 && (dr == -1 || dr == 1)) || ((dc == -1 || dc == 1) && (dr == -1 || dr == 0))
    } else {
        (dc == 0 && (dr == -1 || dr == 1)) || ((dc == -1 || dc == 1) && (dr == 0 || dr == 1))
    }
}

} // verus!
