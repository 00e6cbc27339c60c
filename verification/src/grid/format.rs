//! Row-major indexing of the board.

use vstd::prelude::*;
use super::constants::GRID_WIDTH;
use super::coords::Coord;

verus! {

/// The row-major index of the cell at (`row`, `col`).
pub open spec fn index_of(row: int, col: int) -> int {
    row * 9 + col
}

/// Returns the row-major index of a coordinate.
pub fn get_index(coord: Coord) -> (index: usize)
    ensures
        index == coord@,
        index < 81,
{
    coord.get_index()
}

/// Returns the row-major index of the cell at (`row`, `col`): nine times
/// the row and the column, which must fit. Inside the grid it is under
/// eighty-one.
pub fn get_index_from(row: usize, col: usize) -> (index: usize)
    requires
        row * 9 + col <= usize::MAX,
    ensures
        index == index_of(row as int, col as int),
        row < 9 && col < 9 ==> index < 81,
{
    row * GRID_WIDTH + col
}

} // verus!
