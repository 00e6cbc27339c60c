//! Positions on the board.

use vstd::prelude::*;
use super::constants::GRID_WIDTH;
use super::format::{get_index_from, index_of};

verus! {

/// A position on the board, held as its row-major index `0..81`.
#[derive(Debug, Clone, Copy, PartialEq, Eq, Structural, Hash)]
pub struct Coord {
    index: usize,
}

impl View for Coord {
    type V = int;

    /// The row-major index of the position.
    closed spec fn view(&self) -> int {
        self.index as int
    }
}

impl Coord {
    #[verifier::type_invariant]
    spec fn in_grid(self) -> bool {
        self.index < 81
    }

    /// The row of the position.
    pub open spec fn row(self) -> int {
        self@ / 9
    }

    /// The column of the position.
    pub open spec fn col(self) -> int {
        self@ % 9
    }

    /// Two coordinates with the same index are the same coordinate.
    pub proof fn lemma_view_injective(a: Coord, b: Coord)
        ensures
            a@ == b@ <==> a == b,
    {
    }

    /// Creates the coordinate at (`row`, `col`): the cell with the index
    /// that the two give, which must lie in the grid. With a column under
    /// nine it is the cell in that row and column.
    pub fn new(row: usize, col: usize) -> (coord: Coord)
        requires
            row * 9 + col < 81,
        ensures
            coord@ == index_of(row as int, col as int),
            col < 9 ==> coord.row() == row && coord.col() == col,
    {
        let index = get_index_from(row, col);
        Coord::from_index(index)
    }

    /// Creates the coordinate with the given row-major index.
    pub fn from_index(index: usize) -> (coord: Coord)
        requires
            index < 81,
        ensures
            coord@ == index,
    {
        Coord { index }
    }

    /// Returns the row of the coordinate.
    pub fn get_row(self) -> (row: usize)
        ensures
            row == self.row(),
            row < 9,
    {
        proof {
            use_type_invariant(&self);
        }
        self.index / GRID_WIDTH
    }

    /// Returns the column of the coordinate.
    pub fn get_col(self) -> (col: usize)
        ensures
            col == self.col(),
            col < 9,
    {
        self.index % GRID_WIDTH
    }

    /// Returns the row-major index of the coordinate.
    pub fn get_index(self) -> (index: usize)
        ensures
            index == self@,
            index < 81,
    {
        proof {
            use_type_invariant(&self);
        }
        self.index
    }

    /// Returns the row and the column of the coordinate.
    pub fn get_row_col(&self) -> (rc: (usize, usize))
        ensures
            rc.0 == self.row(),
            rc.1 == self.col(),
            rc.0 < 9,
            rc.1 < 9,
    {
        (self.get_row(), self.get_col())
    }

    /// Returns the coordinate `offset` rows further down, which must lie
    /// in the grid.
    pub fn offset_row(self, offset: usize) -> (coord: Coord)
        requires
            self@ + 9 * offset < 81,
        ensures
            coord@ == self@ + 9 * offset,
    {
        Coord::new(self.get_row() + offset, self.get_col())
    }

    /// Returns the coordinate `offset` cells further on in row-major
    /// order, which must lie in the grid: within a row, that many columns
    /// further right.
    pub fn offset_col(self, offset: usize) -> (coord: Coord)
        requires
            self@ + offset < 81,
        ensures
            coord@ == self@ + offset,
    {
        Coord::new(self.get_row(), self.get_col() + offset)
    }

    /// Returns the coordinate `row_offset` rows down and `col_offset`
    /// cells further on, which must lie in the grid.
    pub fn offset(self, row_offset: usize, col_offset: usize) -> (coord: Coord)
        requires
            self@ + 9 * row_offset + col_offset < 81,
        ensures
            coord@ == self@ + 9 * row_offset + col_offset,
    {
        Coord::new(self.get_row() + row_offset, self.get_col() + col_offset)
    }
}

} // verus!
