//! The rows of the board.

use vstd::prelude::*;
use super::cell_collection::CellCollection;
use super::constants::GRID_HEIGHT;
use super::coords::Coord;
use super::square::Square;

verus! {

/// A row of the board, its cells taken from left to right.
#[derive(Debug, Clone, Copy, PartialEq, Eq, Structural)]
pub struct Row {
    /// The index of the row, `0..9` for a row of the board.
    pub row: usize,
}

impl Row {
    /// The nine rows from top to bottom.
    pub open spec fn all() -> Seq<Row> {
        Seq::new(9, |i: int| Row { row: i as usize })
    }

    /// Creates the row with the given index.
    pub fn new(row: usize) -> (r: Row)
        ensures
            r.row == row,
    {
        Self { row }
    }

    /// Returns the box that the cell at column `index` of this row lies in.
    pub fn get_square(&self, index: usize) -> (square: Square)
        ensures
            square == Square::containing(self.row as int, index as int),
    {
        Square::from(self.row, index)
    }

    /// Returns the index of the row.
    pub fn row_index(&self) -> (row: usize)
        ensures
            row == self.row,
    {
        self.row
    }

    /// Returns the nine rows from top to bottom.
    pub fn iter_row() -> (rows: Vec<Row>)
        ensures
            rows@ == Row::all(),
    {
        let mut rows: Vec<Row> = Vec::new();
        let mut i: usize = 0;
        while i < Row::max()
            invariant
                i <= 9,
                rows@.len() == i,
                forall|k: int| 0 <= k < i ==> rows@[k] == (Row { row: k as usize }),
            decreases 9 - i,
        {
            rows.push(Row::new(i));
            i += 1;
        }
        assert(rows@ =~= Row::all());
        rows
    }

    /// Returns the number of rows, which is also the length of each.
    pub fn max() -> (n: usize)
        ensures
            n == 9,
    {
        GRID_HEIGHT
    }
}

impl CellCollection for Row {
    open spec fn wf(&self) -> bool {
        self.row < 9
    }

    open spec fn size(&self) -> nat {
        9
    }

    open spec fn coord_at(&self, i: int) -> int {
        self.row * 9 + i
    }

    proof fn lemma_coords_in_grid(&self, i: int) {
    }

    fn get_coord(&self, col: usize) -> (coord: Coord) {
        Coord::new(self.row, col)
    }

    fn iter(&self) -> (range: core::ops::Range<usize>) {
        0..Row::max()
    }

    fn max(&self) -> (size: usize) {
        Row::max()
    }
}

impl core::convert::From<usize> for Row {
    fn from(row: usize) -> (r: Row) {
        Self::new(row)
    }
}

impl vstd::std_specs::convert::FromSpecImpl<usize> for Row {
    open spec fn obeys_from_spec() -> bool {
        true
    }

    open spec fn from_spec(row: usize) -> Row {
        Row { row }
    }
}

} // verus!
