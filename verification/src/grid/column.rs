//! The columns of the board.

use vstd::prelude::*;
use super::cell_collection::CellCollection;
use super::constants::GRID_WIDTH;
use super::coords::Coord;
use super::square::Square;

verus! {

/// A column of the board, its cells taken from top to bottom.
#[derive(Debug, Clone, Copy, PartialEq, Eq, Structural)]
pub struct Column {
    /// The index of the column, `0..9` for a column of the board.
    pub col: usize,
}

impl Column {
    /// The nine columns from left to right.
    pub open spec fn all() -> Seq<Column> {
        Seq::new(9, |i: int| Column { col: i as usize })
    }

    /// Creates the column with the given index.
    pub fn new(col: usize) -> (c: Column)
        ensures
            c.col == col,
    {
        Self { col }
    }

    /// Returns the box that the cell at row `index` of this column lies in.
    pub fn get_square(&self, index: usize) -> (square: Square)
        ensures
            square == Square::containing(index as int, self.col as int),
    {
        Square::from(index, self.col)
    }

    /// Returns the index of the column.
    pub fn col_index(&self) -> (col: usize)
        ensures
            col == self.col,
    {
        self.col
    }

    /// Returns the nine columns from left to right.
    pub fn iter_col() -> (columns: Vec<Column>)
        ensures
            columns@ == Column::all(),
    {
        let mut columns: Vec<Column> = Vec::new();
        let mut i: usize = 0;
        while i < GRID_WIDTH
            invariant
                i <= 9,
                columns@.len() == i,
                forall|k: int| 0 <= k < i ==> columns@[k] == (Column { col: k as usize }),
            decreases 9 - i,
        {
            columns.push(Column::new(i));
            i += 1;
        }
        assert(columns@ =~= Column::all());
        columns
    }
}

impl CellCollection for Column {
    open spec fn wf(&self) -> bool {
        self.col < 9
    }

    open spec fn size(&self) -> nat {
        9
    }

    open spec fn coord_at(&self, i: int) -> int {
        i * 9 + self.col
    }

    proof fn lemma_coords_in_grid(&self, i: int) {
    }

    fn get_coord(&self, index: usize) -> (coord: Coord) {
        Coord::new(index, self.col)
    }

    fn iter(&self) -> (range: core::ops::Range<usize>) {
        0..GRID_WIDTH
    }

    fn max(&self) -> (size: usize) {
        GRID_WIDTH
    }
}

} // verus!
