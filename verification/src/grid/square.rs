//! The three-by-three boxes of the board.

use vstd::prelude::*;
use super::cell_collection::CellCollection;
use super::column::Column;
use super::coords::Coord;
use super::row::Row;

verus! {

/// A three-by-three block of cells, named by its top-left corner and taken
/// row by row. The nine boxes of the board are the blocks whose corner lies
/// on multiples of three.
#[derive(Debug, Clone, Copy, PartialEq, Eq, Structural)]
pub struct Square {
    /// The row that the block starts at.
    pub row: usize,
    /// The column that the block starts at.
    pub col: usize,
}

impl Square {
    /// The box of the board that the cell at (`row`, `col`) lies in.
    pub open spec fn containing(row: int, col: int) -> Square {
        Square { row: (row - row % 3) as usize, col: (col - col % 3) as usize }
    }

    /// The box with the given index, the boxes counted row by row.
    pub open spec fn of_index(index: int) -> Square {
        Square { row: (index / 3 * 3) as usize, col: (index % 3 * 3) as usize }
    }

    /// The nine boxes of the board, row by row.
    pub open spec fn all() -> Seq<Square> {
        Seq::new(9, |i: int| Square::of_index(i))
    }

    /// Whether the block is one of the nine boxes of the board.
    pub open spec fn is_box(self) -> bool {
        self.row % 3 == 0 && self.col % 3 == 0 && self.row < 9 && self.col < 9
    }

    /// Whether the block holds the row `row`.
    pub open spec fn has_row(self, row: int) -> bool {
        self.row <= row < self.row + 3
    }

    /// Whether the block holds the column `col`.
    pub open spec fn has_col(self, col: int) -> bool {
        self.col <= col < self.col + 3
    }

    /// Creates the block with the given top-left corner.
    pub fn new(row: usize, col: usize) -> (square: Square)
        ensures
            square.row == row,
            square.col == col,
    {
        Self { row, col }
    }

    /// Creates the box that the cell at (`row`, `col`) lies in.
    pub fn from(row: usize, col: usize) -> (square: Square)
        ensures
            square == Square::containing(row as int, col as int),
            row < 9 && col < 9 ==> square.is_box() && square.has_row(row as int) && square.has_col(
                col as int,
            ),
    {
        let row_offset = row - row % 3;
        let col_offset = col - col % 3;
        Square::new(row_offset, col_offset)
    }

    /// Returns the coordinate of the top-left corner, which must lie in
    /// the grid.
    pub fn get_coord_start(&self) -> (coord: Coord)
        requires
            self.row * 9 + self.col < 81,
        ensures
            coord@ == self.row * 9 + self.col,
    {
        Coord::new(self.row, self.col)
    }

    /// Returns the coordinate `row` rows below and `col` columns right of
    /// the top-left corner, which must lie in the grid.
    pub fn get_coord_at(&self, row: usize, col: usize) -> (coord: Coord)
        requires
            (self.row + row) * 9 + self.col + col < 81,
        ensures
            coord@ == (self.row + row) * 9 + self.col + col,
    {
        Coord::new(self.row + row, self.col + col)
    }

    /// Returns whether the block holds the column `col`.
    pub fn is_column_in_square(&self, col: usize) -> (inside: bool)
        ensures
            inside == self.has_col(col as int),
    {
        col >= self.col && col - self.col < 3
    }

    /// Returns whether the block holds the row `row`.
    pub fn is_row_in_square(&self, row: usize) -> (inside: bool)
        ensures
            inside == self.has_row(row as int),
    {
        row >= self.row && row - self.row < 3
    }

    /// Returns whether the block holds the cell at `coord`.
    pub fn is_coord_in_square(&self, coord: Coord) -> (inside: bool)
        ensures
            inside == (self.has_row(coord.row()) && self.has_col(coord.col())),
    {
        self.is_row_in_square(coord.get_row()) && self.is_column_in_square(coord.get_col())
    }

    /// Returns the position of a cell counted from the top-left corner of
    /// the block, three to a row; the cell must lie neither above nor left
    /// of the corner. For a cell that the block holds it is the position
    /// `0..9` inside the block.
    pub fn get_index(&self, coord: Coord) -> (index: usize)
        requires
            coord.row() >= self.row,
            coord.col() >= self.col,
        ensures
            index == (coord.row() - self.row) * 3 + (coord.col() - self.col),
            self.has_row(coord.row()) && self.has_col(coord.col()) ==> index < 9,
            self.has_row(coord.row()) && self.has_col(coord.col()) && self.row + 2 < 9 && self.col
                + 2 < 9 ==> self.coord_at(index as int) == coord@,
    {
        let row = coord.get_row() - self.row;
        let col = coord.get_col() - self.col;
        row * 3 + col
    }

    /// Returns the box with the given index, the boxes counted row by row.
    pub fn from_square_index(index: usize) -> (square: Square)
        requires
            index < 9,
        ensures
            square == Square::of_index(index as int),
            square.is_box(),
    {
        let row = index / 3;
        let col = index % 3;
        Square::new(row * 3, col * 3)
    }

    /// Returns the index of a block, the boxes counted row by row: three
    /// times the band of its row and the band of its column. For a block
    /// that begins inside the grid that is a number under nine, and for a
    /// box it is the index of the box. The sum must fit.
    pub fn to_square_index(&self) -> (index: usize)
        requires
            self.row / 3 * 3 + self.col / 3 <= usize::MAX,
        ensures
            index == self.row / 3 * 3 + self.col / 3,
            self.row < 9 && self.col < 9 ==> index < 9,
            self.is_box() ==> Square::of_index(index as int) == *self,
    {
        let row = self.row / 3;
        let col = self.col / 3;
        row * 3 + col
    }

    /// Returns the indices of the boxes, `0..9`.
    pub fn iter() -> (range: core::ops::Range<usize>)
        ensures
            range.start == 0,
            range.end == 9,
    {
        0..9
    }

    /// Returns the top-left corners of the nine boxes, row by row.
    pub fn iter_coords() -> (coords: Vec<Coord>)
        ensures
            coords@.len() == 9,
            forall|i: int|
                0 <= i < 9 ==> (#[trigger] coords@[i])@ == Square::of_index(i).row * 9
                    + Square::of_index(i).col,
    {
        let mut coords: Vec<Coord> = Vec::new();
        let mut i: usize = 0;
        while i < 9
            invariant
                i <= 9,
                coords@.len() == i,
                forall|k: int|
                    0 <= k < i ==> (#[trigger] coords@[k])@ == Square::of_index(k).row * 9
                        + Square::of_index(k).col,
            decreases 9 - i,
        {
            coords.push(Square::from_square_index(i).get_coord_start());
            i += 1;
        }
        coords
    }

    /// Returns the nine boxes of the board, row by row.
    pub fn iter_squares() -> (squares: Vec<Square>)
        ensures
            squares@ == Square::all(),
    {
        let mut squares: Vec<Square> = Vec::new();
        let mut i: usize = 0;
        while i < 9
            invariant
                i <= 9,
                squares@.len() == i,
                forall|k: int| 0 <= k < i ==> squares@[k] == Square::of_index(k),
            decreases 9 - i,
        {
            squares.push(Square::from_square_index(i));
            i += 1;
        }
        assert(squares@ =~= Square::all());
        squares
    }

    /// Returns the three rows that cross the block, from top to bottom.
    /// Their numbers must fit.
    pub fn iter_rows(&self) -> (rows: Vec<Row>)
        requires
            self.row + 2 <= usize::MAX,
        ensures
            rows@ == Seq::new(3, |i: int| Row { row: (self.row + i) as usize }),
    {
        let row = self.row;
        let mut rows: Vec<Row> = Vec::new();
        rows.push(Row::new(row));
        rows.push(Row::new(row + 1));
        rows.push(Row::new(row + 2));
        assert(rows@ =~= Seq::new(3, |i: int| Row { row: (self.row + i) as usize }));
        rows
    }

    /// Returns the three columns that cross the block, from left to right.
    /// Their numbers must fit.
    pub fn iter_columns(&self) -> (columns: Vec<Column>)
        requires
            self.col + 2 <= usize::MAX,
        ensures
            columns@ == Seq::new(3, |i: int| Column { col: (self.col + i) as usize }),
    {
        let col = self.col;
        let mut columns: Vec<Column> = Vec::new();
        columns.push(Column::new(col));
        columns.push(Column::new(col + 1));
        columns.push(Column::new(col + 2));
        assert(columns@ =~= Seq::new(3, |i: int| Column { col: (self.col + i) as usize }));
        columns
    }
}

impl CellCollection for Square {
    open spec fn wf(&self) -> bool {
        self.row + 2 < 9 && self.col + 2 < 9
    }

    open spec fn size(&self) -> nat {
        9
    }

    open spec fn coord_at(&self, i: int) -> int {
        (self.row + i / 3) * 9 + self.col + i % 3
    }

    proof fn lemma_coords_in_grid(&self, i: int) {
    }

    fn get_coord(&self, index: usize) -> (coord: Coord) {
        let row = self.row + index / 3;
        let col = self.col + index % 3;
        Coord::new(row, col)
    }

    fn iter(&self) -> (range: core::ops::Range<usize>) {
        0..9
    }

    fn max(&self) -> (size: usize) {
        9
    }
}

impl Default for Square {
    fn default() -> (square: Square)
        ensures
            square == (Square { row: 0, col: 0 }),
    {
        Self { row: 0, col: 0 }
    }
}

} // verus!
