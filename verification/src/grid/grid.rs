//! The board: eighty-one cell words in row-major order.

use vstd::prelude::*;
use vstd::std_specs::cmp::PartialEqSpecImpl;
use super::cell::Cell;
use super::cell::{count_determined_words, lemma_mark_bits, word_determined, word_possible};
use super::grid_mask::{get_unset_influence_mask, unset_influence_word};
use super::cell_collection::CellCollection;
use super::column::Column;
use super::constants::GRID_SIZE;
use super::coords::Coord;
use super::mark::Mark;
use super::row::Row;
use super::square::Square;

verus! {

/// The board.
#[derive(Debug, Clone, Copy)]
pub struct Grid {
    /// The cells in row-major order.
    pub cells: [Cell; 81],
}

impl View for Grid {
    type V = Seq<u16>;

    /// The eighty-one cell words in row-major order.
    open spec fn view(&self) -> Seq<u16> {
        Seq::new(81, |i: int| self.cells[i].data)
    }
}

impl Grid {
    /// Creates a board of fresh cells: no value, all candidates.
    pub fn new() -> (grid: Grid)
        ensures
            grid@ == Seq::new(81, |i: int| 0xFF80u16),
    {
        let grid = Grid { cells: [Cell::new();81] };
        assert(grid@ =~= Seq::new(81, |i: int| 0xFF80u16));
        grid
    }

    /// Creates a board of empty cells: no value, no candidates.
    pub fn empty() -> (grid: Grid)
        ensures
            grid@ == Seq::new(81, |i: int| 0u16),
    {
        let grid = Grid { cells: [Cell::new_empty();81] };
        assert(grid@ =~= Seq::new(81, |i: int| 0u16));
        grid
    }

    /// Creates the board that holds `cells`.
    pub fn from(cells: [Cell; 81]) -> (grid: Grid)
        ensures
            grid.cells == cells,
    {
        Grid { cells }
    }

    /// Returns the cell at `index`.
    pub fn get_cell(&self, index: usize) -> (cell: &Cell)
        requires
            index < 81,
        ensures
            cell@ == self@[index as int],
            *cell == self.cells[index as int],
    {
        &self.cells[index]
    }

    /// Replaces the cell at `index`.
    pub fn set_cell(&mut self, index: usize, cell: &Cell)
        requires
            index < 81,
        ensures
            final(self)@ == old(self)@.update(index as int, cell@),
    {
        self.cells[index] = *cell;
        assert(self@ =~= old(self)@.update(index as int, cell@));
    }

    /// Returns the cell at `coord`.
    pub fn get_cell_at(&self, coord: Coord) -> (cell: &Cell)
        ensures
            0 <= coord@ < 81,
            cell@ == self@[coord@],
    {
        self.get_cell(coord.get_index())
    }

    /// Replaces the cell at `coord`.
    pub fn set_cell_at(&mut self, coord: Coord, cell: &Cell)
        ensures
            0 <= coord@ < 81,
            final(self)@ == old(self)@.update(coord@, cell@),
    {
        self.set_cell(coord.get_index(), cell);
    }

    /// Returns the box that the cell at `coord` lies in.
    pub fn get_square_at(&self, coord: Coord) -> (square: Square)
        ensures
            square == Square::containing(coord.row(), coord.col()),
            square.is_box(),
            square.has_row(coord.row()),
            square.has_col(coord.col()),
    {
        let (row, col) = coord.get_row_col();
        Square::from(row, col)
    }

    /// Returns the box that the cell at (`row`, `col`) lies in.
    pub fn get_square(&self, row: usize, col: usize) -> (square: Square)
        ensures
            square == Square::containing(row as int, col as int),
            row < 9 && col < 9 ==> square.is_box(),
    {
        Square::from(row, col)
    }

    /// Returns whether `mark` is a candidate of the cell at `coord`.
    pub fn is_possible_at(&self, coord: Coord, mark: Mark) -> (possible: bool)
        ensures
            0 <= coord@ < 81,
            possible == word_possible(self@[coord@], mark),
    {
        self.get_cell_at(coord).is_possible(mark)
    }

    /// Returns whether `mark` is a candidate of the cell at `index`; the
    /// board stays as it is.
    pub fn is_possible(&mut self, index: usize, mark: Mark) -> (possible: bool)
        requires
            index < 81,
        ensures
            possible == word_possible(old(self)@[index as int], mark),
            *final(self) == *old(self),
    {
        self.get_cell(index).is_possible(mark)
    }

    /// Adds `mark` to the candidates of the cell at `coord`, unless the cell
    /// holds a value.
    pub fn set_possible_at(&mut self, coord: Coord, mark: Mark)
        ensures
            0 <= coord@ < 81,
            final(self)@ == set_possible_spec(old(self)@, coord@, mark),
    {
        self.set_possible(coord.get_index(), mark);
    }

    /// Removes `mark` from the candidates of the cell at `coord`.
    pub fn unset_possible_at(&mut self, coord: Coord, mark: Mark)
        ensures
            0 <= coord@ < 81,
            final(self)@ == unset_possible_spec(old(self)@, coord@, mark),
    {
        self.unset_possible(coord.get_index(), mark);
    }

    /// Removes `mark` from the candidates of the cell at `index`.
    pub fn unset_possible(&mut self, index: usize, mark: Mark)
        requires
            index < 81,
        ensures
            final(self)@ == unset_possible_spec(old(self)@, index as int, mark),
    {
        let mut new_cell = *self.get_cell(index);
        new_cell.unset_possible(mark);
        self.set_cell(index, &new_cell);
    }

    /// Adds `mark` to the candidates of the cell at `index`, unless the cell
    /// holds a value.
    pub fn set_possible(&mut self, index: usize, mark: Mark)
        requires
            index < 81,
        ensures
            final(self)@ == set_possible_spec(old(self)@, index as int, mark),
    {
        let mut new_cell = *self.get_cell(index);
        new_cell.set_possible(mark);
        proof {
            let w = self@[index as int];
            let b = mark.bit();
            lemma_mark_bits(mark, mark);
            assert((w | b) & 0x000F == w & 0x000F) by (bit_vector)
                requires
                    b & 0x000F == 0,
            ;
        }
        if !new_cell.is_determined() {
            self.set_cell(index, &new_cell);
        }
    }

    /// Returns the nine rows from top to bottom.
    pub fn iter_rows(&self) -> (rows: Vec<Row>)
        ensures
            rows@ == Row::all(),
    {
        Row::iter_row()
    }

    /// Returns the nine columns from left to right.
    pub fn iter_columns(&self) -> (columns: Vec<Column>)
        ensures
            columns@ == Column::all(),
    {
        Column::iter_col()
    }

    /// Returns the nine boxes, row by row.
    pub fn iter_squares(&self) -> (squares: Vec<Square>)
        ensures
            squares@ == Square::all(),
    {
        Square::iter_squares()
    }

    /// Returns the number of cells that hold a value.
    pub fn count_determined(&self) -> (count: usize)
        ensures
            count == count_determined_words(self@, 81),
            count <= 81,
    {
        let mut sum: usize = 0;
        let mut index: usize = 0;
        while index < 81
            invariant
                index <= 81,
                sum <= index,
                sum == count_determined_words(self@, index as int),
            decreases 81 - index,
        {
            if self.cells[index].is_determined() {
                sum += 1;
            }
            index += 1;
        }
        sum
    }

    /// Copies every cell of this board to `to`.
    pub fn clone_to(&self, to: &mut Grid)
        ensures
            final(to)@ == self@,
    {
        let mut index: usize = 0;
        while index < 81
            invariant
                index <= 81,
                to@.len() == 81,
                forall|i: int| 0 <= i < index ==> to@[i] == self@[i],
            decreases 81 - index,
        {
            to.set_cell(index, self.get_cell(index));
            index += 1;
        }
        assert(to@ =~= self@);
    }

    /// Gives the cell at `index` the digit `value` and removes that digit
    /// from the candidates of its peers.
    pub fn place_value(&mut self, index: usize, value: u16)
        requires
            index < 81,
            1 <= value <= 9,
        ensures
            final(self)@ == place_spec(old(self)@, index as int, Mark::of_value(value as int)),
    {
        let coord = Coord::from_index(index);
        self.place_value_at(coord, value);
    }

    /// Gives the cell at `coord` the digit `value` and removes that digit
    /// from the candidates of its peers. No other cell changes.
    pub fn place_value_at(&mut self, coord: Coord, value: u16)
        requires
            1 <= value <= 9,
        ensures
            0 <= coord@ < 81,
            final(self)@ == place_spec(old(self)@, coord@, Mark::of_value(value as int)),
    {
        self.set_cell_at(coord, &Cell::new_with_value(value));
        proof {
            Mark::lemma_value_of_value(value as int);
        }
        self.mark_off(coord, value);
    }

    /// Applies the mask that removes the digit `value` around `coord`: the
    /// cell at `coord` loses all candidates, each of its peers loses the
    /// candidate `value`.
    pub fn mark_off(&mut self, coord: Coord, value: u16)
        requires
            1 <= value <= 9,
        ensures
            0 <= coord@ < 81,
            final(self)@ == mark_off_spec(old(self)@, coord@, Mark::of_value(value as int)),
    {
        let mask = get_unset_influence_mask(coord, value);
        self.apply_mask(&mask);
        assert(self@ =~= mark_off_spec(old(self)@, coord@, Mark::of_value(value as int)));
    }

    /// Replaces every cell by its bitwise and with the cell of `mask` at
    /// the same place.
    pub fn apply_mask(&mut self, mask: &Grid)
        ensures
            final(self)@ == and_spec(old(self)@, mask@),
    {
        let mut index: usize = 0;
        while index < 81
            invariant
                index <= 81,
                self@.len() == 81,
                forall|i: int|
                    0 <= i < index ==> #[trigger] self@[i] == old(self)@[i] & mask@[i],
                forall|i: int| index <= i < 81 ==> #[trigger] self@[i] == old(self)@[i],
            decreases 81 - index,
        {
            let cell = *self.get_cell(index) & *mask.get_cell(index);
            self.set_cell(index, &cell);
            index += 1;
        }
        assert(self@ =~= and_spec(old(self)@, mask@));
    }

    /// Removes `mark` from the candidates of every cell of the row `row`.
    pub fn mark_off_row(&mut self, row: usize, mark: Mark)
        requires
            row < 9,
        ensures
            final(self)@ == unset_area_spec(old(self)@, &Row { row }, mark, 9),
    {
        self.unset_possible_area(&Row::new(row), mark);
    }

    /// Removes `mark` from the candidates of every cell of the column `col`.
    pub fn mark_off_column(&mut self, col: usize, mark: Mark)
        requires
            col < 9,
        ensures
            final(self)@ == unset_area_spec(old(self)@, &Column { col }, mark, 9),
    {
        self.unset_possible_area(&Column::new(col), mark);
    }

    /// Removes `mark` from the candidates of every cell of `square`.
    pub fn mark_off_square(&mut self, square: &Square, mark: Mark)
        requires
            square.wf(),
        ensures
            final(self)@ == unset_area_spec(old(self)@, square, mark, 9),
    {
        self.unset_possible_area(square, mark);
    }

    /// Removes `mark` from the candidates of every cell of `area`.
    pub fn unset_possible_area<T: CellCollection>(&mut self, area: &T, mark: Mark)
        requires
            area.wf(),
        ensures
            final(self)@ == unset_area_spec(old(self)@, area, mark, area.size() as int),
    {
        let mut mask = Cell::mask();
        mask = mask & Cell::new_with_value(!mark.to_data());
        proof {
            let b = mark.bit();
            assert(0xFFFFu16 & !b == !b) by (bit_vector);
        }
        let n = area.max();
        let mut index: usize = 0;
        while index < n
            invariant
                area.wf(),
                n == area.size(),
                index <= n,
                mask@ == !mark.bit(),
                self@.len() == 81,
                self@ == unset_area_spec(old(self)@, area, mark, index as int),
            decreases n - index,
        {
            let coord = area.get_coord(index);
            let cell = *self.get_cell_at(coord) & mask;
            self.set_cell_at(coord, &cell);
            index += 1;
        }
    }

    /// Replaces every cell of `area` by `cell`.
    pub fn set_cell_area<T: CellCollection>(&mut self, area: &T, cell: &Cell)
        requires
            area.wf(),
        ensures
            final(self)@ == set_area_spec(old(self)@, area, cell@, area.size() as int),
    {
        let n = area.max();
        let mut index: usize = 0;
        while index < n
            invariant
                area.wf(),
                n == area.size(),
                index <= n,
                self@.len() == 81,
                self@ == set_area_spec(old(self)@, area, cell@, index as int),
            decreases n - index,
        {
            let coord = area.get_coord(index);
            self.set_cell_at(coord, cell);
            index += 1;
        }
    }
}

/// The board `g` with `mark` removed from the candidates of the cell `c`.
pub open spec fn unset_possible_spec(g: Seq<u16>, c: int, mark: Mark) -> Seq<u16> {
    g.update(c, g[c] & !mark.bit())
}

/// The board `g` with `mark` added to the candidates of the cell `c`,
/// unless that cell holds a value.
pub open spec fn set_possible_spec(g: Seq<u16>, c: int, mark: Mark) -> Seq<u16> {
    if word_determined(g[c]) {
        g
    } else {
        g.update(c, g[c] | mark.bit())
    }
}

/// The cell-wise bitwise and of two boards.
pub open spec fn and_spec(g: Seq<u16>, mask: Seq<u16>) -> Seq<u16> {
    Seq::new(81, |i: int| g[i] & mask[i])
}

/// The board `g` after the mask that removes `mark` around `c`.
pub open spec fn mark_off_spec(g: Seq<u16>, c: int, mark: Mark) -> Seq<u16> {
    Seq::new(81, |i: int| g[i] & unset_influence_word(i, c, mark))
}

/// The board `g` after the digit of `mark` was placed at `c`: the cell `c`
/// holds the bare digit, each peer of `c` has lost the candidate, every
/// other cell is as before.
pub open spec fn place_spec(g: Seq<u16>, c: int, mark: Mark) -> Seq<u16> {
    mark_off_spec(g.update(c, mark.value() as u16), c, mark)
}

/// After the digit of `mark` was placed at `c`, the cell `c` reads as that
/// digit, no peer of `c` offers the digit any more, each peer is otherwise
/// as it was, and every cell that shares no area with `c` is untouched.
pub proof fn lemma_place_reads(g: Seq<u16>, c: int, mark: Mark, i: int)
    requires
        g.len() == 81,
        0 <= c < 81,
        0 <= i < 81,
    ensures
        place_spec(g, c, mark).len() == 81,
        place_spec(g, c, mark)[c] == mark.value(),
        word_determined(place_spec(g, c, mark)[c]),
        crate::grid::cell::word_candidates(place_spec(g, c, mark)[c]) == 0,
        crate::grid::grid_mask::is_peer(i, c) ==> !word_possible(place_spec(g, c, mark)[i], mark)
            && place_spec(g, c, mark)[i] == g[i] & !mark.bit(),
        !crate::grid::grid_mask::influences(i, c) ==> place_spec(g, c, mark)[i] == g[i],
{
    let d = mark.value() as u16;
    let b = mark.bit();
    let w = g[i];
    crate::grid::cell::lemma_digit_word(d, 0);
    assert(d & 0x007F == d) by (bit_vector)
        requires
            1 <= d <= 9,
    ;
    assert((w & !b) & b == 0 && w & 0xFFFF == w) by (bit_vector);
}

/// The board `g` with `mark` removed from the first `n` cells of `area`.
pub open spec fn unset_area_spec<T: CellCollection>(
    g: Seq<u16>,
    area: &T,
    mark: Mark,
    n: int,
) -> Seq<u16>
    decreases n,
{
    if n <= 0 {
        g
    } else {
        unset_possible_spec(unset_area_spec(g, area, mark, n - 1), area.coord_at(n - 1), mark)
    }
}

/// The board `g` with the first `n` cells of `area` replaced by `word`.
pub open spec fn set_area_spec<T: CellCollection>(
    g: Seq<u16>,
    area: &T,
    word: u16,
    n: int,
) -> Seq<u16>
    decreases n,
{
    if n <= 0 {
        g
    } else {
        set_area_spec(g, area, word, n - 1).update(area.coord_at(n - 1), word)
    }
}

impl Default for Grid {
    fn default() -> (grid: Grid)
        ensures
            grid@ == Seq::new(81, |i: int| 0xFF80u16),
    {
        Self::new()
    }
}

impl CellCollection for Grid {
    open spec fn wf(&self) -> bool {
        true
    }

    open spec fn size(&self) -> nat {
        81
    }

    open spec fn coord_at(&self, i: int) -> int {
        i
    }

    proof fn lemma_coords_in_grid(&self, i: int) {
    }

    fn get_coord(&self, index: usize) -> (coord: Coord) {
        Coord::from_index(index)
    }

    fn max(&self) -> (size: usize) {
        GRID_SIZE
    }

    fn iter(&self) -> (range: core::ops::Range<usize>) {
        0..GRID_SIZE
    }
}

impl PartialEq for Grid {
    fn eq(&self, other: &Grid) -> (equal: bool) {
        let mut index: usize = 0;
        while index < 81
            invariant
                index <= 81,
                forall|i: int| 0 <= i < index ==> self@[i] == other@[i],
            decreases 81 - index,
        {
            if self.cells[index].data != other.cells[index].data {
                assert(self@[index as int] != other@[index as int]);
                return false;
            }
            index += 1;
        }
        assert(self@ =~= other@);
        true
    }
}

impl PartialEqSpecImpl for Grid {
    open spec fn obeys_eq_spec() -> bool {
        true
    }

    open spec fn eq_spec(&self, other: &Grid) -> bool {
        self@ == other@
    }
}

} // verus!
