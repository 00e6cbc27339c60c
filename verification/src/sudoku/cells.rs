//! The cell as a page shows it: a value, or a flag for each digit that is
//! still to be had.

use vstd::prelude::*;
use crate::grid::cell::{word_determined, word_possible, Cell as GridCell};
use crate::grid::grid::Grid;
use crate::grid::mark::Mark;
use crate::grid::utility::utility::place_tokens;

verus! {

/// One flag for each digit.
#[derive(Clone, Copy, Debug)]
pub struct Possibilities {
    pub p1: bool,
    pub p2: bool,
    pub p3: bool,
    pub p4: bool,
    pub p5: bool,
    pub p6: bool,
    pub p7: bool,
    pub p8: bool,
    pub p9: bool,
}

/// A cell as a page shows it.
#[derive(Clone, Copy, Debug)]
pub struct Cell {
    /// The value of the cell, zero for none.
    pub value: usize,
    /// The digits that the cell can still take.
    pub possibilities: Possibilities,
}

/// The word `w` with the bit `b` added if `on`.
pub open spec fn with_bit(w: u16, on: bool, b: u16) -> u16 {
    if on {
        w | b
    } else {
        w
    }
}

/// The candidate region that the flags stand for.
pub open spec fn flags_word(p: Possibilities) -> u16 {
    with_bit(
        with_bit(
            with_bit(
                with_bit(
                    with_bit(
                        with_bit(
                            with_bit(with_bit(with_bit(0, p.p1, 0x0080), p.p2, 0x0100), p.p3, 0x0200),
                            p.p4,
                            0x0400,
                        ),
                        p.p5,
                        0x0800,
                    ),
                    p.p6,
                    0x1000,
                ),
                p.p7,
                0x2000,
            ),
            p.p8,
            0x4000,
        ),
        p.p9,
        0x8000,
    )
}

/// Whether every flag is set.
pub open spec fn all_flags(p: Possibilities) -> bool {
    p.p1 && p.p2 && p.p3 && p.p4 && p.p5 && p.p6 && p.p7 && p.p8 && p.p9
}

/// Whether the flags are those of the candidates of the word `w`.
pub open spec fn flags_of(p: Possibilities, w: u16) -> bool {
    &&& p.p1 == word_possible(w, Mark::N1)
    &&& p.p2 == word_possible(w, Mark::N2)
    &&& p.p3 == word_possible(w, Mark::N3)
    &&& p.p4 == word_possible(w, Mark::N4)
    &&& p.p5 == word_possible(w, Mark::N5)
    &&& p.p6 == word_possible(w, Mark::N6)
    &&& p.p7 == word_possible(w, Mark::N7)
    &&& p.p8 == word_possible(w, Mark::N8)
    &&& p.p9 == word_possible(w, Mark::N9)
}

/// Whether `cell` shows a cell with the word `w`: the word as its value
/// and every flag set if the cell holds a value, else no value and the
/// flags of its candidates.
pub open spec fn shows(cell: Cell, w: u16) -> bool {
    if word_determined(w) {
        cell.value == w && all_flags(cell.possibilities)
    } else {
        cell.value == 0 && flags_of(cell.possibilities, w)
    }
}

/// Whether `cells` is a grid as a page sends it: eighty-one numbers, each
/// a digit or zero.
pub open spec fn is_input(cells: Seq<i32>) -> bool {
    cells.len() == 81 && forall|i: int| 0 <= i < 81 ==> 0 <= #[trigger] cells[i] <= 9
}

impl Cell {
    /// Creates a cell without a value and with every flag set.
    pub fn new() -> (cell: Cell)
        ensures
            cell.value == 0,
            all_flags(cell.possibilities),
    {
        Cell {
            value: 0,
            possibilities: Possibilities {
                p1: true,
                p2: true,
                p3: true,
                p4: true,
                p5: true,
                p6: true,
                p7: true,
                p8: true,
                p9: true,
            },
        }
    }

    /// Returns the grid that eighty-one numbers stand for: every digit is
    /// placed, with its consequences for the cells around it, and a zero
    /// leaves its cell open.
    pub fn to_sudoku_grid(cells: Vec<i32>) -> (grid: Grid)
        requires
            is_input(cells@),
        ensures
            grid@ == place_tokens(Seq::new(81, |i: int| cells@[i] as int), 81),
    {
        let mut grid = Grid::new();
        let ghost tokens = Seq::new(81, |i: int| cells@[i] as int);
        let mut i: usize = 0;
        while i < 81
            invariant
                i <= 81,
                is_input(cells@),
                tokens == Seq::new(81, |i: int| cells@[i] as int),
                grid@ == place_tokens(tokens, i as int),
            decreases 81 - i,
        {
            let v = cells[i];
            assert(tokens[i as int] == v);
            if v != 0 {
                grid.place_value(i, v as u16);
            }
            i += 1;
        }
        grid
    }

    /// Returns the eighty-one cells of `grid` as a page shows them.
    pub fn from_grid(grid: Grid) -> (cells: Vec<Cell>)
        ensures
            cells@.len() == 81,
            forall|i: int| 0 <= i < 81 ==> shows(#[trigger] cells@[i], grid@[i]),
    {
        let mut cells: Vec<Cell> = Vec::new();
        let mut i: usize = 0;
        while i < 81
            invariant
                i <= 81,
                cells@.len() == i,
                forall|k: int| 0 <= k < i ==> shows(#[trigger] cells@[k], grid@[k]),
            decreases 81 - i,
        {
            let c = grid.get_cell(i);
            let cell = Cell::from_sudoku(c);
            cells.push(cell);
            i += 1;
        }
        cells
    }

    /// Returns the cell of the grid that this cell stands for: its value
    /// as the word if it has one, else a cell without a value that offers
    /// the digits whose flags are set.
    pub fn to_sudoku(&self) -> (cell: GridCell)
        requires
            self.value <= u16::MAX,
        ensures
            cell@ == if self.value > 0 {
                self.value as u16
            } else {
                flags_word(self.possibilities)
            },
    {
        if self.value > 0 {
            return GridCell::new_with_value(self.value as u16);
        }
        let mut c = GridCell::new_empty();
        if self.possibilities.p1 {
            c.set_possible(Mark::N1)
        }
        if self.possibilities.p2 {
            c.set_possible(Mark::N2)
        }
        if self.possibilities.p3 {
            c.set_possible(Mark::N3)
        }
        if self.possibilities.p4 {
            c.set_possible(Mark::N4)
        }
        if self.possibilities.p5 {
            c.set_possible(Mark::N5)
        }
        if self.possibilities.p6 {
            c.set_possible(Mark::N6)
        }
        if self.possibilities.p7 {
            c.set_possible(Mark::N7)
        }
        if self.possibilities.p8 {
            c.set_possible(Mark::N8)
        }
        if self.possibilities.p9 {
            c.set_possible(Mark::N9)
        }
        c
    }

    /// Returns `c` as a page shows it.
    pub fn from_sudoku(c: &GridCell) -> (cell: Cell)
        ensures
            shows(cell, c@),
    {
        let mut cell = Cell::new();
        if c.is_determined() {
            cell.value = c.get_value() as usize;
            return cell;
        }
        cell.possibilities.p1 = c.is_possible(Mark::N1);
        cell.possibilities.p2 = c.is_possible(Mark::N2);
        cell.possibilities.p3 = c.is_possible(Mark::N3);
        cell.possibilities.p4 = c.is_possible(Mark::N4);
        cell.possibilities.p5 = c.is_possible(Mark::N5);
        cell.possibilities.p6 = c.is_possible(Mark::N6);
        cell.possibilities.p7 = c.is_possible(Mark::N7);
        cell.possibilities.p8 = c.is_possible(Mark::N8);
        cell.possibilities.p9 = c.is_possible(Mark::N9);
        cell
    }
}

} // verus!
