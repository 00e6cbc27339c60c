//! The records that a caller sends and gets: eighty-one numbers in, and
//! for each cell its value and its candidates out.

use vstd::prelude::*;
use crate::grid::cell::{word_possible, Cell};
use crate::grid::grid::Grid;
use crate::grid::mark::Mark;
use crate::solvers::solver::AnnotatedSolverResult;

verus! {

/// The grid that a caller sends: one number to a cell, zero for an open
/// cell.
#[derive(Debug)]
pub struct GridInput {
    /// The numbers, row by row.
    pub cells: Vec<i32>,
}

/// What a caller gets back.
#[derive(Debug)]
pub struct GridOutput {
    /// The number of rounds.
    pub iterations: u32,
    /// The place of the outcome in the order of outcomes.
    pub result: u32,
    /// The cells, row by row.
    pub cells: Vec<CellOutput>,
}

/// One cell of what a caller gets back.
#[derive(Debug)]
pub struct CellOutput {
    /// The low eight bits of the word of the cell; for a cell that holds a
    /// bare digit, the digit.
    pub value: u8,
    /// The candidates of the cell.
    pub possible: Possible,
}

/// The candidates of a cell, one flag to a digit.
#[derive(Debug)]
pub struct Possible {
    pub p1: bool,
    pub p2: bool,
    pub p3: bool,
    pub p4: bool,
    pub p5: bool,
    pub p6: bool,
    pub p7: bool,
    pub p8: bool,
    pub p9: bool,
}

/// The word of the cell that the number `v` stands for: a fresh cell for
/// zero, else the low sixteen bits of the number.
pub open spec fn input_word(v: i32) -> u16 {
    if v == 0 {
        0xFF80
    } else {
        (v as u16)
    }
}

impl GridInput {
    /// Returns whether the record holds eighty-one numbers.
    pub fn is_valid(&self) -> (valid: bool)
        ensures
            valid == (self.cells@.len() == 81),
    {
        if self.cells.len() != 81 {
            return false;
        }
        true
    }

    /// Returns the grid that the record stands for: each of the first
    /// eighty-one numbers gives a cell, numbers that are missing give
    /// fresh cells. No candidate is removed anywhere.
    pub fn to_grid(&self) -> (grid: Grid)
        ensures
            grid@ == Seq::new(
                81,
                |i: int|
                    if i < self.cells@.len() {
                        input_word(self.cells@[i])
                    } else {
                        0xFF80u16
                    },
            ),
    {
        let mut grid = Grid::new();
        let max = if self.cells.len() < 81 {
            self.cells.len()
        } else {
            81
        };
        let mut index: usize = 0;
        while index < max
            invariant
                index <= max,
                max <= 81,
                max <= self.cells@.len(),
                max == 81 || max == self.cells@.len(),
                grid@.len() == 81,
                forall|k: int| 0 <= k < index ==> #[trigger] grid@[k] == input_word(self.cells@[k]),
                forall|k: int| index <= k < 81 ==> #[trigger] grid@[k] == 0xFF80u16,
            decreases max - index,
        {
            let v = self.cells[index];
            let mut new_cell = Cell::new();
            if v != 0 {
                new_cell.set_value(#[verifier::truncate] (v as u16));
            }
            grid.set_cell(index, &new_cell);
            index += 1;
        }
        grid
    }
}

impl GridOutput {
    /// Returns the record of what a solve came to.
    pub fn from_grid(result: AnnotatedSolverResult) -> (output: GridOutput)
        ensures
            output.iterations == result.iterations as u32,
            output.result == result.result.rank(),
            output.cells@.len() == 81,
            forall|i: int| 0 <= i < 81 ==> cell_output_of(#[trigger] output.cells@[i], result.grid@[i]),
    {
        let mut cells: Vec<CellOutput> = Vec::new();
        let grid = result.grid;
        let mut index: usize = 0;
        while index < 81
            invariant
                index <= 81,
                grid@ == result.grid@,
                cells@.len() == index,
                forall|i: int| 0 <= i < index ==> cell_output_of(#[trigger] cells@[i], grid@[i]),
            decreases 81 - index,
        {
            let cell = grid.get_cell(index);
            let cell_output = CellOutput::from_cell(cell);
            cells.push(cell_output);
            index += 1;
        }
        GridOutput {
            iterations: #[verifier::truncate] (result.iterations as u32),
            result: result.result.ordinal() as u32,
            cells,
        }
    }
}

/// Whether `output` is the record of a cell with the word `w`.
pub open spec fn cell_output_of(output: CellOutput, w: u16) -> bool {
    &&& output.value == w as u8
    &&& possible_of(output.possible, w)
}

/// Whether `possible` holds the candidates of a cell with the word `w`.
pub open spec fn possible_of(possible: Possible, w: u16) -> bool {
    &&& possible.p1 == word_possible(w, Mark::N1)
    &&& possible.p2 == word_possible(w, Mark::N2)
    &&& possible.p3 == word_possible(w, Mark::N3)
    &&& possible.p4 == word_possible(w, Mark::N4)
    &&& possible.p5 == word_possible(w, Mark::N5)
    &&& possible.p6 == word_possible(w, Mark::N6)
    &&& possible.p7 == word_possible(w, Mark::N7)
    &&& possible.p8 == word_possible(w, Mark::N8)
    &&& possible.p9 == word_possible(w, Mark::N9)
}

impl CellOutput {
    /// Returns the record of `cell`.
    pub fn from_cell(cell: &Cell) -> (output: CellOutput)
        ensures
            cell_output_of(output, cell@),
    {
        CellOutput {
            value: #[verifier::truncate] (cell.get_value() as u8),
            possible: Possible::from_cell(cell),
        }
    }
}

impl Possible {
    /// Returns the candidates of `cell`.
    pub fn from_cell(cell: &Cell) -> (possible: Possible)
        ensures
            possible_of(possible, cell@),
    {
        Possible {
            p1: cell.is_possible(Mark::N1),
            p2: cell.is_possible(Mark::N2),
            p3: cell.is_possible(Mark::N3),
            p4: cell.is_possible(Mark::N4),
            p5: cell.is_possible(Mark::N5),
            p6: cell.is_possible(Mark::N6),
            p7: cell.is_possible(Mark::N7),
            p8: cell.is_possible(Mark::N8),
            p9: cell.is_possible(Mark::N9),
        }
    }
}

} // verus!
