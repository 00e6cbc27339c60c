//! The checks on the shape of a grid: every cell sound, and in every row,
//! column and box every digit either placed once or still to be had.

use vstd::prelude::*;
use crate::grid::cell::{
    count_possible_words, word_determined, word_is_digit, word_marks, Cell,
};
use crate::grid::cell_collection::{area_words, CellCollection};
use crate::grid::column::Column;
use crate::grid::coords::Coord;
use crate::grid::grid::Grid;
use crate::grid::mark::Mark;
use crate::grid::row::Row;
use crate::grid::slice::{count_value_words, padded, Slice};
use crate::grid::square::Square;
use super::determined_solver::{areas_wf, lemma_board_areas_wf};

verus! {

/// What is wrong with a grid. Cells are named by their row-major index,
/// areas by the indices of their first and last cell.
#[derive(Debug, Clone, Copy, PartialEq, Eq, Structural)]
pub enum ValidationError {
    /// A cell holds a value, and its word is not a bare digit.
    InvalidValue { index: usize, value: u16 },
    /// A cell has neither a value nor a candidate.
    NoPossible { index: usize },
    /// An area holds a digit more than once.
    Duplicate { mark: Mark, first: usize, last: usize },
    /// An area holds a digit and still offers it as a candidate.
    DeterminedPossible { mark: Mark, first: usize, last: usize },
    /// An area neither holds a digit nor offers it.
    NoPlace { mark: Mark, first: usize, last: usize },
    /// A cell that should hold a value holds none.
    NotDetermined { index: usize },
    /// The word of a cell is not found exactly once in its row.
    RowCount { index: usize },
    /// The word of a cell is not found exactly once in its column.
    ColumnCount { index: usize },
    /// The word of a cell is not found exactly once in its box.
    SquareCount { index: usize },
}

/// What is wrong with the word `w` of the cell `index`, if anything: a
/// value that is no bare digit, or neither value nor candidate.
pub open spec fn cell_fault(w: u16, index: int) -> Option<ValidationError> {
    if word_determined(w) {
        if word_is_digit(w) {
            None
        } else {
            Some(ValidationError::InvalidValue { index: index as usize, value: w })
        }
    } else if word_marks(w).len() == 0 {
        Some(ValidationError::NoPossible { index: index as usize })
    } else {
        None
    }
}

/// What is wrong with the digit of `mark` in an area with the words
/// `words`, if anything.
pub open spec fn mark_fault(words: Seq<u16>, mark: Mark, first: int, last: int) -> Option<
    ValidationError,
> {
    let determined = count_value_words(words, mark.value() as u16, 16);
    let possible = count_possible_words(words, mark, 16) > 0;
    if determined > 1 {
        Some(ValidationError::Duplicate { mark, first: first as usize, last: last as usize })
    } else if determined == 1 && possible {
        Some(
            ValidationError::DeterminedPossible {
                mark,
                first: first as usize,
                last: last as usize,
            },
        )
    } else if determined == 0 && !possible {
        Some(ValidationError::NoPlace { mark, first: first as usize, last: last as usize })
    } else {
        None
    }
}

/// The first thing wrong among the digits `1..=k` in an area.
pub open spec fn marks_fault(words: Seq<u16>, first: int, last: int, k: int) -> Option<
    ValidationError,
>
    decreases k,
{
    if k <= 0 {
        None
    } else {
        match marks_fault(words, first, last, k - 1) {
            Some(e) => Some(e),
            None => mark_fault(words, Mark::of_value(k), first, last),
        }
    }
}

/// The first thing wrong in `area`.
pub open spec fn area_fault<T: CellCollection>(g: Seq<u16>, area: &T) -> Option<ValidationError> {
    marks_fault(
        padded(area_words(area, g)),
        area.coord_at(0),
        area.coord_at(area.size() - 1),
        9,
    )
}

/// The first thing wrong among the cells `0..n`.
pub open spec fn cells_fault(g: Seq<u16>, n: int) -> Option<ValidationError>
    decreases n,
{
    if n <= 0 {
        None
    } else {
        match cells_fault(g, n - 1) {
            Some(e) => Some(e),
            None => cell_fault(g[n - 1], n - 1),
        }
    }
}

/// The first thing wrong among the first `n` of `areas`.
pub open spec fn areas_fault<T: CellCollection>(g: Seq<u16>, areas: Seq<T>, n: int) -> Option<
    ValidationError,
>
    decreases n,
{
    if n <= 0 {
        None
    } else {
        match areas_fault(g, areas, n - 1) {
            Some(e) => Some(e),
            None => area_fault(g, &areas[n - 1]),
        }
    }
}

/// The first thing wrong with the grid `g`: the cells are looked at first,
/// then the rows, the columns and the boxes.
pub open spec fn grid_fault(g: Seq<u16>) -> Option<ValidationError> {
    match cells_fault(g, 81) {
        Some(e) => Some(e),
        None => match areas_fault(g, Row::all(), 9) {
            Some(e) => Some(e),
            None => match areas_fault(g, Column::all(), 9) {
                Some(e) => Some(e),
                None => areas_fault(g, Square::all(), 9),
            },
        },
    }
}

/// Whether the grid `g` has the shape of a grid: nothing is wrong with it.
pub open spec fn grid_valid(g: Seq<u16>) -> bool {
    grid_fault(g).is_none()
}

/// Whether the word is sound: a bare digit, or no value and a candidate.
pub open spec fn cell_valid(w: u16) -> bool {
    if word_determined(w) {
        word_is_digit(w)
    } else {
        word_marks(w).len() > 0
    }
}

/// Whether the digit of `mark` is in order in an area with the words
/// `words`: placed once and offered nowhere, or placed nowhere and offered.
pub open spec fn mark_valid(words: Seq<u16>, mark: Mark) -> bool {
    let determined = count_value_words(words, mark.value() as u16, 16);
    let possible = count_possible_words(words, mark, 16) > 0;
    (determined == 1 && !possible) || (determined == 0 && possible)
}

/// Whether every digit is in order in `area`.
pub open spec fn area_valid<T: CellCollection>(g: Seq<u16>, area: &T) -> bool {
    forall|mark: Mark| #[trigger] mark_valid(padded(area_words(area, g)), mark)
}

/// Nothing is wrong among the digits `1..=k` exactly where each of them is
/// in order.
pub proof fn lemma_marks_fault(words: Seq<u16>, first: int, last: int, k: int)
    requires
        0 <= k <= 9,
    ensures
        marks_fault(words, first, last, k).is_none() <==> (forall|mark: Mark|
            mark.value() <= k ==> #[trigger] mark_valid(words, mark)),
    decreases k,
{
    if k > 0 {
        lemma_marks_fault(words, first, last, k - 1);
        Mark::lemma_value_of_value(k);
        if marks_fault(words, first, last, k).is_none() {
            assert forall|mark: Mark| mark.value() <= k implies #[trigger] mark_valid(
                words,
                mark,
            ) by {
                Mark::lemma_round_trip(mark);
            }
        } else {
            if marks_fault(words, first, last, k - 1).is_none() {
                assert(!mark_valid(words, Mark::of_value(k)));
            }
        }
    } else {
        assert forall|mark: Mark| mark.value() <= k implies #[trigger] mark_valid(words, mark) by {
            Mark::lemma_round_trip(mark);
        }
    }
}

/// Nothing is wrong in an area exactly where every digit is in order in
/// it.
pub proof fn lemma_area_fault<T: CellCollection>(g: Seq<u16>, area: &T)
    ensures
        area_fault(g, area).is_none() <==> area_valid(g, area),
{
    let words = padded(area_words(area, g));
    lemma_marks_fault(words, area.coord_at(0), area.coord_at(area.size() - 1), 9);
    if area_fault(g, area).is_none() {
        assert forall|mark: Mark| #[trigger] mark_valid(words, mark) by {
            Mark::lemma_round_trip(mark);
        }
    }
}

/// Nothing is wrong among the cells `0..n` exactly where each is sound,
/// and nothing among the first `n` areas exactly where every digit is in
/// order in each.
pub proof fn lemma_folds_fault<T: CellCollection>(g: Seq<u16>, areas: Seq<T>, n: int, m: int)
    requires
        0 <= n,
        0 <= m,
    ensures
        cells_fault(g, n).is_none() <==> (forall|i: int| 0 <= i < n ==> cell_valid(#[trigger] g[i])),
        areas_fault(g, areas, m).is_none() <==> (forall|i: int|
            0 <= i < m ==> area_valid(g, &#[trigger] areas[i])),
    decreases n + m,
{
    if n > 0 {
        lemma_folds_fault(g, areas, n - 1, 0);
    }
    if m > 0 {
        lemma_folds_fault(g, areas, 0, m - 1);
        lemma_area_fault(g, &areas[m - 1]);
    }
}

/// A grid has the shape of a grid exactly where every cell is sound and
/// every digit is in order in every row, column and box.
pub proof fn lemma_grid_valid(g: Seq<u16>)
    ensures
        grid_valid(g) <==> ((forall|i: int| 0 <= i < 81 ==> cell_valid(#[trigger] g[i]))
            && (forall|i: int| 0 <= i < 9 ==> area_valid(g, &#[trigger] Row::all()[i]))
            && (forall|i: int| 0 <= i < 9 ==> area_valid(g, &#[trigger] Column::all()[i]))
            && (forall|i: int| 0 <= i < 9 ==> area_valid(g, &#[trigger] Square::all()[i]))),
{
    lemma_folds_fault(g, Row::all(), 81, 9);
    lemma_folds_fault(g, Column::all(), 81, 9);
    lemma_folds_fault(g, Square::all(), 81, 9);
}

/// In a grid that has the shape of a grid every digit has its place in
/// every row, column and box: either exactly one cell of the area holds
/// the digit, or at least one cell offers it.
pub proof fn lemma_valid_grid_has_places(g: Seq<u16>, k: int, mark: Mark)
    requires
        grid_valid(g),
        0 <= k < 9,
    ensures
        count_value_words(
            padded(area_words(&Row { row: k as usize }, g)),
            mark.value() as u16,
            16,
        ) == 1 || count_possible_words(padded(area_words(&Row { row: k as usize }, g)), mark, 16)
            > 0,
        count_value_words(
            padded(area_words(&Column { col: k as usize }, g)),
            mark.value() as u16,
            16,
        ) == 1 || count_possible_words(
            padded(area_words(&Column { col: k as usize }, g)),
            mark,
            16,
        ) > 0,
        count_value_words(padded(area_words(&Square::of_index(k), g)), mark.value() as u16, 16)
            == 1 || count_possible_words(padded(area_words(&Square::of_index(k), g)), mark, 16)
            > 0,
{
    lemma_grid_valid(g);
    assert(area_valid(g, &Row::all()[k]));
    assert(area_valid(g, &Column::all()[k]));
    assert(area_valid(g, &Square::all()[k]));
    assert(mark_valid(padded(area_words(&Row { row: k as usize }, g)), mark));
    assert(mark_valid(padded(area_words(&Column { col: k as usize }, g)), mark));
    assert(mark_valid(padded(area_words(&Square::of_index(k), g)), mark));
}

/// Looks for what is wrong with `grid`; reports the first thing found.
pub fn validate_grid(grid: &Grid) -> (result: Result<(), ValidationError>)
    ensures
        result == match grid_fault(grid@) {
            Some(e) => Err::<(), ValidationError>(e),
            None => Ok(()),
        },
        result.is_ok() <==> grid_valid(grid@),
{
    let mut index: usize = 0;
    while index < 81
        invariant
            index <= 81,
            cells_fault(grid@, index as int).is_none(),
        decreases 81 - index,
    {
        let coord = grid.get_coord(index);
        let cell = grid.get_cell_at(coord);
        match validate_cell(cell, coord) {
            Err(e) => {
                proof {
                    lemma_cells_fault_stays(grid@, index as int + 1, 81);
                }
                return Err(e);
            },
            Ok(()) => {},
        }
        index += 1;
    }
    proof {
        lemma_board_areas_wf();
    }
    match validate_areas(grid, &grid.iter_rows()) {
        Err(e) => {
            return Err(e);
        },
        Ok(()) => {},
    }
    match validate_areas(grid, &grid.iter_columns()) {
        Err(e) => {
            return Err(e);
        },
        Ok(()) => {},
    }
    validate_areas(grid, &grid.iter_squares())
}

/// Once something is wrong among the cells `0..n`, the first thing wrong
/// stays the same however far the cells are gone through.
pub proof fn lemma_cells_fault_stays(g: Seq<u16>, n: int, m: int)
    requires
        0 <= n <= m,
        cells_fault(g, n).is_some(),
    ensures
        cells_fault(g, m) == cells_fault(g, n),
    decreases m - n,
{
    if n < m {
        lemma_cells_fault_stays(g, n + 1, m);
    }
}

/// Once something is wrong among the first `n` areas, the first thing
/// wrong stays the same however far the areas are gone through.
pub proof fn lemma_areas_fault_stays<T: CellCollection>(g: Seq<u16>, areas: Seq<T>, n: int, m: int)
    requires
        0 <= n <= m,
        areas_fault(g, areas, n).is_some(),
    ensures
        areas_fault(g, areas, m) == areas_fault(g, areas, n),
    decreases m - n,
{
    if n < m {
        lemma_areas_fault_stays(g, areas, n + 1, m);
    }
}

/// Once something is wrong among the digits `1..=k`, the first thing wrong
/// stays the same however far the digits are gone through.
pub proof fn lemma_marks_fault_stays(words: Seq<u16>, first: int, last: int, k: int, m: int)
    requires
        0 <= k <= m,
        marks_fault(words, first, last, k).is_some(),
    ensures
        marks_fault(words, first, last, m) == marks_fault(words, first, last, k),
    decreases m - k,
{
    if k < m {
        lemma_marks_fault_stays(words, first, last, k + 1, m);
    }
}

/// Looks for what is wrong in `areas`; reports the first thing found.
pub fn validate_areas<T: CellCollection>(grid: &Grid, areas: &Vec<T>) -> (result: Result<
    (),
    ValidationError,
>)
    requires
        areas_wf(areas@),
    ensures
        result == match areas_fault(grid@, areas@, areas@.len() as int) {
            Some(e) => Err::<(), ValidationError>(e),
            None => Ok(()),
        },
{
    let mut i: usize = 0;
    while i < areas.len()
        invariant
            i <= areas@.len(),
            areas_wf(areas@),
            areas_fault(grid@, areas@, i as int).is_none(),
        decreases areas@.len() - i,
    {
        match check_area(grid, &areas[i]) {
            Some(e) => {
                proof {
                    lemma_areas_fault_stays(grid@, areas@, i as int + 1, areas@.len() as int);
                }
                return Err(e);
            },
            None => {},
        }
        i += 1;
    }
    Ok(())
}

/// Returns whether `grid` has the shape of a grid.
pub fn is_valid(grid: &Grid) -> (valid: bool)
    ensures
        valid == grid_valid(grid@),
{
    validate_grid(grid).is_ok()
}

/// Checks that the cell at `coord` holds a value and that its word is
/// found exactly once in its row, its column and its box.
pub fn validate_placement(grid: &Grid, coord: Coord) -> (result: Result<(), ValidationError>)
    ensures
        0 <= coord@ < 81,
        result == placement_fault(grid@, coord),
{
    let cell = grid.get_cell_at(coord);
    let index = coord.get_index();
    if !cell.is_determined() {
        return Err(ValidationError::NotDetermined { index });
    }
    let v = cell.get_value();
    let determined = crate::grid::queries::count_determine_value(
        grid,
        Row::new(coord.get_row()),
        v,
    );
    if determined != 1 {
        return Err(ValidationError::RowCount { index });
    }
    let determined = crate::grid::queries::count_determine_value(
        grid,
        Column::new(coord.get_col()),
        v,
    );
    if determined != 1 {
        return Err(ValidationError::ColumnCount { index });
    }
    let determined = crate::grid::queries::count_determine_value(
        grid,
        grid.get_square_at(coord),
        v,
    );
    if determined != 1 {
        return Err(ValidationError::SquareCount { index });
    }
    Ok(())
}

/// What a check of the placement at `coord` comes to.
pub open spec fn placement_fault(g: Seq<u16>, coord: Coord) -> Result<(), ValidationError> {
    let w = g[coord@];
    let index = coord@ as usize;
    if !word_determined(w) {
        Err(ValidationError::NotDetermined { index })
    } else if crate::grid::cell::count_equal_words(
        area_words(&Row { row: coord.row() as usize }, g),
        w,
        9,
    ) != 1 {
        Err(ValidationError::RowCount { index })
    } else if crate::grid::cell::count_equal_words(
        area_words(&Column { col: coord.col() as usize }, g),
        w,
        9,
    ) != 1 {
        Err(ValidationError::ColumnCount { index })
    } else if crate::grid::cell::count_equal_words(
        area_words(&Square::containing(coord.row(), coord.col()), g),
        w,
        9,
    ) != 1 {
        Err(ValidationError::SquareCount { index })
    } else {
        Ok(())
    }
}

/// Looks for what is wrong with the cell at `coord`.
pub fn validate_cell(cell: &Cell, coord: Coord) -> (result: Result<(), ValidationError>)
    ensures
        0 <= coord@ < 81,
        result == match cell_fault(cell@, coord@) {
            Some(e) => Err::<(), ValidationError>(e),
            None => Ok(()),
        },
        result.is_ok() <==> cell_valid(cell@),
{
    let index = coord.get_index();
    let possible = cell.iter_possible().len();
    if let Some(v) = cell.value() {
        if v > 9 || v < 1 {
            return Err(ValidationError::InvalidValue { index, value: v });
        }
        return Ok(());
    }
    match possible {
        0 => Err(ValidationError::NoPossible { index }),
        _ => Ok(()),
    }
}

/// Returns whether the cell is sound.
pub fn is_valid_cell(cell: &Cell) -> (valid: bool)
    ensures
        valid == cell_valid(cell@),
{
    let possible = cell.iter_possible().len();
    if let Some(v) = cell.value() {
        if v > 9 || v < 1 {
            return false;
        }
        return true;
    }
    match possible {
        0 => false,
        _ => true,
    }
}

/// Looks for what is wrong in `area`; `None` if nothing is.
fn check_area<T: CellCollection>(grid: &Grid, area: &T) -> (fault: Option<ValidationError>)
    requires
        area.wf(),
        0 < area.size() < 16,
    ensures
        fault == area_fault(grid@, area),
{
    let first = area.get_coord(0).get_index();
    let last = area.get_coord(area.max() - 1).get_index();
    let slice = Slice::from(grid, area);
    let mut k: u16 = 0;
    while k < 9
        invariant
            k <= 9,
            slice@ == padded(area_words(area, grid@)),
            first == area.coord_at(0),
            last == area.coord_at(area.size() - 1),
            marks_fault(slice@, first as int, last as int, k as int).is_none(),
        decreases 9 - k,
    {
        k = k + 1;
        let mark = Mark::from_value(k);
        proof {
            Mark::lemma_value_of_value(k as int);
        }
        let determined = slice.count_determined_value(mark.to_value());
        let possible = slice.any_possible(mark);
        let fault = if determined > 1 {
            Some(ValidationError::Duplicate { mark, first, last })
        } else if determined == 1 && possible {
            Some(ValidationError::DeterminedPossible { mark, first, last })
        } else if determined == 0 && !possible {
            Some(ValidationError::NoPlace { mark, first, last })
        } else {
            None
        };
        if fault.is_some() {
            proof {
                lemma_marks_fault_stays(slice@, first as int, last as int, k as int, 9);
            }
            return fault;
        }
    }
    None
}

/// Looks for what is wrong in `area`; reports the first thing found.
pub fn validate_area<T: CellCollection>(grid: &Grid, area: T) -> (result: Result<(), ValidationError>)
    requires
        area.wf(),
        0 < area.size() < 16,
    ensures
        result == match area_fault(grid@, &area) {
            Some(e) => Err::<(), ValidationError>(e),
            None => Ok(()),
        },
        result.is_ok() <==> area_valid(grid@, &area),
{
    proof {
        lemma_area_fault(grid@, &area);
    }
    match check_area(grid, &area) {
        Some(e) => Err(e),
        None => Ok(()),
    }
}

/// Returns whether every digit is in order in `area`.
pub fn is_valid_area<T: CellCollection>(grid: &Grid, area: T) -> (valid: bool)
    requires
        area.wf(),
        0 < area.size() < 16,
    ensures
        valid == area_valid(grid@, &area),
{
    proof {
        lemma_area_fault(grid@, &area);
    }
    check_area(grid, &area).is_none()
}

} // verus!
