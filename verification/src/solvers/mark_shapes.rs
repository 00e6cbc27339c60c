//! Shape elimination: a digit that a box confines to one of its rows or
//! columns leaves the rest of that line.

use vstd::prelude::*;
use crate::grid::cell::{word_possible, Cell};
use crate::grid::cell_collection::{area_words, CellCollection};
use crate::grid::column::Column;
use crate::grid::coords::Coord;
use crate::grid::grid::{unset_possible_spec, Grid};
use crate::grid::mark::Mark;
use crate::grid::row::Row;
use crate::grid::slice::{padded, Slice};
use crate::grid::square::Square;
use super::narrowing::{lemma_narrows_refl, lemma_narrows_trans, lemma_unset_narrows, narrows};
use super::solver::{SolveResult, Solver};
use super::soundness::{
    admits, covers, is_solution, lemma_box_house, lemma_digit_is_offered, lemma_peers_differ,
    lemma_slice_admits, lemma_sound_trans, lemma_unset_admits, slice_admits, sound, sound_in,
};
use crate::grid::slice::count_value_words;

verus! {

/// Which of three places has the thing, if exactly one has it.
pub open spec fn only_one(a: bool, b: bool, c: bool) -> Option<int> {
    if a && !b && !c {
        Some(0int)
    } else if !a && b && !c {
        Some(1int)
    } else if !a && !b && c {
        Some(2int)
    } else {
        None
    }
}

/// The bitwise or of the three cells of row `r` of a box, of which `s` is a
/// copy.
pub open spec fn box_row_word(s: Seq<u16>, r: int) -> u16 {
    s[3 * r] | s[3 * r + 1] | s[3 * r + 2]
}

/// The bitwise or of the three cells of column `c` of a box, of which `s`
/// is a copy.
pub open spec fn box_col_word(s: Seq<u16>, c: int) -> u16 {
    s[c] | s[3 + c] | s[6 + c]
}

/// The grid `g` with `mark` removed from the cells of the row `row` in the
/// columns `0..n` that lie outside `square`.
pub open spec fn mark_off_rows_spec(g: Seq<u16>, square: Square, row: int, mark: Mark, n: int) -> Seq<
    u16,
>
    decreases n,
{
    if n <= 0 {
        g
    } else if square.has_col(n - 1) {
        mark_off_rows_spec(g, square, row, mark, n - 1)
    } else {
        unset_possible_spec(
            mark_off_rows_spec(g, square, row, mark, n - 1),
            row * 9 + (n - 1),
            mark,
        )
    }
}

/// The grid `g` with `mark` removed from the cells of the column `col` in
/// the rows `0..n` that lie outside `square`.
pub open spec fn mark_off_columns_spec(
    g: Seq<u16>,
    square: Square,
    col: int,
    mark: Mark,
    n: int,
) -> Seq<u16>
    decreases n,
{
    if n <= 0 {
        g
    } else if square.has_row(n - 1) {
        mark_off_columns_spec(g, square, col, mark, n - 1)
    } else {
        unset_possible_spec(
            mark_off_columns_spec(g, square, col, mark, n - 1),
            (n - 1) * 9 + col,
            mark,
        )
    }
}

/// The grid `g` after `mark` was looked at in `square`, of which `s` is a
/// copy: where the box holds the digit nowhere and one row of the box
/// alone offers it, the rest of that row has lost it, and then the same
/// for the columns.
pub open spec fn shapes_step(g: Seq<u16>, s: Seq<u16>, square: Square, mark: Mark) -> Seq<u16> {
    if count_value_words(s, mark.value() as u16, 16) != 0 {
        g
    } else {
        shapes_confine(g, s, square, mark)
    }
}

/// The grid `g` after the rows and then the columns of a box that alone
/// offer `mark` were cleared outside the box.
pub open spec fn shapes_confine(g: Seq<u16>, s: Seq<u16>, square: Square, mark: Mark) -> Seq<u16> {
    let g1 = match only_one(
        word_possible(box_row_word(s, 0), mark),
        word_possible(box_row_word(s, 1), mark),
        word_possible(box_row_word(s, 2), mark),
    ) {
        Some(r) => mark_off_rows_spec(g, square, square.row + r, mark, 9),
        None => g,
    };
    match only_one(
        word_possible(box_col_word(s, 0), mark),
        word_possible(box_col_word(s, 1), mark),
        word_possible(box_col_word(s, 2), mark),
    ) {
        Some(c) => mark_off_columns_spec(g1, square, square.col + c, mark, 9),
        None => g1,
    }
}

/// The grid `g` after the digits `1..=k` were looked at in `square`.
pub open spec fn shapes_marks(g: Seq<u16>, s: Seq<u16>, square: Square, k: int) -> Seq<u16>
    decreases k,
{
    if k <= 0 {
        g
    } else {
        shapes_step(shapes_marks(g, s, square, k - 1), s, square, Mark::of_value(k))
    }
}

/// The grid `g` after all nine digits were looked at in a copy of `square`.
pub open spec fn shapes_square(g: Seq<u16>, square: Square) -> Seq<u16> {
    shapes_marks(g, padded(area_words(&square, g)), square, 9)
}

/// The grid `g` after `mark` was looked at in a copy of `square`.
pub open spec fn shapes_square_for_mark(g: Seq<u16>, square: Square, mark: Mark) -> Seq<u16> {
    shapes_step(g, padded(area_words(&square, g)), square, mark)
}

/// The grid `g` after the first `n` boxes of the board were gone through.
pub open spec fn shapes_upto(g: Seq<u16>, n: int) -> Seq<u16>
    decreases n,
{
    if n <= 0 {
        g
    } else {
        shapes_square(shapes_upto(g, n - 1), Square::of_index(n - 1))
    }
}

/// The grid `g` after `mark` was looked at in the first `n` boxes.
pub open spec fn shapes_upto_for_mark(g: Seq<u16>, mark: Mark, n: int) -> Seq<u16>
    decreases n,
{
    if n <= 0 {
        g
    } else {
        shapes_square_for_mark(shapes_upto_for_mark(g, mark, n - 1), Square::of_index(n - 1), mark)
    }
}

/// Clearing a row outside a box loses no solution that has not the digit
/// in that part of the row.
pub proof fn lemma_mark_off_rows_admits(
    g: Seq<u16>,
    square: Square,
    row: int,
    mark: Mark,
    n: int,
    sol: Seq<int>,
)
    requires
        admits(g, sol),
        is_solution(sol),
        0 <= row < 9,
        0 <= n <= 9,
        forall|col: int|
            0 <= col < 9 && !square.has_col(col) ==> #[trigger] sol[row * 9 + col] != mark.value(),
    ensures
        admits(mark_off_rows_spec(g, square, row, mark, n), sol),
    decreases n,
{
    if n > 0 {
        lemma_mark_off_rows_admits(g, square, row, mark, n - 1, sol);
        if !square.has_col(n - 1) {
            assert(sol[row * 9 + (n - 1)] != mark.value());
            lemma_unset_admits(
                mark_off_rows_spec(g, square, row, mark, n - 1),
                row * 9 + (n - 1),
                mark,
                sol,
            );
        }
    }
}

/// Clearing a column outside a box loses no solution that has not the
/// digit in that part of the column.
pub proof fn lemma_mark_off_columns_admits(
    g: Seq<u16>,
    square: Square,
    col: int,
    mark: Mark,
    n: int,
    sol: Seq<int>,
)
    requires
        admits(g, sol),
        is_solution(sol),
        0 <= col < 9,
        0 <= n <= 9,
        forall|row: int|
            0 <= row < 9 && !square.has_row(row) ==> #[trigger] sol[row * 9 + col] != mark.value(),
    ensures
        admits(mark_off_columns_spec(g, square, col, mark, n), sol),
    decreases n,
{
    if n > 0 {
        lemma_mark_off_columns_admits(g, square, col, mark, n - 1, sol);
        if !square.has_row(n - 1) {
            assert(sol[(n - 1) * 9 + col] != mark.value());
            lemma_unset_admits(
                mark_off_columns_spec(g, square, col, mark, n - 1),
                (n - 1) * 9 + col,
                mark,
                sol,
            );
        }
    }
}

/// Where a solution has a digit in a cell, it has it nowhere else in the
/// row and the column of the cell.
pub proof fn lemma_line_others(sol: Seq<int>, row: int, col: int, d: int)
    requires
        is_solution(sol),
        0 <= row < 9,
        0 <= col < 9,
        sol[row * 9 + col] == d,
    ensures
        forall|c: int| 0 <= c < 9 && c != col ==> #[trigger] sol[row * 9 + c] != d,
        forall|r: int| 0 <= r < 9 && r != row ==> #[trigger] sol[r * 9 + col] != d,
{
    let at = row * 9 + col;
    assert(at / 9 == row && at % 9 == col);
    assert forall|c: int| 0 <= c < 9 && c != col implies #[trigger] sol[row * 9 + c] != d by {
        let other = row * 9 + c;
        assert(other / 9 == row);
        lemma_peers_differ(sol, other, at);
    }
    assert forall|r: int| 0 <= r < 9 && r != row implies #[trigger] sol[r * 9 + col] != d by {
        let other = r * 9 + col;
        assert(other % 9 == col);
        lemma_peers_differ(sol, other, at);
    }
}

/// In a copy of a box that admits a solution and holds the digit of
/// `mark` nowhere, the row and the column of the box in which the solution
/// has the digit offer it.
pub proof fn lemma_box_offers(snap: Seq<u16>, square: Square, mark: Mark, sol: Seq<int>) -> (j: int)
    requires
        is_solution(sol),
        covers(sol, &square),
        slice_admits(snap, &square, sol),
        count_value_words(snap, mark.value() as u16, 16) == 0,
        square.wf(),
    ensures
        0 <= j < 9,
        sol[(square.row + j / 3) * 9 + square.col + j % 3] == mark.value(),
        word_possible(box_row_word(snap, j / 3), mark),
        word_possible(box_col_word(snap, j % 3), mark),
{
    let j = lemma_digit_is_offered(snap, &square, mark, sol);
    let b = mark.bit();
    let x = snap[3 * (j / 3)];
    let y = snap[3 * (j / 3) + 1];
    let z = snap[3 * (j / 3) + 2];
    assert((x & b != 0 || y & b != 0 || z & b != 0) ==> (x | y | z) & b != 0) by (bit_vector);
    let u = snap[j % 3];
    let v = snap[3 + j % 3];
    let w = snap[6 + j % 3];
    assert((u & b != 0 || v & b != 0 || w & b != 0) ==> (u | v | w) & b != 0) by (bit_vector);
    j
}

/// A look at a digit in a box loses no solution that has every digit in
/// the box, if the copy of the box admits the solution.
pub proof fn lemma_shapes_step_admits(
    g: Seq<u16>,
    snap: Seq<u16>,
    square: Square,
    mark: Mark,
    sol: Seq<int>,
)
    requires
        admits(g, sol),
        is_solution(sol),
        covers(sol, &square),
        slice_admits(snap, &square, sol),
        square.wf(),
    ensures
        admits(shapes_step(g, snap, square, mark), sol),
{
    if count_value_words(snap, mark.value() as u16, 16) == 0 {
        let j = lemma_box_offers(snap, square, mark, sol);
        let row = square.row + j / 3;
        let col = square.col + j % 3;
        lemma_line_others(sol, row, col, mark.value());
        let rows = only_one(
            word_possible(box_row_word(snap, 0), mark),
            word_possible(box_row_word(snap, 1), mark),
            word_possible(box_row_word(snap, 2), mark),
        );
        let g1 = match rows {
            Some(r) => mark_off_rows_spec(g, square, square.row + r, mark, 9),
            None => g,
        };
        if rows.is_some() {
            assert(rows.unwrap() == j / 3);
            lemma_mark_off_rows_admits(g, square, row, mark, 9, sol);
        }
        assert(admits(g1, sol));
        let columns = only_one(
            word_possible(box_col_word(snap, 0), mark),
            word_possible(box_col_word(snap, 1), mark),
            word_possible(box_col_word(snap, 2), mark),
        );
        if columns.is_some() {
            assert(columns.unwrap() == j % 3);
            lemma_mark_off_columns_admits(g1, square, col, mark, 9, sol);
        }
    }
}

/// The rule that clears a line outside the box that confines a digit to
/// it.
pub struct MarkShapes {}

impl MarkShapes {
    /// Creates the rule.
    pub fn new() -> Self {
        Self {  }
    }

    /// Creates the rule in a box.
    pub fn new_box() -> Box<Self> {
        Box::new(Self::new())
    }

    /// Goes through the nine boxes. Reports `Updated` if the grid changed
    /// and `Nothing` if not. No cell gains a candidate and no value
    /// changes, and no solution that the grid admits is lost.
    pub fn solve(grid: &mut Grid) -> (result: SolveResult)
        ensures
            final(grid)@ == shapes_upto(old(grid)@, 9),
            narrows(old(grid)@, final(grid)@),
            sound(old(grid)@, final(grid)@),
            result == SolveResult::of_changed(final(grid)@ != old(grid)@),
    {
        let mut changed = false;
        proof {
            lemma_narrows_refl(grid@);
        }
        let mut i: usize = 0;
        while i < 9
            invariant
                i <= 9,
                grid@ == shapes_upto(old(grid)@, i as int),
                narrows(old(grid)@, grid@),
                sound(old(grid)@, grid@),
                changed == (grid@ != old(grid)@),
            decreases 9 - i,
        {
            let square = Square::from_square_index(i);
            let ghost before = grid@;
            let step = MarkShapes::solve_square(grid, &square);
            proof {
                lemma_narrows_trans(old(grid)@, before, grid@);
                assert forall|sol: Seq<int>| #[trigger]
                    admits(before, sol) && is_solution(sol) implies admits(grid@, sol) by {
                    lemma_box_house(sol, i as int);
                }
                lemma_sound_trans(old(grid)@, before, grid@);
            }
            changed = changed || step;
            i += 1;
        }
        SolveResult::from_changed(changed)
    }

    /// Goes through the nine boxes for `mark` alone.
    pub fn solve_for_mark(grid: &mut Grid, mark: Mark) -> (result: SolveResult)
        ensures
            final(grid)@ == shapes_upto_for_mark(old(grid)@, mark, 9),
            narrows(old(grid)@, final(grid)@),
            sound(old(grid)@, final(grid)@),
            result == SolveResult::of_changed(final(grid)@ != old(grid)@),
    {
        let mut changed = false;
        proof {
            lemma_narrows_refl(grid@);
        }
        let mut i: usize = 0;
        while i < 9
            invariant
                i <= 9,
                grid@ == shapes_upto_for_mark(old(grid)@, mark, i as int),
                narrows(old(grid)@, grid@),
                sound(old(grid)@, grid@),
                changed == (grid@ != old(grid)@),
            decreases 9 - i,
        {
            let square = Square::from_square_index(i);
            let ghost before = grid@;
            let step = MarkShapes::solve_square_for_mark(grid, &square, mark);
            proof {
                lemma_narrows_trans(old(grid)@, before, grid@);
                assert forall|sol: Seq<int>| #[trigger]
                    admits(before, sol) && is_solution(sol) implies admits(grid@, sol) by {
                    lemma_box_house(sol, i as int);
                }
                lemma_sound_trans(old(grid)@, before, grid@);
            }
            changed = changed || step;
            i += 1;
        }
        SolveResult::from_changed(changed)
    }

    /// Looks at every digit in `square`; returns whether the grid changed.
    pub fn solve_square(grid: &mut Grid, square: &Square) -> (changed: bool)
        requires
            square.wf(),
        ensures
            final(grid)@ == shapes_square(old(grid)@, *square),
            narrows(old(grid)@, final(grid)@),
            sound_in(old(grid)@, final(grid)@, square),
            changed == (final(grid)@ != old(grid)@),
    {
        let s = Slice::from(grid, square);
        let mut changed = false;
        proof {
            lemma_narrows_refl(grid@);
        }
        let mut k: u16 = 0;
        while k < 9
            invariant
                k <= 9,
                square.wf(),
                s@ == padded(area_words(square, old(grid)@)),
                grid@ == shapes_marks(old(grid)@, s@, *square, k as int),
                narrows(old(grid)@, grid@),
                sound_in(old(grid)@, grid@, square),
                changed == (grid@ != old(grid)@),
            decreases 9 - k,
        {
            k = k + 1;
            let mark = Mark::from_value(k);
            let ghost before = grid@;
            let step = solve_slice_for_mark(grid, &s, square, mark);
            proof {
                lemma_narrows_trans(old(grid)@, before, grid@);
                assert forall|sol: Seq<int>| #[trigger]
                    admits(old(grid)@, sol) && is_solution(sol) && covers(sol, square) implies admits(
                    grid@,
                    sol,
                ) by {
                    assert(admits(before, sol));
                    lemma_slice_admits(old(grid)@, square, sol);
                    lemma_shapes_step_admits(before, s@, *square, mark, sol);
                }
            }
            changed = changed || step;
        }
        changed
    }

    /// Looks at `mark` in `square`; returns whether the grid changed.
    pub fn solve_square_for_mark(grid: &mut Grid, square: &Square, mark: Mark) -> (changed: bool)
        requires
            square.wf(),
        ensures
            final(grid)@ == shapes_square_for_mark(old(grid)@, *square, mark),
            narrows(old(grid)@, final(grid)@),
            sound_in(old(grid)@, final(grid)@, square),
            changed == (final(grid)@ != old(grid)@),
    {
        let s = Slice::from(grid, square);
        let changed = solve_slice_for_mark(grid, &s, square, mark);
        proof {
            assert forall|sol: Seq<int>| #[trigger]
                admits(old(grid)@, sol) && is_solution(sol) && covers(sol, square) implies admits(
                grid@,
                sol,
            ) by {
                lemma_slice_admits(old(grid)@, square, sol);
                lemma_shapes_step_admits(old(grid)@, s@, *square, mark, sol);
            }
        }
        changed
    }
}

impl Solver for MarkShapes {
    open spec fn outcome(&self, g: Seq<u16>) -> (Seq<u16>, SolveResult) {
        (shapes_upto(g, 9), SolveResult::of_changed(shapes_upto(g, 9) != g))
    }

    open spec fn title(&self) -> Seq<char> {
        "Mark Shapes"@
    }

    fn name(&self) -> (name: &'static str) {
        "Mark Shapes"
    }

    fn solve(&self, grid: &mut Grid) -> (result: SolveResult) {
        MarkShapes::solve(grid)
    }
}

/// Returns which of three places has the thing, if exactly one has it.
pub fn which_one(a: bool, b: bool, c: bool) -> (place: Option<usize>)
    ensures
        match place {
            Some(p) => only_one(a, b, c) == Some(p as int),
            None => only_one(a, b, c).is_none(),
        },
{
    match (a, b, c) {
        (true, false, false) => Some(0),
        (false, true, false) => Some(1),
        (false, false, true) => Some(2),
        _ => None,
    }
}

/// Looks at `mark` in the copy `s` of `square`; returns whether the grid
/// changed.
fn solve_slice_for_mark(grid: &mut Grid, s: &Slice, square: &Square, mark: Mark) -> (changed: bool)
    requires
        square.wf(),
    ensures
        final(grid)@ == shapes_step(old(grid)@, s@, *square, mark),
        narrows(old(grid)@, final(grid)@),
        changed == (final(grid)@ != old(grid)@),
{
    let mut changed = false;
    proof {
        lemma_narrows_refl(grid@);
    }
    if s.count_determined_value(mark.to_value()) != 0 {
        return false;
    }
    let row_0 = or_cells(s, index(0, 0), index(0, 1), index(0, 2));
    let row_1 = or_cells(s, index(1, 0), index(1, 1), index(1, 2));
    let row_2 = or_cells(s, index(2, 0), index(2, 1), index(2, 2));
    let col_0 = or_cells(s, index(0, 0), index(1, 0), index(2, 0));
    let col_1 = or_cells(s, index(0, 1), index(1, 1), index(2, 1));
    let col_2 = or_cells(s, index(0, 2), index(1, 2), index(2, 2));
    if let Some(r) = which_one(
        row_0.is_possible(mark),
        row_1.is_possible(mark),
        row_2.is_possible(mark),
    ) {
        changed = mark_off_rows(square, grid, r, mark);
    }
    let ghost middle = grid@;
    if let Some(c) = which_one(
        col_0.is_possible(mark),
        col_1.is_possible(mark),
        col_2.is_possible(mark),
    ) {
        let step = mark_off_columns(square, grid, c, mark);
        proof {
            lemma_narrows_trans(old(grid)@, middle, grid@);
        }
        changed = changed || step;
    }
    changed
}

/// Returns the position inside a box of the cell in its row `row` and its
/// column `col`.
pub fn index(row: usize, col: usize) -> (index: usize)
    requires
        row * 3 + col <= usize::MAX,
    ensures
        index == row * 3 + col,
{
    row * 3 + col
}

/// Returns the bitwise or of three cells of a slice.
pub fn or_cells(slice: &Slice, c1: usize, c2: usize, c3: usize) -> (cell: Cell)
    requires
        c1 < 16,
        c2 < 16,
        c3 < 16,
    ensures
        cell@ == slice@[c1 as int] | slice@[c2 as int] | slice@[c3 as int],
{
    slice.get(c1) | slice.get(c2) | slice.get(c3)
}

/// Removes `mark` from the row `row` of `square` wherever the row runs
/// outside the box; returns whether the grid changed.
pub fn mark_off_rows(square: &Square, grid: &mut Grid, row: usize, mark: Mark) -> (changed: bool)
    requires
        square.row + row < 9,
    ensures
        final(grid)@ == mark_off_rows_spec(old(grid)@, *square, square.row + row, mark, 9),
        narrows(old(grid)@, final(grid)@),
        changed == (final(grid)@ != old(grid)@),
{
    let row_index = square.row + row;
    let row_data = Row::new(row_index);
    let mut changed = false;
    proof {
        lemma_narrows_refl(grid@);
    }
    let mut col: usize = 0;
    while col < 9
        invariant
            col <= 9,
            row_index == square.row + row,
            row_index < 9,
            row_data == (Row { row: row_index }),
            grid@ == mark_off_rows_spec(old(grid)@, *square, row_index as int, mark, col as int),
            narrows(old(grid)@, grid@),
            changed == (grid@ != old(grid)@),
        decreases 9 - col,
    {
        if !square.is_column_in_square(col) {
            let c = row_data.get_coord(col);
            let ghost before = grid@;
            let step = mark_off_at(grid, c, mark);
            proof {
                lemma_narrows_trans(old(grid)@, before, grid@);
            }
            changed = changed || step;
        }
        col += 1;
    }
    changed
}

/// Removes `mark` from the column `col` of `square` wherever the column
/// runs outside the box; returns whether the grid changed.
pub fn mark_off_columns(square: &Square, grid: &mut Grid, col: usize, mark: Mark) -> (changed: bool)
    requires
        square.col + col < 9,
    ensures
        final(grid)@ == mark_off_columns_spec(old(grid)@, *square, square.col + col, mark, 9),
        narrows(old(grid)@, final(grid)@),
        changed == (final(grid)@ != old(grid)@),
{
    let col_index = square.col + col;
    let column = Column::new(col_index);
    let mut changed = false;
    proof {
        lemma_narrows_refl(grid@);
    }
    let mut row: usize = 0;
    while row < 9
        invariant
            row <= 9,
            col_index == square.col + col,
            col_index < 9,
            column == (Column { col: col_index }),
            grid@ == mark_off_columns_spec(old(grid)@, *square, col_index as int, mark, row as int),
            narrows(old(grid)@, grid@),
            changed == (grid@ != old(grid)@),
        decreases 9 - row,
    {
        if !square.is_row_in_square(row) {
            let c = column.get_coord(row);
            let ghost before = grid@;
            let step = mark_off_at(grid, c, mark);
            proof {
                lemma_narrows_trans(old(grid)@, before, grid@);
            }
            changed = changed || step;
        }
        row += 1;
    }
    changed
}

/// Removes `mark` from the candidates of the cell at `coord`; returns
/// whether the cell had it.
pub fn mark_off_at(grid: &mut Grid, coord: Coord, mark: Mark) -> (changed: bool)
    ensures
        0 <= coord@ < 81,
        final(grid)@ == unset_possible_spec(old(grid)@, coord@, mark),
        narrows(old(grid)@, final(grid)@),
        changed == (final(grid)@ != old(grid)@),
        changed == word_possible(old(grid)@[coord@], mark),
{
    let cell = grid.get_cell_at(coord);
    proof {
        lemma_unset_narrows(grid@, coord@, mark);
    }
    if !cell.is_possible(mark) {
        assert(unset_possible_spec(grid@, coord@, mark) =~= grid@) by {
            crate::grid::cell::lemma_clear_bits(grid@[coord@], mark.bit(), 0);
        }
        return false;
    }
    grid.unset_possible_at(coord, mark);
    true
}

} // verus!
