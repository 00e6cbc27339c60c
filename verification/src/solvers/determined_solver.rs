//! The hidden single: a digit with one place left in an area gets it.

use vstd::prelude::*;
use crate::grid::cell::{
    count_possible_words, first_possible_word, lemma_count_possible_words, lemma_mask_bits,
    word_determined, word_possible,
};
use crate::grid::cell_collection::{area_words, CellCollection};
use crate::grid::column::Column;
use crate::grid::grid::{place_spec, Grid};
use crate::grid::mark::Mark;
use crate::grid::row::Row;
use crate::grid::slice::{padded, Slice};
use crate::grid::square::Square;
use super::narrowing::{lemma_narrows_refl, lemma_narrows_trans, lemma_place_narrows, narrows};
use super::solver::{SolveResult, Solver};
use super::soundness::{
    admits, covers, is_solution, lemma_column_house, lemma_box_house, lemma_digit_is_offered,
    lemma_one_possible, lemma_place_admits, lemma_row_house, lemma_slice_admits,
    lemma_sound_trans, slice_admits, sound, sound_in,
};
use crate::grid::slice::count_value_words;

verus! {

/// The grid `g` after `mark` was looked for in `area`, of which `snap` is a
/// copy: where no cell of the copy holds the digit and exactly one offers
/// it, and that cell is still open and still offers it, the digit was
/// placed there.
pub open spec fn hidden_step<T: CellCollection>(
    g: Seq<u16>,
    snap: Seq<u16>,
    area: &T,
    mark: Mark,
) -> Seq<u16> {
    if count_value_words(snap, mark.value() as u16, 16) == 0 && count_possible_words(
        snap,
        mark,
        16,
    ) == 1 {
        let c = area.coord_at(first_possible_word(snap, mark, 16));
        if !word_determined(g[c]) && word_possible(g[c], mark) {
            place_spec(g, c, mark)
        } else {
            g
        }
    } else {
        g
    }
}

/// The grid `g` after the digits `1..=k` were looked for in `area` in turn.
pub open spec fn hidden_marks<T: CellCollection>(
    g: Seq<u16>,
    snap: Seq<u16>,
    area: &T,
    k: int,
) -> Seq<u16>
    decreases k,
{
    if k <= 0 {
        g
    } else {
        hidden_step(hidden_marks(g, snap, area, k - 1), snap, area, Mark::of_value(k))
    }
}

/// The grid `g` after all nine digits were looked for in a copy of `area`.
pub open spec fn hidden_area<T: CellCollection>(g: Seq<u16>, area: &T) -> Seq<u16> {
    hidden_marks(g, padded(area_words(area, g)), area, 9)
}

/// The grid `g` after `mark` was looked for in a copy of `area`.
pub open spec fn hidden_area_for_mark<T: CellCollection>(
    g: Seq<u16>,
    area: &T,
    mark: Mark,
) -> Seq<u16> {
    hidden_step(g, padded(area_words(area, g)), area, mark)
}

/// The grid `g` after the first `n` of `areas` were gone through.
pub open spec fn hidden_areas<T: CellCollection>(g: Seq<u16>, areas: Seq<T>, n: int) -> Seq<u16>
    decreases n,
{
    if n <= 0 {
        g
    } else {
        hidden_area(hidden_areas(g, areas, n - 1), &areas[n - 1])
    }
}

/// The grid `g` after `mark` was looked for in the first `n` of `areas`.
pub open spec fn hidden_areas_for_mark<T: CellCollection>(
    g: Seq<u16>,
    areas: Seq<T>,
    mark: Mark,
    n: int,
) -> Seq<u16>
    decreases n,
{
    if n <= 0 {
        g
    } else {
        hidden_area_for_mark(hidden_areas_for_mark(g, areas, mark, n - 1), &areas[n - 1], mark)
    }
}

/// The grid `g` after one run of the rule: rows, then columns, then boxes.
pub open spec fn hidden_spec(g: Seq<u16>) -> Seq<u16> {
    hidden_areas(
        hidden_areas(hidden_areas(g, Row::all(), 9), Column::all(), 9),
        Square::all(),
        9,
    )
}

/// The grid `g` after one run of the rule for `mark` alone.
pub open spec fn hidden_spec_for_mark(g: Seq<u16>, mark: Mark) -> Seq<u16> {
    hidden_areas_for_mark(
        hidden_areas_for_mark(hidden_areas_for_mark(g, Row::all(), mark, 9), Column::all(), mark, 9),
        Square::all(),
        mark,
        9,
    )
}

/// Whether every solution that `g` admits and that has every digit in
/// each of `areas` is admitted by `h`.
pub open spec fn sound_over<T: CellCollection>(g: Seq<u16>, h: Seq<u16>, areas: Seq<T>) -> bool {
    forall|s: Seq<int>| #[trigger]
        admits(g, s) && is_solution(s) && (forall|k: int|
            0 <= k < areas.len() ==> covers(s, &#[trigger] areas[k])) ==> admits(h, s)
}

/// A look for a digit in an area loses no solution that has every digit
/// in the area, if the copy of the area admits the solution.
pub proof fn lemma_hidden_step_admits<T: CellCollection>(
    g: Seq<u16>,
    snap: Seq<u16>,
    area: &T,
    mark: Mark,
    s: Seq<int>,
)
    requires
        admits(g, s),
        is_solution(s),
        covers(s, area),
        slice_admits(snap, area, s),
        area.wf(),
        area.size() == 9,
        forall|i: int| 9 <= i < 16 ==> snap[i] == 0,
    ensures
        admits(hidden_step(g, snap, area, mark), s),
{
    if count_value_words(snap, mark.value() as u16, 16) == 0 && count_possible_words(snap, mark, 16)
        == 1 {
        let index = first_possible_word(snap, mark, 16);
        let c = area.coord_at(index);
        if !word_determined(g[c]) && word_possible(g[c], mark) {
            let j = lemma_digit_is_offered(snap, area, mark, s);
            lemma_count_possible_words(snap, mark, 16);
            lemma_mask_bits(0, 0, mark.bit());
            lemma_one_possible(snap, mark, 16, index, j);
            area.lemma_coords_in_grid(index);
            lemma_place_admits(g, c, mark, s);
        }
    }
}

/// Whether every one of `areas` is an area of nine cells inside the grid.
pub open spec fn areas_wf<T: CellCollection>(areas: Seq<T>) -> bool {
    forall|i: int| 0 <= i < areas.len() ==> (#[trigger] areas[i]).wf() && areas[i].size() == 9
}

/// The rows, the columns and the boxes of the board are areas of nine
/// cells inside the grid.
pub proof fn lemma_board_areas_wf()
    ensures
        areas_wf(Row::all()),
        areas_wf(Column::all()),
        areas_wf(Square::all()),
        Row::all().len() == 9,
        Column::all().len() == 9,
        Square::all().len() == 9,
{
}

/// The rule that places a digit where an area leaves it one place.
pub struct DeterminedSolver {}

impl DeterminedSolver {
    /// Creates the rule.
    pub fn new() -> Self {
        Self {  }
    }

    /// Creates the rule in a box.
    pub fn new_box() -> Box<Self> {
        Box::new(Self::new())
    }

    /// Goes through the rows, the columns and the boxes and places every
    /// digit that has one place left in an area. Reports `Updated` if the
    /// grid changed and `Nothing` if not. No cell gains a candidate and no
    /// value changes, and no solution that the grid admits is lost.
    pub fn solve(grid: &mut Grid) -> (result: SolveResult)
        ensures
            final(grid)@ == hidden_spec(old(grid)@),
            narrows(old(grid)@, final(grid)@),
            sound(old(grid)@, final(grid)@),
            result == SolveResult::of_changed(final(grid)@ != old(grid)@),
    {
        let ch1 = DeterminedSolver::solve_rows(grid);
        let ghost g1 = grid@;
        let ch2 = DeterminedSolver::solve_columns(grid);
        let ghost g2 = grid@;
        let ch3 = DeterminedSolver::solve_squares(grid);
        proof {
            lemma_narrows_trans(old(grid)@, g1, g2);
            lemma_narrows_trans(g1, g2, grid@);
            lemma_narrows_trans(old(grid)@, g2, grid@);
            lemma_narrows_trans(old(grid)@, g1, grid@);
            lemma_sound_trans(old(grid)@, g1, g2);
            lemma_sound_trans(old(grid)@, g2, grid@);
        }
        SolveResult::from_changed(ch1 || ch2 || ch3)
    }

    /// Does the same for the digit of `mark` alone.
    pub fn solve_for_mark(grid: &mut Grid, mark: Mark) -> (result: SolveResult)
        ensures
            final(grid)@ == hidden_spec_for_mark(old(grid)@, mark),
            narrows(old(grid)@, final(grid)@),
            sound(old(grid)@, final(grid)@),
            result == SolveResult::of_changed(final(grid)@ != old(grid)@),
    {
        let ch1 = DeterminedSolver::solve_rows_for_mark(grid, mark);
        let ghost g1 = grid@;
        let ch2 = DeterminedSolver::solve_columns_for_mark(grid, mark);
        let ghost g2 = grid@;
        let ch3 = DeterminedSolver::solve_squares_for_mark(grid, mark);
        proof {
            lemma_narrows_trans(old(grid)@, g1, g2);
            lemma_narrows_trans(g1, g2, grid@);
            lemma_narrows_trans(old(grid)@, g2, grid@);
            lemma_narrows_trans(old(grid)@, g1, grid@);
            lemma_sound_trans(old(grid)@, g1, g2);
            lemma_sound_trans(old(grid)@, g2, grid@);
        }
        SolveResult::from_changed(ch1 || ch2 || ch3)
    }

    /// Goes through the rows; returns whether the grid changed.
    pub fn solve_rows(grid: &mut Grid) -> (changed: bool)
        ensures
            final(grid)@ == hidden_areas(old(grid)@, Row::all(), 9),
            narrows(old(grid)@, final(grid)@),
            sound(old(grid)@, final(grid)@),
            changed == (final(grid)@ != old(grid)@),
    {
        proof {
            lemma_board_areas_wf();
        }
        let changed = solve_area(grid, &Row::iter_row());
        proof {
            assert forall|s: Seq<int>| #[trigger]
                admits(old(grid)@, s) && is_solution(s) implies admits(grid@, s) by {
                assert forall|k: int| 0 <= k < 9 implies covers(s, &#[trigger] Row::all()[k]) by {
                    lemma_row_house(s, k);
                }
            }
        }
        changed
    }

    /// Goes through the rows for `mark` alone; returns whether the grid
    /// changed.
    pub fn solve_rows_for_mark(grid: &mut Grid, mark: Mark) -> (changed: bool)
        ensures
            final(grid)@ == hidden_areas_for_mark(old(grid)@, Row::all(), mark, 9),
            narrows(old(grid)@, final(grid)@),
            sound(old(grid)@, final(grid)@),
            changed == (final(grid)@ != old(grid)@),
    {
        proof {
            lemma_board_areas_wf();
        }
        let changed = solve_area_for_mark(grid, &Row::iter_row(), mark);
        proof {
            assert forall|s: Seq<int>| #[trigger]
                admits(old(grid)@, s) && is_solution(s) implies admits(grid@, s) by {
                assert forall|k: int| 0 <= k < 9 implies covers(s, &#[trigger] Row::all()[k]) by {
                    lemma_row_house(s, k);
                }
            }
        }
        changed
    }

    /// Goes through the columns; returns whether the grid changed.
    pub fn solve_columns(grid: &mut Grid) -> (changed: bool)
        ensures
            final(grid)@ == hidden_areas(old(grid)@, Column::all(), 9),
            narrows(old(grid)@, final(grid)@),
            sound(old(grid)@, final(grid)@),
            changed == (final(grid)@ != old(grid)@),
    {
        proof {
            lemma_board_areas_wf();
        }
        let changed = solve_area(grid, &Column::iter_col());
        proof {
            assert forall|s: Seq<int>| #[trigger]
                admits(old(grid)@, s) && is_solution(s) implies admits(grid@, s) by {
                assert forall|k: int| 0 <= k < 9 implies covers(s, &#[trigger] Column::all()[k]) by {
                    lemma_column_house(s, k);
                }
            }
        }
        changed
    }

    /// Goes through the columns for `mark` alone; returns whether the grid
    /// changed.
    pub fn solve_columns_for_mark(grid: &mut Grid, mark: Mark) -> (changed: bool)
        ensures
            final(grid)@ == hidden_areas_for_mark(old(grid)@, Column::all(), mark, 9),
            narrows(old(grid)@, final(grid)@),
            sound(old(grid)@, final(grid)@),
            changed == (final(grid)@ != old(grid)@),
    {
        proof {
            lemma_board_areas_wf();
        }
        let changed = solve_area_for_mark(grid, &Column::iter_col(), mark);
        proof {
            assert forall|s: Seq<int>| #[trigger]
                admits(old(grid)@, s) && is_solution(s) implies admits(grid@, s) by {
                assert forall|k: int| 0 <= k < 9 implies covers(s, &#[trigger] Column::all()[k]) by {
                    lemma_column_house(s, k);
                }
            }
        }
        changed
    }

    /// Goes through the boxes; returns whether the grid changed.
    pub fn solve_squares(grid: &mut Grid) -> (changed: bool)
        ensures
            final(grid)@ == hidden_areas(old(grid)@, Square::all(), 9),
            narrows(old(grid)@, final(grid)@),
            sound(old(grid)@, final(grid)@),
            changed == (final(grid)@ != old(grid)@),
    {
        proof {
            lemma_board_areas_wf();
        }
        let changed = solve_area(grid, &Square::iter_squares());
        proof {
            assert forall|s: Seq<int>| #[trigger]
                admits(old(grid)@, s) && is_solution(s) implies admits(grid@, s) by {
                assert forall|k: int| 0 <= k < 9 implies covers(s, &#[trigger] Square::all()[k]) by {
                    lemma_box_house(s, k);
                }
            }
        }
        changed
    }

    /// Goes through the boxes for `mark` alone; returns whether the grid
    /// changed.
    pub fn solve_squares_for_mark(grid: &mut Grid, mark: Mark) -> (changed: bool)
        ensures
            final(grid)@ == hidden_areas_for_mark(old(grid)@, Square::all(), mark, 9),
            narrows(old(grid)@, final(grid)@),
            sound(old(grid)@, final(grid)@),
            changed == (final(grid)@ != old(grid)@),
    {
        proof {
            lemma_board_areas_wf();
        }
        let changed = solve_area_for_mark(grid, &Square::iter_squares(), mark);
        proof {
            assert forall|s: Seq<int>| #[trigger]
                admits(old(grid)@, s) && is_solution(s) implies admits(grid@, s) by {
                assert forall|k: int| 0 <= k < 9 implies covers(s, &#[trigger] Square::all()[k]) by {
                    lemma_box_house(s, k);
                }
            }
        }
        changed
    }
}

impl Solver for DeterminedSolver {
    open spec fn outcome(&self, g: Seq<u16>) -> (Seq<u16>, SolveResult) {
        (hidden_spec(g), SolveResult::of_changed(hidden_spec(g) != g))
    }

    open spec fn title(&self) -> Seq<char> {
        "Determined Solver"@
    }

    fn name(&self) -> (name: &'static str) {
        "Determined Solver"
    }

    fn solve(&self, grid: &mut Grid) -> (result: SolveResult) {
        DeterminedSolver::solve(grid)
    }
}

/// Goes through `areas` in turn; returns whether the grid changed.
pub fn solve_area<T: CellCollection>(grid: &mut Grid, areas: &Vec<T>) -> (changed: bool)
    requires
        areas_wf(areas@),
    ensures
        final(grid)@ == hidden_areas(old(grid)@, areas@, areas@.len() as int),
        narrows(old(grid)@, final(grid)@),
        sound_over(old(grid)@, final(grid)@, areas@),
        changed == (final(grid)@ != old(grid)@),
{
    let mut changed = false;
    proof {
        lemma_narrows_refl(grid@);
    }
    let mut i: usize = 0;
    while i < areas.len()
        invariant
            i <= areas@.len(),
            areas_wf(areas@),
            grid@ == hidden_areas(old(grid)@, areas@, i as int),
            narrows(old(grid)@, grid@),
            sound_over(old(grid)@, grid@, areas@),
            changed == (grid@ != old(grid)@),
        decreases areas@.len() - i,
    {
        let ghost before = grid@;
        let step = set_if_possible_area(grid, &areas[i]);
        proof {
            lemma_narrows_trans(old(grid)@, before, grid@);
            assert forall|s: Seq<int>| #[trigger]
                admits(old(grid)@, s) && is_solution(s) && (forall|k: int|
                    0 <= k < areas@.len() ==> covers(s, &#[trigger] areas@[k])) implies admits(
                grid@,
                s,
            ) by {
                assert(covers(s, &areas@[i as int]));
                assert(admits(before, s));
            }
        }
        changed = changed || step;
        i += 1;
    }
    changed
}

/// Goes through `areas` in turn for `mark` alone; returns whether the grid
/// changed.
pub fn solve_area_for_mark<T: CellCollection>(grid: &mut Grid, areas: &Vec<T>, mark: Mark) -> (changed:
    bool)
    requires
        areas_wf(areas@),
    ensures
        final(grid)@ == hidden_areas_for_mark(old(grid)@, areas@, mark, areas@.len() as int),
        narrows(old(grid)@, final(grid)@),
        sound_over(old(grid)@, final(grid)@, areas@),
        changed == (final(grid)@ != old(grid)@),
{
    let mut changed = false;
    proof {
        lemma_narrows_refl(grid@);
    }
    let mut i: usize = 0;
    while i < areas.len()
        invariant
            i <= areas@.len(),
            areas_wf(areas@),
            grid@ == hidden_areas_for_mark(old(grid)@, areas@, mark, i as int),
            narrows(old(grid)@, grid@),
            sound_over(old(grid)@, grid@, areas@),
            changed == (grid@ != old(grid)@),
        decreases areas@.len() - i,
    {
        let ghost before = grid@;
        let step = set_if_possible_area_for_mark(grid, &areas[i], mark);
        proof {
            lemma_narrows_trans(old(grid)@, before, grid@);
            assert forall|s: Seq<int>| #[trigger]
                admits(old(grid)@, s) && is_solution(s) && (forall|k: int|
                    0 <= k < areas@.len() ==> covers(s, &#[trigger] areas@[k])) implies admits(
                grid@,
                s,
            ) by {
                assert(covers(s, &areas@[i as int]));
                assert(admits(before, s));
            }
        }
        changed = changed || step;
        i += 1;
    }
    changed
}

/// Looks for `mark` in the copy `data` of `area` and places it where the
/// copy leaves it one place that is still open; returns whether it did.
fn place_if_single<T: CellCollection>(grid: &mut Grid, data: &Slice, area: &T, mark: Mark) -> (changed:
    bool)
    requires
        area.wf(),
        area.size() == 9,
        forall|i: int| 9 <= i < 16 ==> data@[i] == 0,
    ensures
        final(grid)@ == hidden_step(old(grid)@, data@, area, mark),
        narrows(old(grid)@, final(grid)@),
        changed == (final(grid)@ != old(grid)@),
        forall|s: Seq<int>| #[trigger]
            admits(old(grid)@, s) && is_solution(s) && covers(s, area) && slice_admits(
                data@,
                area,
                s,
            ) ==> admits(final(grid)@, s),
{
    proof {
        lemma_narrows_refl(grid@);
        assert forall|s: Seq<int>| #[trigger]
            admits(grid@, s) && is_solution(s) && covers(s, area) && slice_admits(
                data@,
                area,
                s,
            ) implies admits(hidden_step(grid@, data@, area, mark), s) by {
            lemma_hidden_step_admits(grid@, data@, area, mark, s);
        }
    }
    if data.count_determined_value(mark.to_value()) == 0 && data.count_possible(mark) == 1 {
        let index = data.first_possible(mark);
        proof {
            lemma_mask_bits(0, 0, mark.bit());
            lemma_count_possible_words(data@, mark, 16);
        }
        let coord = area.get_coord(index);
        let cell = *grid.get_cell_at(coord);
        if !cell.is_determined() && cell.is_possible(mark) {
            let value = mark.to_value();
            proof {
                Mark::lemma_round_trip(mark);
                lemma_place_narrows(grid@, coord@, mark);
            }
            grid.place_value_at(coord, value);
            return true;
        }
    }
    false
}

/// Looks for every digit in a copy of `area`; returns whether the grid
/// changed.
pub fn set_if_possible_area<T: CellCollection>(grid: &mut Grid, area: &T) -> (changed: bool)
    requires
        area.wf(),
        area.size() == 9,
    ensures
        final(grid)@ == hidden_area(old(grid)@, area),
        narrows(old(grid)@, final(grid)@),
        sound_in(old(grid)@, final(grid)@, area),
        changed == (final(grid)@ != old(grid)@),
{
    let data = Slice::from(grid, area);
    let mut changed = false;
    proof {
        lemma_narrows_refl(grid@);
    }
    let mut k: u16 = 0;
    while k < 9
        invariant
            k <= 9,
            area.wf(),
            area.size() == 9,
            data@ == padded(area_words(area, old(grid)@)),
            grid@ == hidden_marks(old(grid)@, data@, area, k as int),
            narrows(old(grid)@, grid@),
            sound_in(old(grid)@, grid@, area),
            changed == (grid@ != old(grid)@),
        decreases 9 - k,
    {
        k = k + 1;
        let mark = Mark::from_value(k);
        let ghost before = grid@;
        let step = place_if_single(grid, &data, area, mark);
        proof {
            lemma_narrows_trans(old(grid)@, before, grid@);
            assert forall|s: Seq<int>| #[trigger]
                admits(old(grid)@, s) && is_solution(s) && covers(s, area) implies admits(
                grid@,
                s,
            ) by {
                lemma_slice_admits(old(grid)@, area, s);
                assert(admits(before, s));
            }
        }
        changed = changed || step;
    }
    changed
}

/// Looks for `mark` in a copy of `area`; returns whether the grid changed.
pub fn set_if_possible_area_for_mark<T: CellCollection>(grid: &mut Grid, area: &T, mark: Mark) -> (changed:
    bool)
    requires
        area.wf(),
        area.size() == 9,
    ensures
        final(grid)@ == hidden_area_for_mark(old(grid)@, area, mark),
        narrows(old(grid)@, final(grid)@),
        sound_in(old(grid)@, final(grid)@, area),
        changed == (final(grid)@ != old(grid)@),
{
    let data = Slice::from(grid, area);
    let changed = place_if_single(grid, &data, area, mark);
    proof {
        assert forall|s: Seq<int>| #[trigger]
            admits(old(grid)@, s) && is_solution(s) && covers(s, area) implies admits(
            grid@,
            s,
        ) by {
            lemma_slice_admits(old(grid)@, area, s);
        }
    }
    changed
}

} // verus!
