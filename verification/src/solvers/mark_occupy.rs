//! Locked candidates: a digit that a line confines to one box leaves the
//! rest of that box.

use vstd::prelude::*;
use crate::grid::cell::word_possible;
use crate::grid::cell_collection::{area_words, CellCollection};
use crate::grid::grid_mask::is_peer;
use crate::grid::slice::{count_value_words, padded, Slice};
use crate::grid::column::Column;
use crate::grid::grid::{unset_possible_spec, Grid};
use crate::grid::mark::Mark;
use crate::grid::row::Row;
use super::mark_shapes::{box_row_word, mark_off_at, only_one, or_cells, which_one};
use super::soundness::{
    admits, covers, is_solution, lemma_digit_is_offered, lemma_row_house, lemma_column_house,
    lemma_peers_differ, lemma_slice_admits, lemma_sound_trans, lemma_unset_admits, slice_admits,
    sound, sound_in,
};
use super::narrowing::{lemma_narrows_refl, lemma_narrows_trans, lemma_unset_narrows, narrows};
use super::solver::{SolveResult, Solver};

verus! {

/// The grid `g` with `mark` removed from the three cells of `set` that
/// start at `start`.
pub open spec fn unset_three_spec<T: CellCollection>(
    g: Seq<u16>,
    start: int,
    set: &T,
    mark: Mark,
) -> Seq<u16> {
    unset_possible_spec(
        unset_possible_spec(
            unset_possible_spec(g, set.coord_at(start), mark),
            set.coord_at(start + 1),
            mark,
        ),
        set.coord_at(start + 2),
        mark,
    )
}

/// The grid `g` after `mark` was looked at in a line of which `line` is a
/// copy: where the line holds the digit nowhere and one third of it alone
/// offers the digit, the same thirds of the two other lines have lost it.
pub open spec fn occupy_step<T: CellCollection>(
    g: Seq<u16>,
    line: Seq<u16>,
    other1: &T,
    other2: &T,
    mark: Mark,
) -> Seq<u16> {
    if count_value_words(line, mark.value() as u16, 16) != 0 {
        g
    } else {
        match only_one(
            word_possible(box_row_word(line, 0), mark),
            word_possible(box_row_word(line, 1), mark),
            word_possible(box_row_word(line, 2), mark),
        ) {
            Some(t) => unset_three_spec(
                unset_three_spec(g, 3 * t, other1, mark),
                3 * t,
                other2,
                mark,
            ),
            None => g,
        }
    }
}

/// The grid `g` after the digits `1..=k` were looked at.
pub open spec fn occupy_marks<T: CellCollection>(
    g: Seq<u16>,
    line: Seq<u16>,
    other1: &T,
    other2: &T,
    k: int,
) -> Seq<u16>
    decreases k,
{
    if k <= 0 {
        g
    } else {
        occupy_step(occupy_marks(g, line, other1, other2, k - 1), line, other1, other2, Mark::of_value(k))
    }
}

/// The grid `g` after the line `check` was held against the two other
/// lines of its band.
pub open spec fn occupy_set<T: CellCollection>(
    g: Seq<u16>,
    check: &T,
    other1: &T,
    other2: &T,
) -> Seq<u16> {
    occupy_marks(g, padded(area_words(check, g)), other1, other2, 9)
}

/// Whether the lines `check` and `other` run side by side through three
/// boxes: each cell of the one shares a box with the cells of the same
/// third of the other.
pub open spec fn is_band<T: CellCollection>(check: &T, other: &T) -> bool {
    &&& other.wf()
    &&& other.size() == 9
    &&& forall|i: int, j: int|
        0 <= i < 9 && 0 <= j < 9 && i / 3 == j / 3 ==> is_peer(
            #[trigger] check.coord_at(i),
            #[trigger] other.coord_at(j),
        )
}

/// Two rows of one band of the board run side by side, and so do two
/// columns.
pub proof fn lemma_board_bands(a: int, b: int)
    requires
        0 <= a < 9,
        0 <= b < 9,
        a != b,
        a / 3 == b / 3,
    ensures
        is_band(&Row { row: a as usize }, &Row { row: b as usize }),
        is_band(&Column { col: a as usize }, &Column { col: b as usize }),
{
    let r1 = Row { row: a as usize };
    let r2 = Row { row: b as usize };
    assert forall|i: int, j: int| 0 <= i < 9 && 0 <= j < 9 && i / 3 == j / 3 implies is_peer(
        #[trigger] r1.coord_at(i),
        #[trigger] r2.coord_at(j),
    ) by {
        let x = r1.coord_at(i);
        let y = r2.coord_at(j);
        assert(x / 9 == a && y / 9 == b);
        assert(x % 9 == i && y % 9 == j);
        assert(x / 27 == a / 3 && y / 27 == b / 3);
    }
    let c1 = Column { col: a as usize };
    let c2 = Column { col: b as usize };
    assert forall|i: int, j: int| 0 <= i < 9 && 0 <= j < 9 && i / 3 == j / 3 implies is_peer(
        #[trigger] c1.coord_at(i),
        #[trigger] c2.coord_at(j),
    ) by {
        let x = c1.coord_at(i);
        let y = c2.coord_at(j);
        assert(x / 9 == i && y / 9 == j);
        assert(x % 9 == a && y % 9 == b);
        assert(x / 27 == i / 3 && y / 27 == j / 3);
    }
}

/// A look at a digit in a line loses no solution that has every digit in
/// the line, if the copy of the line admits the solution and the two
/// other lines run beside it.
pub proof fn lemma_occupy_step_admits<T: CellCollection>(
    g: Seq<u16>,
    line: Seq<u16>,
    check: &T,
    other1: &T,
    other2: &T,
    mark: Mark,
    s: Seq<int>,
)
    requires
        admits(g, s),
        is_solution(s),
        covers(s, check),
        slice_admits(line, check, s),
        check.wf(),
        check.size() == 9,
        is_band(check, other1),
        is_band(check, other2),
    ensures
        admits(occupy_step(g, line, other1, other2, mark), s),
{
    if count_value_words(line, mark.value() as u16, 16) == 0 {
        let p0 = word_possible(box_row_word(line, 0), mark);
        let p1 = word_possible(box_row_word(line, 1), mark);
        let p2 = word_possible(box_row_word(line, 2), mark);
        match only_one(p0, p1, p2) {
            Some(t) => {
                let j = lemma_digit_is_offered(line, check, mark, s);
                let x = line[3 * (j / 3)];
                let y = line[3 * (j / 3) + 1];
                let z = line[3 * (j / 3) + 2];
                let b = mark.bit();
                assert((x & b != 0 || y & b != 0 || z & b != 0) ==> (x | y | z) & b != 0)
                    by (bit_vector);
                assert(word_possible(box_row_word(line, j / 3), mark));
                assert(j / 3 == t);
                check.lemma_coords_in_grid(j);
                let at = check.coord_at(j);
                let d = mark.value();
                let a0 = other1.coord_at(3 * t);
                let a1 = other1.coord_at(3 * t + 1);
                let a2 = other1.coord_at(3 * t + 2);
                let b0 = other2.coord_at(3 * t);
                let b1 = other2.coord_at(3 * t + 1);
                let b2 = other2.coord_at(3 * t + 2);
                other1.lemma_coords_in_grid(3 * t);
                other1.lemma_coords_in_grid(3 * t + 1);
                other1.lemma_coords_in_grid(3 * t + 2);
                other2.lemma_coords_in_grid(3 * t);
                other2.lemma_coords_in_grid(3 * t + 1);
                other2.lemma_coords_in_grid(3 * t + 2);
                assert(is_peer(at, a0) && is_peer(at, a1) && is_peer(at, a2));
                assert(is_peer(at, b0) && is_peer(at, b1) && is_peer(at, b2));
                lemma_peers_differ(s, at, a0);
                lemma_peers_differ(s, at, a1);
                lemma_peers_differ(s, at, a2);
                lemma_peers_differ(s, at, b0);
                lemma_peers_differ(s, at, b1);
                lemma_peers_differ(s, at, b2);
                let g1 = unset_possible_spec(g, a0, mark);
                lemma_unset_admits(g, a0, mark, s);
                let g2 = unset_possible_spec(g1, a1, mark);
                lemma_unset_admits(g1, a1, mark, s);
                let g3 = unset_possible_spec(g2, a2, mark);
                lemma_unset_admits(g2, a2, mark, s);
                let g4 = unset_possible_spec(g3, b0, mark);
                lemma_unset_admits(g3, b0, mark, s);
                let g5 = unset_possible_spec(g4, b1, mark);
                lemma_unset_admits(g4, b1, mark, s);
                lemma_unset_admits(g5, b2, mark, s);
            },
            None => {},
        }
    }
}

/// The grid `g` after each line of a band was held against the other two.
pub open spec fn occupy_band<T: CellCollection>(g: Seq<u16>, l1: &T, l2: &T, l3: &T) -> Seq<u16> {
    occupy_set(occupy_set(occupy_set(g, l1, l2, l3), l2, l1, l3), l3, l1, l2)
}

/// The grid `g` after the first `n` bands of rows were gone through.
pub open spec fn occupy_rows(g: Seq<u16>, n: int) -> Seq<u16>
    decreases n,
{
    if n <= 0 {
        g
    } else {
        occupy_band(
            occupy_rows(g, n - 1),
            &Row { row: (3 * (n - 1)) as usize },
            &Row { row: (3 * (n - 1) + 1) as usize },
            &Row { row: (3 * (n - 1) + 2) as usize },
        )
    }
}

/// The grid `g` after the first `n` bands of columns were gone through.
pub open spec fn occupy_columns(g: Seq<u16>, n: int) -> Seq<u16>
    decreases n,
{
    if n <= 0 {
        g
    } else {
        occupy_band(
            occupy_columns(g, n - 1),
            &Column { col: (3 * (n - 1)) as usize },
            &Column { col: (3 * (n - 1) + 1) as usize },
            &Column { col: (3 * (n - 1) + 2) as usize },
        )
    }
}

/// The grid `g` after one run of the rule: the bands of rows, then the
/// bands of columns.
pub open spec fn occupy_spec(g: Seq<u16>) -> Seq<u16> {
    occupy_columns(occupy_rows(g, 3), 3)
}

/// The rule that clears a box outside the line that confines a digit to
/// it.
pub struct MarkOccupy {}

impl MarkOccupy {
    /// Creates the rule.
    pub fn new() -> Self {
        Self {  }
    }

    /// Creates the rule in a box.
    pub fn new_box() -> Box<Self> {
        Box::new(Self::new())
    }

    /// Goes through the three bands of rows and the three bands of
    /// columns. Reports `Updated` if the grid changed and `Nothing` if not.
    /// No cell gains a candidate and no value changes, and no solution that
    /// the grid admits is lost.
    pub fn solve(grid: &mut Grid) -> (result: SolveResult)
        ensures
            final(grid)@ == occupy_spec(old(grid)@),
            narrows(old(grid)@, final(grid)@),
            sound(old(grid)@, final(grid)@),
            result == SolveResult::of_changed(final(grid)@ != old(grid)@),
    {
        let mut changed = false;
        proof {
            lemma_narrows_refl(grid@);
        }
        let mut band: usize = 0;
        while band < 3
            invariant
                band <= 3,
                grid@ == occupy_rows(old(grid)@, band as int),
                narrows(old(grid)@, grid@),
                sound(old(grid)@, grid@),
                changed == (grid@ != old(grid)@),
            decreases 3 - band,
        {
            let ghost before = grid@;
            let step = solve_row_band(grid, band);
            proof {
                lemma_narrows_trans(old(grid)@, before, grid@);
                lemma_sound_trans(old(grid)@, before, grid@);
            }
            changed = changed || step;
            band += 1;
        }
        let ghost rows_done = grid@;
        proof {
            lemma_narrows_refl(grid@);
        }
        let mut band: usize = 0;
        while band < 3
            invariant
                band <= 3,
                grid@ == occupy_columns(rows_done, band as int),
                narrows(old(grid)@, rows_done),
                narrows(rows_done, grid@),
                narrows(old(grid)@, grid@),
                sound(old(grid)@, grid@),
                changed == (grid@ != old(grid)@),
            decreases 3 - band,
        {
            let ghost before = grid@;
            let step = solve_column_band(grid, band);
            proof {
                lemma_narrows_trans(rows_done, before, grid@);
                lemma_narrows_trans(old(grid)@, before, grid@);
                lemma_sound_trans(old(grid)@, before, grid@);
            }
            changed = changed || step;
            band += 1;
        }
        SolveResult::from_changed(changed)
    }
}

impl Solver for MarkOccupy {
    open spec fn outcome(&self, g: Seq<u16>) -> (Seq<u16>, SolveResult) {
        (occupy_spec(g), SolveResult::of_changed(occupy_spec(g) != g))
    }

    open spec fn title(&self) -> Seq<char> {
        "Mark Occupy"@
    }

    fn name(&self) -> (name: &'static str) {
        "Mark Occupy"
    }

    fn solve(&self, grid: &mut Grid) -> (result: SolveResult) {
        MarkOccupy::solve(grid)
    }
}

/// Goes through the band `band` of rows; returns whether the grid
/// changed.
fn solve_row_band(grid: &mut Grid, band: usize) -> (changed: bool)
    requires
        band < 3,
    ensures
        final(grid)@ == occupy_band(
            old(grid)@,
            &Row { row: (3 * band) as usize },
            &Row { row: (3 * band + 1) as usize },
            &Row { row: (3 * band + 2) as usize },
        ),
        narrows(old(grid)@, final(grid)@),
        sound(old(grid)@, final(grid)@),
        changed == (final(grid)@ != old(grid)@),
{
    let index = band * 3;
    let r1 = Row::new(index);
    let r2 = Row::new(index + 1);
    let r3 = Row::new(index + 2);
    let changed = solve_band(grid, &r1, &r2, &r3);
    proof {
        let a = index as int;
        lemma_board_bands(a, a + 1);
        lemma_board_bands(a, a + 2);
        lemma_board_bands(a + 1, a);
        lemma_board_bands(a + 1, a + 2);
        lemma_board_bands(a + 2, a);
        lemma_board_bands(a + 2, a + 1);
        assert forall|s: Seq<int>| #[trigger]
            admits(old(grid)@, s) && is_solution(s) implies admits(grid@, s) by {
            lemma_row_house(s, a);
            lemma_row_house(s, a + 1);
            lemma_row_house(s, a + 2);
        }
    }
    changed
}

/// Goes through the band `band` of columns; returns whether the grid
/// changed.
fn solve_column_band(grid: &mut Grid, band: usize) -> (changed: bool)
    requires
        band < 3,
    ensures
        final(grid)@ == occupy_band(
            old(grid)@,
            &Column { col: (3 * band) as usize },
            &Column { col: (3 * band + 1) as usize },
            &Column { col: (3 * band + 2) as usize },
        ),
        narrows(old(grid)@, final(grid)@),
        sound(old(grid)@, final(grid)@),
        changed == (final(grid)@ != old(grid)@),
{
    let index = band * 3;
    let c1 = Column::new(index);
    let c2 = Column::new(index + 1);
    let c3 = Column::new(index + 2);
    let changed = solve_band(grid, &c1, &c2, &c3);
    proof {
        let a = index as int;
        lemma_board_bands(a, a + 1);
        lemma_board_bands(a, a + 2);
        lemma_board_bands(a + 1, a);
        lemma_board_bands(a + 1, a + 2);
        lemma_board_bands(a + 2, a);
        lemma_board_bands(a + 2, a + 1);
        assert forall|s: Seq<int>| #[trigger]
            admits(old(grid)@, s) && is_solution(s) implies admits(grid@, s) by {
            lemma_column_house(s, a);
            lemma_column_house(s, a + 1);
            lemma_column_house(s, a + 2);
        }
    }
    changed
}

/// Holds each line of a band against the other two; returns whether the
/// grid changed.
fn solve_band<T: CellCollection>(grid: &mut Grid, l1: &T, l2: &T, l3: &T) -> (changed: bool)
    requires
        l1.wf() && l1.size() == 9,
        l2.wf() && l2.size() == 9,
        l3.wf() && l3.size() == 9,
    ensures
        final(grid)@ == occupy_band(old(grid)@, l1, l2, l3),
        narrows(old(grid)@, final(grid)@),
        changed == (final(grid)@ != old(grid)@),
        is_band(l1, l2) && is_band(l1, l3) && is_band(l2, l1) && is_band(l2, l3) && is_band(l3, l1)
            && is_band(l3, l2) ==> forall|s: Seq<int>| #[trigger]
            admits(old(grid)@, s) && is_solution(s) && covers(s, l1) && covers(s, l2) && covers(
                s,
                l3,
            ) ==> admits(final(grid)@, s),
{
    let ch1 = solve_set(grid, l1, l2, l3);
    let ghost g1 = grid@;
    let ch2 = solve_set(grid, l2, l1, l3);
    let ghost g2 = grid@;
    let ch3 = solve_set(grid, l3, l1, l2);
    proof {
        lemma_narrows_trans(old(grid)@, g1, g2);
        lemma_narrows_trans(g1, g2, grid@);
        lemma_narrows_trans(old(grid)@, g2, grid@);
        lemma_narrows_trans(old(grid)@, g1, grid@);
        if is_band(l1, l2) && is_band(l1, l3) && is_band(l2, l1) && is_band(l2, l3) && is_band(
            l3,
            l1,
        ) && is_band(l3, l2) {
            assert forall|s: Seq<int>| #[trigger]
                admits(old(grid)@, s) && is_solution(s) && covers(s, l1) && covers(s, l2)
                    && covers(s, l3) implies admits(grid@, s) by {
                assert(admits(g1, s));
                assert(admits(g2, s));
            }
        }
    }
    ch1 || ch2 || ch3
}

/// Holds the line `check` against the lines `other1` and `other2` of its
/// band; returns whether the grid changed.
fn solve_set<T: CellCollection>(grid: &mut Grid, check: &T, other1: &T, other2: &T) -> (changed: bool)
    requires
        check.wf() && check.size() == 9,
        other1.wf() && other1.size() == 9,
        other2.wf() && other2.size() == 9,
    ensures
        final(grid)@ == occupy_set(old(grid)@, check, other1, other2),
        narrows(old(grid)@, final(grid)@),
        changed == (final(grid)@ != old(grid)@),
        is_band(check, other1) && is_band(check, other2) ==> sound_in(
            old(grid)@,
            final(grid)@,
            check,
        ),
{
    let line = Slice::from(grid, check);
    let c1 = or_cells(&line, 0, 1, 2);
    let c2 = or_cells(&line, 3, 4, 5);
    let c3 = or_cells(&line, 6, 7, 8);
    let mut changed = false;
    proof {
        lemma_narrows_refl(grid@);
    }
    let mut k: u16 = 0;
    while k < 9
        invariant
            k <= 9,
            check.wf() && check.size() == 9,
            other1.wf() && other1.size() == 9,
            other2.wf() && other2.size() == 9,
            line@ == padded(area_words(check, old(grid)@)),
            c1@ == box_row_word(line@, 0),
            c2@ == box_row_word(line@, 1),
            c3@ == box_row_word(line@, 2),
            grid@ == occupy_marks(old(grid)@, line@, other1, other2, k as int),
            narrows(old(grid)@, grid@),
            is_band(check, other1) && is_band(check, other2) ==> sound_in(
                old(grid)@,
                grid@,
                check,
            ),
            changed == (grid@ != old(grid)@),
        decreases 9 - k,
    {
        k = k + 1;
        let mark = Mark::from_value(k);
        let ghost before = grid@;
        proof {
            if is_band(check, other1) && is_band(check, other2) {
                assert forall|s: Seq<int>| #[trigger]
                    admits(old(grid)@, s) && is_solution(s) && covers(s, check) implies admits(
                    occupy_step(before, line@, other1, other2, mark),
                    s,
                ) by {
                    assert(admits(before, s));
                    lemma_slice_admits(old(grid)@, check, s);
                    lemma_occupy_step_admits(before, line@, check, other1, other2, mark, s);
                }
            }
            Mark::lemma_value_of_value(k as int);
        }
        if line.count_determined_value(mark.to_value()) == 0 {
            if let Some(t) = which_one(
                c1.is_possible(mark),
                c2.is_possible(mark),
                c3.is_possible(mark),
            ) {
                let step1 = unset_three_checked(grid, 3 * t, other1, mark);
                let ghost middle = grid@;
                let step2 = unset_three_checked(grid, 3 * t, other2, mark);
                proof {
                    lemma_narrows_trans(before, middle, grid@);
                    lemma_narrows_trans(old(grid)@, before, grid@);
                }
                changed = changed || step1 || step2;
            }
        }
    }
    changed
}

/// Removes `mark` from the three cells of `set` that start at `start`;
/// returns whether the grid changed.
fn unset_three_checked<T: CellCollection>(grid: &mut Grid, start: usize, set: &T, mark: Mark) -> (changed:
    bool)
    requires
        set.wf(),
        start + 2 < set.size(),
    ensures
        final(grid)@ == unset_three_spec(old(grid)@, start as int, set, mark),
        narrows(old(grid)@, final(grid)@),
        changed == (final(grid)@ != old(grid)@),
{
    proof {
        set.lemma_coords_in_grid(start as int);
    }
    let ch1 = mark_off_at(grid, set.get_coord(start), mark);
    let ghost g1 = grid@;
    let ch2 = mark_off_at(grid, set.get_coord(start + 1), mark);
    let ghost g2 = grid@;
    let ch3 = mark_off_at(grid, set.get_coord(start + 2), mark);
    proof {
        lemma_narrows_trans(old(grid)@, g1, g2);
        lemma_narrows_trans(g1, g2, grid@);
        lemma_narrows_trans(old(grid)@, g2, grid@);
        lemma_narrows_trans(old(grid)@, g1, grid@);
    }
    ch1 || ch2 || ch3
}

/// Removes `mark` from the three cells of `set` that start at `start`.
pub fn unset_three<T: CellCollection>(grid: &mut Grid, start: usize, set: &T, mark: Mark)
    requires
        set.wf(),
        start + 2 < set.size(),
    ensures
        final(grid)@ == unset_three_spec(old(grid)@, start as int, set, mark),
        narrows(old(grid)@, final(grid)@),
{
    proof {
        lemma_narrows_refl(grid@);
        set.lemma_coords_in_grid(start as int);
    }
    grid.unset_possible_at(set.get_coord(start), mark);
    let ghost g1 = grid@;
    grid.unset_possible_at(set.get_coord(start + 1), mark);
    let ghost g2 = grid@;
    grid.unset_possible_at(set.get_coord(start + 2), mark);
    proof {
        lemma_unset_narrows(old(grid)@, set.coord_at(start as int), mark);
        lemma_unset_narrows(g1, set.coord_at(start + 1), mark);
        lemma_unset_narrows(g2, set.coord_at(start + 2), mark);
        lemma_narrows_trans(old(grid)@, g1, g2);
        lemma_narrows_trans(old(grid)@, g2, grid@);
    }
}

} // verus!
