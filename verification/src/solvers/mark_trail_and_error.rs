//! Trial elimination: a candidate whose placement would leave some box
//! without a place for the digit is no candidate.

use vstd::prelude::*;
use crate::grid::cell::{
    count_determined_words, count_possible_words, word_determined, word_possible,
};
use crate::grid::cell_collection::{area_words, CellCollection};
use crate::grid::grid::{place_spec, unset_possible_spec, Grid};
use crate::grid::mark::Mark;
use crate::grid::slice::{count_value_words, padded, Slice};
use crate::grid::square::Square;
use super::mark_shapes::mark_off_at;
use super::narrowing::{lemma_narrows_refl, lemma_narrows_trans, narrows};
use super::solver::{SolveResult, Solver};
use super::soundness::{
    admits, is_solution, lemma_box_house, lemma_every_digit_has_a_place, lemma_place_admits,
    lemma_sound_trans, lemma_unset_admits, sound,
};

verus! {

/// The words of the box `k` of the grid `g`, as a slice holds them.
pub open spec fn box_words(g: Seq<u16>, k: int) -> Seq<u16> {
    padded(area_words(&Square::of_index(k), g))
}

/// Whether the box `k` holds the digit of `mark`.
pub open spec fn box_has(g: Seq<u16>, k: int, mark: Mark) -> bool {
    count_value_words(box_words(g, k), mark.value() as u16, 16) > 0
}

/// Whether the box `k` neither holds the digit of `mark` nor offers it.
pub open spec fn box_lacks(g: Seq<u16>, k: int, mark: Mark) -> bool {
    !box_has(g, k, mark) && count_possible_words(box_words(g, k), mark, 16) == 0
}

/// Number of the boxes `0..n` that hold the digit of `mark`.
pub open spec fn boxes_with(g: Seq<u16>, mark: Mark, n: int) -> nat
    decreases n,
{
    if n <= 0 {
        0
    } else {
        boxes_with(g, mark, n - 1) + if box_has(g, n - 1, mark) {
            1nat
        } else {
            0nat
        }
    }
}

/// Whether one of the boxes `0..n`, the box `skip` left out, neither
/// holds the digit of `mark` nor offers it.
pub open spec fn some_box_lacks(g: Seq<u16>, skip: int, mark: Mark, n: int) -> bool
    decreases n,
{
    n > 0 && (some_box_lacks(g, skip, mark, n - 1) || (n - 1 != skip && box_lacks(g, n - 1, mark)))
}

/// Whether the rule is worth running for `mark`: at least twenty-five
/// cells hold a value, and between three and seven boxes hold the digit.
pub open spec fn trial_gate(g: Seq<u16>, mark: Mark) -> bool {
    3 <= boxes_with(g, mark, 9) <= 7 && count_determined_words(g, 81) >= 25
}

/// The grid `g` after the cell `j % 9` of the box `j / 9` was tried: where
/// the box did not hold the digit at the start, the cell holds no value
/// and offers `mark`, and placing it there would leave another box without
/// a place for the digit, the cell has lost the candidate.
pub open spec fn trial_step(g: Seq<u16>, had: Seq<bool>, mark: Mark, j: int) -> Seq<u16> {
    let c = Square::of_index(j / 9).coord_at(j % 9);
    if !had[j / 9] && !word_determined(g[c]) && word_possible(g[c], mark) && some_box_lacks(
        place_spec(g, c, mark),
        j / 9,
        mark,
        9,
    ) {
        unset_possible_spec(g, c, mark)
    } else {
        g
    }
}

/// The grid `g` after the first `n` cells were tried, box by box.
pub open spec fn trial_upto(g: Seq<u16>, had: Seq<bool>, mark: Mark, n: int) -> Seq<u16>
    decreases n,
{
    if n <= 0 {
        g
    } else {
        trial_step(trial_upto(g, had, mark, n - 1), had, mark, n - 1)
    }
}

/// The grid `g` after one run of the rule for `mark`.
pub open spec fn trial_for_mark(g: Seq<u16>, mark: Mark) -> Seq<u16> {
    if trial_gate(g, mark) {
        trial_upto(g, Seq::new(9, |k: int| box_has(g, k, mark)), mark, 81)
    } else {
        g
    }
}

/// The grid `g` after one run of the rule for the digits `1..=k`.
pub open spec fn trial_marks(g: Seq<u16>, k: int) -> Seq<u16>
    decreases k,
{
    if k <= 0 {
        g
    } else {
        trial_for_mark(trial_marks(g, k - 1), Mark::of_value(k))
    }
}

/// Whether every cell of `g` that holds a value is the same cell in `h`.
pub open spec fn keeps_placed_cells(g: Seq<u16>, h: Seq<u16>) -> bool {
    &&& h.len() == g.len()
    &&& forall|i: int| 0 <= i < 81 && word_determined(#[trigger] g[i]) ==> h[i] == g[i]
}

/// Trials at the first `n` cells touch no cell that holds a value.
pub proof fn lemma_trial_upto_keeps(g: Seq<u16>, had: Seq<bool>, mark: Mark, n: int)
    requires
        g.len() == 81,
        0 <= n <= 81,
    ensures
        keeps_placed_cells(g, trial_upto(g, had, mark, n)),
    decreases n,
{
    if n > 0 {
        lemma_trial_upto_keeps(g, had, mark, n - 1);
        crate::solvers::soundness::lemma_box_cell((n - 1) / 9, (n - 1) % 9);
    }
}

/// A run of the rule for the digits `1..=k` touches no cell that holds a
/// value.
pub proof fn lemma_trial_marks_keeps(g: Seq<u16>, k: int)
    requires
        g.len() == 81,
        0 <= k <= 9,
    ensures
        keeps_placed_cells(g, trial_marks(g, k)),
    decreases k,
{
    if k > 0 {
        lemma_trial_marks_keeps(g, k - 1);
        let h = trial_marks(g, k - 1);
        let mark = Mark::of_value(k);
        lemma_trial_upto_keeps(h, Seq::new(9, |b: int| box_has(h, b, mark)), mark, 81);
        assert forall|i: int| 0 <= i < 81 && word_determined(#[trigger] g[i]) implies trial_marks(
            g,
            k,
        )[i] == g[i] by {
            assert(h[i] == g[i]);
        }
    }
}

/// In a grid that admits a solution no box is left without a place for a
/// digit.
pub proof fn lemma_no_box_lacks(g: Seq<u16>, skip: int, mark: Mark, n: int, sol: Seq<int>)
    requires
        admits(g, sol),
        is_solution(sol),
        0 <= n <= 9,
    ensures
        !some_box_lacks(g, skip, mark, n),
    decreases n,
{
    if n > 0 {
        lemma_no_box_lacks(g, skip, mark, n - 1, sol);
        lemma_box_house(sol, n - 1);
        lemma_every_digit_has_a_place(g, sol, &Square::of_index(n - 1), mark);
    }
}

/// A trial loses no solution.
pub proof fn lemma_trial_step_sound(g: Seq<u16>, had: Seq<bool>, mark: Mark, j: int)
    requires
        0 <= j < 81,
        g.len() == 81,
    ensures
        sound(g, trial_step(g, had, mark, j)),
{
    assert forall|sol: Seq<int>| #[trigger] admits(g, sol) && is_solution(sol) implies admits(
        trial_step(g, had, mark, j),
        sol,
    ) by {
        let square = Square::of_index(j / 9);
        let c = square.coord_at(j % 9);
        crate::solvers::soundness::lemma_box_cell(j / 9, j % 9);
        if !had[j / 9] && !word_determined(g[c]) && word_possible(g[c], mark) && some_box_lacks(
            place_spec(g, c, mark),
            j / 9,
            mark,
            9,
        ) {
            if sol[c] == mark.value() {
                lemma_place_admits(g, c, mark, sol);
                lemma_no_box_lacks(place_spec(g, c, mark), j / 9, mark, 9, sol);
            }
            lemma_unset_admits(g, c, mark, sol);
        }
    }
}

/// The rule that tries a candidate and removes it if a box is left
/// without a place for the digit.
pub struct MarkTrailAndError {}

impl MarkTrailAndError {
    /// Creates the rule.
    pub fn new() -> Self {
        Self {  }
    }

    /// Creates the rule in a box.
    pub fn new_box() -> Box<Self> {
        Box::new(Self::new())
    }

    /// Runs the rule for each digit in turn. Reports `Updated` if the grid
    /// changed and `Nothing` if not. No cell gains a candidate and no value
    /// changes, no cell that holds a value is touched, and no solution that
    /// the grid admits is lost.
    pub fn solve(grid: &mut Grid) -> (result: SolveResult)
        ensures
            final(grid)@ == trial_marks(old(grid)@, 9),
            narrows(old(grid)@, final(grid)@),
            sound(old(grid)@, final(grid)@),
            keeps_placed_cells(old(grid)@, final(grid)@),
            result == SolveResult::of_changed(final(grid)@ != old(grid)@),
    {
        let mut changed = false;
        proof {
            lemma_narrows_refl(grid@);
            lemma_trial_marks_keeps(grid@, 9);
        }
        let mut k: u16 = 0;
        while k < 9
            invariant
                k <= 9,
                grid@ == trial_marks(old(grid)@, k as int),
                narrows(old(grid)@, grid@),
                sound(old(grid)@, grid@),
                changed == (grid@ != old(grid)@),
            decreases 9 - k,
        {
            k = k + 1;
            let ghost before = grid@;
            let step = MarkTrailAndError::solve_for_mark(grid, Mark::from_value(k));
            proof {
                lemma_narrows_trans(old(grid)@, before, grid@);
                lemma_sound_trans(old(grid)@, before, grid@);
            }
            changed = changed || step;
        }
        SolveResult::from_changed(changed)
    }

    /// Runs the rule for `mark`; returns whether the grid changed. No cell
    /// that holds a value is touched.
    pub fn solve_for_mark(grid: &mut Grid, mark: Mark) -> (changed: bool)
        ensures
            final(grid)@ == trial_for_mark(old(grid)@, mark),
            narrows(old(grid)@, final(grid)@),
            sound(old(grid)@, final(grid)@),
            keeps_placed_cells(old(grid)@, final(grid)@),
            changed == (final(grid)@ != old(grid)@),
    {
        let mut buffer = Grid::empty();
        let mut squares_determined: Vec<bool> = Vec::new();
        let mut squares_count: usize = 0;
        let mut changed = false;
        proof {
            lemma_narrows_refl(grid@);
            lemma_trial_upto_keeps(
                grid@,
                Seq::new(9, |k: int| box_has(grid@, k, mark)),
                mark,
                81,
            );
        }
        let determined = grid.count_determined();
        let mut sq_index: usize = 0;
        while sq_index < 9
            invariant
                sq_index <= 9,
                squares_determined@.len() == sq_index,
                forall|k: int|
                    0 <= k < sq_index ==> squares_determined@[k] == box_has(grid@, k, mark),
                squares_count == boxes_with(grid@, mark, sq_index as int),
                squares_count <= sq_index,
            decreases 9 - sq_index,
        {
            let sq = Square::from_square_index(sq_index);
            let has = Slice::from(grid, &sq).is_determined(mark.to_value());
            squares_determined.push(has);
            if has {
                squares_count += 1;
            }
            sq_index += 1;
        }
        if squares_count < 3 || squares_count > 7 || determined < 25 {
            return false;
        }
        let ghost had = Seq::new(9, |k: int| box_has(old(grid)@, k, mark));
        assert(squares_determined@ =~= had);
        let mut j: usize = 0;
        while j < 81
            invariant
                j <= 81,
                squares_determined@ == had,
                had.len() == 9,
                grid@ == trial_upto(old(grid)@, had, mark, j as int),
                narrows(old(grid)@, grid@),
                sound(old(grid)@, grid@),
                changed == (grid@ != old(grid)@),
            decreases 81 - j,
        {
            proof {
                lemma_trial_step_sound(grid@, had, mark, j as int);
                lemma_sound_trans(old(grid)@, grid@, trial_step(grid@, had, mark, j as int));
            }
            let sq_index = j / 9;
            let sq = Square::from_square_index(sq_index);
            let c = sq.get_coord(j % 9);
            let cell = *grid.get_cell_at(c);
            if !squares_determined[sq_index] && !cell.is_determined() && cell.is_possible(mark) {
                grid.clone_to(&mut buffer);
                proof {
                    Mark::lemma_round_trip(mark);
                }
                buffer.place_value_at(c, mark.to_value());
                if leaves_box_without(&buffer, sq_index, mark) {
                    let ghost before = grid@;
                    let step = mark_off_at(grid, c, mark);
                    proof {
                        lemma_narrows_trans(old(grid)@, before, grid@);
                    }
                    changed = true;
                }
            }
            j += 1;
        }
        changed
    }
}

impl Solver for MarkTrailAndError {
    open spec fn outcome(&self, g: Seq<u16>) -> (Seq<u16>, SolveResult) {
        (trial_marks(g, 9), SolveResult::of_changed(trial_marks(g, 9) != g))
    }

    open spec fn title(&self) -> Seq<char> {
        "Mark Trail And Error"@
    }

    fn name(&self) -> (name: &'static str) {
        "Mark Trail And Error"
    }

    fn solve(&self, grid: &mut Grid) -> (result: SolveResult) {
        MarkTrailAndError::solve(grid)
    }
}

/// Returns whether a box other than `skip` neither holds the digit of
/// `mark` nor offers it.
fn leaves_box_without(grid: &Grid, skip: usize, mark: Mark) -> (lacking: bool)
    ensures
        lacking == some_box_lacks(grid@, skip as int, mark, 9),
{
    let mut k: usize = 0;
    while k < 9
        invariant
            k <= 9,
            !some_box_lacks(grid@, skip as int, mark, k as int),
        decreases 9 - k,
    {
        if k != skip {
            let sq = Square::from_square_index(k);
            let a = Slice::from(grid, &sq);
            if !a.is_determined(mark.to_value()) && !a.any_possible(mark) {
                proof {
                    lemma_some_box_lacks_stays(grid@, skip as int, mark, k as int + 1, 9);
                }
                return true;
            }
        }
        k += 1;
    }
    false
}

/// A box that was found lacking stays found however far the boxes are
/// gone through.
proof fn lemma_some_box_lacks_stays(g: Seq<u16>, skip: int, mark: Mark, n: int, m: int)
    requires
        0 <= n <= m,
        some_box_lacks(g, skip, mark, n),
    ensures
        some_box_lacks(g, skip, mark, m),
    decreases m - n,
{
    if n < m {
        lemma_some_box_lacks_stays(g, skip, mark, n + 1, m);
    }
}

} // verus!
