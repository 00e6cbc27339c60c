//! Simple peer elimination: around every cell that holds a digit, remove
//! that digit from the candidates.

use vstd::prelude::*;
use crate::grid::cell::word_value;
use crate::grid::coords::Coord;
use crate::grid::grid::{mark_off_spec, Grid};
use crate::grid::mark::Mark;
use super::narrowing::{lemma_mark_off_narrows, lemma_narrows_refl, lemma_narrows_trans, narrows};
use super::soundness::{admits, cell_admits, is_solution, lemma_mark_off_admits, sound};
use super::solver::{SolveResult, Solver};

verus! {

/// The grid `g` after the cell `i` was looked at: where it holds a digit,
/// the mask that removes the digit around `i` was applied.
pub open spec fn simple_step(g: Seq<u16>, i: int) -> Seq<u16> {
    let v = word_value(g[i]);
    if 1 <= v <= 9 {
        mark_off_spec(g, i, Mark::of_value(v as int))
    } else {
        g
    }
}

/// The grid `g` after the cells `0..n` were looked at in turn.
pub open spec fn simple_upto(g: Seq<u16>, n: int) -> Seq<u16>
    decreases n,
{
    if n <= 0 {
        g
    } else {
        simple_step(simple_upto(g, n - 1), n - 1)
    }
}

/// The grid `g` after simple peer elimination.
pub open spec fn simple_spec(g: Seq<u16>) -> Seq<u16> {
    simple_upto(g, 81)
}

/// A look at a cell loses no solution.
pub proof fn lemma_simple_step_sound(g: Seq<u16>, i: int)
    requires
        0 <= i < 81,
    ensures
        sound(g, simple_step(g, i)),
{
    assert forall|s: Seq<int>| #[trigger] admits(g, s) && is_solution(s) implies admits(
        simple_step(g, i),
        s,
    ) by {
        let v = word_value(g[i]);
        crate::solvers::soundness::lemma_solution_digits(s);
        if 1 <= v <= 9 {
            assert(cell_admits(g[i], s[i]));
            crate::grid::cell::lemma_digit_word(g[i], 0);
            crate::grid::mark::Mark::lemma_value_of_value(v as int);
            lemma_mark_off_admits(g, i, Mark::of_value(v as int), s);
        }
    }
}

/// The rule that removes every placed digit from the candidates of the
/// cells around it.
pub struct MarkSimple {}

impl MarkSimple {
    /// Creates the rule.
    pub fn new() -> Self {
        Self {  }
    }

    /// Creates the rule in a box.
    pub fn new_box() -> Box<Self> {
        Box::new(Self::new())
    }

    /// Looks at the cells in turn and, around each that holds a digit,
    /// removes that digit from the candidates. No cell gains a candidate
    /// and no value changes, and no solution that the grid admits is lost.
    /// A second run changes nothing.
    pub fn solve(grid: &mut Grid) -> (result: SolveResult)
        ensures
            final(grid)@ == simple_spec(old(grid)@),
            narrows(old(grid)@, final(grid)@),
            sound(old(grid)@, final(grid)@),
            simple_spec(final(grid)@) == final(grid)@,
            result == SolveResult::Nothing,
    {
        let mut i: usize = 0;
        proof {
            crate::solvers::completeness::lemma_simple_idempotent(grid@);
            lemma_narrows_refl(grid@);
        }
        while i < 81
            invariant
                i <= 81,
                grid@ == simple_upto(old(grid)@, i as int),
                narrows(old(grid)@, grid@),
                sound(old(grid)@, grid@),
            decreases 81 - i,
        {
            proof {
                lemma_simple_step_sound(grid@, i as int);
            }
            let value = grid.get_cell(i).only_determined().get_value();
            if 1 <= value && value <= 9 {
                let ghost before = grid@;
                grid.mark_off(Coord::from_index(i), value);
                proof {
                    lemma_mark_off_narrows(before, i as int, Mark::of_value(value as int));
                    lemma_narrows_trans(old(grid)@, before, grid@);
                }
            }
            i += 1;
        }
        SolveResult::Nothing
    }
}

impl Solver for MarkSimple {
    open spec fn outcome(&self, g: Seq<u16>) -> (Seq<u16>, SolveResult) {
        (simple_spec(g), SolveResult::Nothing)
    }

    open spec fn title(&self) -> Seq<char> {
        "Mark Simple"@
    }

    fn name(&self) -> (name: &'static str) {
        "Mark Simple"
    }

    fn solve(&self, grid: &mut Grid) -> (result: SolveResult) {
        MarkSimple::solve(grid)
    }
}

} // verus!
