//! The naked single: a cell with one candidate left gets it as its value.

use vstd::prelude::*;
use crate::grid::cell::{
    lemma_mark_bits, lemma_marks_upto, marks_upto, popcount, word_candidates, word_determined,
    word_marks, word_possible,
};
use crate::grid::cell_collection::CellCollection;
use crate::grid::grid::{place_spec, Grid};
use crate::grid::mark::Mark;
use super::narrowing::{lemma_narrows_refl, lemma_narrows_trans, lemma_place_narrows, narrows};
use super::solver::{SolveResult, Solver};
use super::soundness::{
    admits, cell_admits, is_solution, lemma_place_admits, lemma_popcount_one,
    lemma_single_candidate, sound,
};

verus! {

/// Whether a cell with the word `w` has no value and exactly one
/// candidate.
pub open spec fn one_left(w: u16) -> bool {
    !word_determined(w) && popcount(word_candidates(w)) == 1
}

/// The grid `g` after the cell `i` was looked at: where it has no value and
/// exactly one candidate, the candidate was placed.
pub open spec fn survivor_step(g: Seq<u16>, i: int) -> Seq<u16> {
    if one_left(g[i]) {
        place_spec(g, i, word_marks(g[i])[0])
    } else {
        g
    }
}

/// A cell with no value and exactly one candidate offers that digit and
/// no other.
pub proof fn lemma_one_left(w: u16, n: Mark)
    requires
        one_left(w),
    ensures
        word_marks(w).len() > 0,
        word_possible(w, word_marks(w)[0]),
        word_possible(w, n) ==> n == word_marks(w)[0],
{
    let c = word_candidates(w);
    lemma_popcount_one(c);
    lemma_marks_upto(w, 9);
    assert(w & 0x0080 != 0 || w & 0x0100 != 0 || w & 0x0200 != 0 || w & 0x0400 != 0 || w & 0x0800
        != 0 || w & 0x1000 != 0 || w & 0x2000 != 0 || w & 0x4000 != 0 || w & 0x8000 != 0)
        by (bit_vector)
        requires
            c == w & 0xFF80,
            c == 0x0001 || c == 0x0002 || c == 0x0004 || c == 0x0008 || c == 0x0010 || c == 0x0020
                || c == 0x0040 || c == 0x0080 || c == 0x0100 || c == 0x0200 || c == 0x0400 || c
                == 0x0800 || c == 0x1000 || c == 0x2000 || c == 0x4000 || c == 0x8000,
    ;
    assert(exists|j: int| 1 <= j <= 9 && word_possible(w, #[trigger] Mark::of_value(j))) by {
        assert(Mark::of_value(1) == Mark::N1 && Mark::of_value(2) == Mark::N2 && Mark::of_value(3)
            == Mark::N3 && Mark::of_value(4) == Mark::N4 && Mark::of_value(5) == Mark::N5
            && Mark::of_value(6) == Mark::N6 && Mark::of_value(7) == Mark::N7 && Mark::of_value(8)
            == Mark::N8 && Mark::of_value(9) == Mark::N9);
    }
    let j = choose|j: int| 1 <= j <= 9 && word_possible(w, #[trigger] Mark::of_value(j));
    assert(marks_upto(w, 9).contains(Mark::of_value(j)));
    let m = word_marks(w)[0];
    assert(word_possible(w, m));
    if word_possible(w, n) {
        let a = m.bit();
        let b = n.bit();
        lemma_mark_bits(m, n);
        lemma_mark_bits(n, m);
        assert(c & a != 0 && c & b != 0) by (bit_vector)
            requires
                c == w & 0xFF80,
                w & a != 0,
                w & b != 0,
                a & 0xFF80 == a,
                b & 0xFF80 == b,
        ;
        lemma_single_candidate(c, m, n);
    }
}

/// The grid `g` after the cells `0..n` were looked at in turn.
pub open spec fn survivor_upto(g: Seq<u16>, n: int) -> Seq<u16>
    decreases n,
{
    if n <= 0 {
        g
    } else {
        survivor_step(survivor_upto(g, n - 1), n - 1)
    }
}

/// The grid `g` after one run of the rule.
pub open spec fn survivor_spec(g: Seq<u16>) -> Seq<u16> {
    survivor_upto(g, 81)
}

/// A look at a cell loses no solution.
pub proof fn lemma_survivor_step_sound(g: Seq<u16>, i: int)
    requires
        0 <= i < 81,
    ensures
        sound(g, survivor_step(g, i)),
{
    assert forall|s: Seq<int>| #[trigger] admits(g, s) && is_solution(s) implies admits(
        survivor_step(g, i),
        s,
    ) by {
        let w = g[i];
        crate::solvers::soundness::lemma_solution_digits(s);
        if one_left(w) {
            let mark = word_marks(w)[0];
            assert(cell_admits(g[i], s[i]));
            lemma_one_left(w, Mark::of_value(s[i]));
            Mark::lemma_value_of_value(s[i]);
            lemma_place_admits(g, i, mark, s);
        }
    }
}

/// The rule that places the last candidate of a cell.
pub struct MarkSurvivor {}

impl MarkSurvivor {
    /// Creates the rule.
    pub fn new() -> Self {
        Self {  }
    }

    /// Creates the rule in a box.
    pub fn new_box() -> Box<Self> {
        Box::new(Self::new())
    }

    /// Looks at the cells in turn and places the candidate of each cell
    /// that has no value and exactly one candidate. Reports `Updated` if
    /// the grid changed and `Nothing` if not. No cell gains a candidate and
    /// no value changes, and no solution that the grid admits is lost.
    pub fn solve(grid: &mut Grid) -> (result: SolveResult)
        ensures
            final(grid)@ == survivor_spec(old(grid)@),
            narrows(old(grid)@, final(grid)@),
            sound(old(grid)@, final(grid)@),
            result == SolveResult::of_changed(final(grid)@ != old(grid)@),
    {
        let mut result = SolveResult::Nothing;
        proof {
            lemma_narrows_refl(grid@);
        }
        let mut i: usize = 0;
        while i < 81
            invariant
                i <= 81,
                grid@ == survivor_upto(old(grid)@, i as int),
                narrows(old(grid)@, grid@),
                sound(old(grid)@, grid@),
                result == SolveResult::of_changed(grid@ != old(grid)@),
            decreases 81 - i,
        {
            proof {
                lemma_survivor_step_sound(grid@, i as int);
            }
            let coord = grid.get_coord(i);
            let cell = *grid.get_cell_at(coord);
            if !cell.is_determined() && cell.only_possible().possible_count() == 1 {
                proof {
                    lemma_one_left(cell@, Mark::N1);
                }
                let marks = cell.iter_possible();
                let mark = marks[0];
                let ghost before = grid@;
                grid.place_value_at(coord, mark.to_value());
                result = SolveResult::Updated;
                proof {
                    Mark::lemma_round_trip(mark);
                    lemma_place_narrows(before, i as int, mark);
                    lemma_narrows_trans(old(grid)@, before, grid@);
                }
            }
            i += 1;
        }
        result
    }
}

impl Solver for MarkSurvivor {
    open spec fn outcome(&self, g: Seq<u16>) -> (Seq<u16>, SolveResult) {
        (survivor_spec(g), SolveResult::of_changed(survivor_spec(g) != g))
    }

    open spec fn title(&self) -> Seq<char> {
        "Mark Survivor"@
    }

    fn name(&self) -> (name: &'static str) {
        "Mark Survivor"
    }

    fn solve(&self, grid: &mut Grid) -> (result: SolveResult) {
        MarkSurvivor::solve(grid)
    }
}

} // verus!
