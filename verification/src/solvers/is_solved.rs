//! The terminal rule: is the grid complete, or stuck?

use vstd::prelude::*;
use crate::grid::cell::{word_candidates, word_determined};
use crate::grid::grid::Grid;
use super::narrowing::lemma_narrows_refl;
use super::solver::{SolveResult, Solver};

verus! {

/// Whether the word has neither a value nor a candidate.
pub open spec fn word_stuck(w: u16) -> bool {
    !word_determined(w) && word_candidates(w) == 0
}

/// Whether every cell of the grid holds a value.
pub open spec fn all_determined(g: Seq<u16>) -> bool {
    forall|i: int| 0 <= i < 81 ==> word_determined(#[trigger] g[i])
}

/// Whether some cell of the grid has neither a value nor a candidate.
pub open spec fn some_stuck(g: Seq<u16>) -> bool {
    exists|i: int| 0 <= i < 81 && word_stuck(#[trigger] g[i])
}

/// What the terminal rule says of the grid `g`: `Error` if a cell has
/// neither value nor candidate, else `Solved` if every cell holds a value,
/// else `Nothing`.
pub open spec fn is_solved_spec(g: Seq<u16>) -> SolveResult {
    if some_stuck(g) {
        SolveResult::Error
    } else if all_determined(g) {
        SolveResult::Solved
    } else {
        SolveResult::Nothing
    }
}

/// The rule that ends a solve.
pub struct IsSolved {}

impl IsSolved {
    /// Creates the rule.
    pub fn new() -> Self {
        Self {  }
    }

    /// Creates the rule in a box.
    pub fn new_box() -> Box<Self> {
        Box::new(Self::new())
    }

    /// Returns `Error` if a cell has neither a value nor a candidate, else
    /// `Solved` if every cell holds a value, else `Nothing`.
    pub fn solve(grid: &Grid) -> (result: SolveResult)
        ensures
            result == is_solved_spec(grid@),
    {
        let mut filled = true;
        let mut i: usize = 0;
        while i < 81
            invariant
                i <= 81,
                forall|k: int| 0 <= k < i ==> !word_stuck(#[trigger] grid@[k]),
                filled == (forall|k: int| 0 <= k < i ==> word_determined(#[trigger] grid@[k])),
            decreases 81 - i,
        {
            let c = grid.get_cell(i);
            if !c.is_determined() {
                filled = false;
                if c.only_possible().is_empty() {
                    assert(word_stuck(grid@[i as int]));
                    return SolveResult::Error;
                }
            }
            i += 1;
        }
        if filled {
            SolveResult::Solved
        } else {
            SolveResult::Nothing
        }
    }
}

impl Solver for IsSolved {
    open spec fn outcome(&self, g: Seq<u16>) -> (Seq<u16>, SolveResult) {
        (g, is_solved_spec(g))
    }

    open spec fn title(&self) -> Seq<char> {
        "Is Solved"@
    }

    fn name(&self) -> (name: &'static str) {
        "Is Solved"
    }

    fn solve(&self, grid: &mut Grid) -> (result: SolveResult) {
        proof {
            lemma_narrows_refl(grid@);
        }
        IsSolved::solve(grid)
    }
}

} // verus!
