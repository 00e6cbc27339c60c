//! The reset rule: a cell that holds a value holds nothing else.

use vstd::prelude::*;
use crate::grid::cell::{word_determined, word_is_digit, word_value};
use crate::grid::grid::Grid;
use super::narrowing::{canonical, narrows, values_are_digits, word_narrows};
use super::solver::{SolveResult, Solver};
use super::soundness::{lemma_reset_sound, sound};

verus! {

/// The word after the reset: a cell with a value keeps its value bits and
/// nothing else, a cell without one stays as it is.
pub open spec fn reset_word(w: u16) -> u16 {
    if word_determined(w) {
        word_value(w)
    } else {
        w
    }
}

/// The grid `g` after the reset of every cell.
pub open spec fn reset_spec(g: Seq<u16>) -> Seq<u16> {
    Seq::new(81, |i: int| reset_word(g[i]))
}

/// Resetting a word twice is resetting it once; the word keeps its value
/// and gains no candidate; and a word whose value is a digit becomes that
/// bare digit.
pub proof fn lemma_reset_word(w: u16)
    ensures
        reset_word(reset_word(w)) == reset_word(w),
        word_determined(reset_word(w)) == word_determined(w),
        word_value(reset_word(w)) == word_value(w),
        word_narrows(w, reset_word(w)),
        1 <= word_value(w) <= 9 ==> word_is_digit(reset_word(w)),
        word_determined(w) && !word_is_digit(reset_word(w)) ==> word_value(w) > 9,
{
    assert((w & 0x000F) & 0x000F == w & 0x000F && (w & 0xFFF0) & !w == 0 && ((w & 0x000F)
        & 0xFFF0) & !w == 0 && (w & 0x000F != 0 ==> w & 0x000F >= 1)) by (bit_vector);
}

/// The reset never gives a candidate back and changes no value.
pub proof fn lemma_reset_narrows(g: Seq<u16>)
    requires
        g.len() == 81,
    ensures
        narrows(g, reset_spec(g)),
{
    assert forall|i: int| 0 <= i < 81 implies word_narrows(#[trigger] g[i], reset_spec(g)[i]) by {
        lemma_reset_word(g[i]);
    }
}

/// Resetting a grid twice is resetting it once.
pub proof fn lemma_reset_idempotent(g: Seq<u16>)
    ensures
        reset_spec(reset_spec(g)) == reset_spec(g),
{
    assert forall|i: int| 0 <= i < 81 implies reset_spec(reset_spec(g))[i] == reset_spec(g)[i] by {
        lemma_reset_word(g[i]);
    }
    assert(reset_spec(reset_spec(g)) =~= reset_spec(g));
}

/// After the reset of a grid whose values are digits, every cell that
/// holds a value holds a bare digit.
pub proof fn lemma_reset_canonical(g: Seq<u16>)
    requires
        values_are_digits(g),
    ensures
        canonical(reset_spec(g)),
{
    assert forall|i: int| 0 <= i < 81 && word_determined(#[trigger] reset_spec(g)[i]) implies
        word_is_digit(reset_spec(g)[i]) by {
        lemma_reset_word(g[i]);
    }
}

/// The rule that strips the candidates of the cells that hold a value.
pub struct MarkReset {}

impl MarkReset {
    /// Creates the rule.
    pub fn new() -> Self {
        Self {  }
    }

    /// Creates the rule in a box.
    pub fn new_box() -> Box<Self> {
        Box::new(Self::new())
    }

    /// Strips the candidates of every cell that holds a value and leaves
    /// every other cell as it is. No cell gains a candidate and no value
    /// changes, and no solution that the grid admits is lost.
    pub fn solve(grid: &mut Grid) -> (result: SolveResult)
        ensures
            final(grid)@ == reset_spec(old(grid)@),
            result == SolveResult::Nothing,
            narrows(old(grid)@, final(grid)@),
            sound(old(grid)@, final(grid)@),
    {
        let mut i: usize = 0;
        while i < 81
            invariant
                i <= 81,
                grid@.len() == 81,
                forall|k: int| 0 <= k < i ==> #[trigger] grid@[k] == reset_word(old(grid)@[k]),
                forall|k: int| i <= k < 81 ==> #[trigger] grid@[k] == old(grid)@[k],
            decreases 81 - i,
        {
            let cell = *grid.get_cell(i);
            if cell.is_determined() {
                grid.set_cell(i, &cell.only_determined());
            }
            i += 1;
        }
        assert(grid@ =~= reset_spec(old(grid)@));
        proof {
            lemma_reset_narrows(old(grid)@);
            lemma_reset_sound(old(grid)@);
        }
        SolveResult::Nothing
    }
}

impl Solver for MarkReset {
    open spec fn outcome(&self, g: Seq<u16>) -> (Seq<u16>, SolveResult) {
        (reset_spec(g), SolveResult::Nothing)
    }

    open spec fn title(&self) -> Seq<char> {
        "Mark Resetter"@
    }

    fn name(&self) -> (name: &'static str) {
        "Mark Resetter"
    }

    fn solve(&self, grid: &mut Grid) -> (result: SolveResult) {
        MarkReset::solve(grid)
    }
}

} // verus!
