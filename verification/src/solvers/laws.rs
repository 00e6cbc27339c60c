//! What holds of the rules taken together.

use vstd::prelude::*;
use super::solver::SolveResult;
use super::solver_manager::{round_grid, round_result};

verus! {

/// What a rule reports that takes the grid `g` to the grid `rule(g)` and
/// says whether it changed the grid. This is the report of locked
/// candidates, shape elimination, naked singles, hidden singles and trial
/// elimination.
pub open spec fn change_report(rule: spec_fn(Seq<u16>) -> Seq<u16>, g: Seq<u16>) -> SolveResult {
    SolveResult::of_changed(rule(g) != g)
}

/// A rule that reports `Nothing` has left the grid as it was, and a second
/// run on that grid reports `Nothing` again.
pub proof fn lemma_rule_rests_at_a_fixed_point(rule: spec_fn(Seq<u16>) -> Seq<u16>, g: Seq<u16>)
    requires
        change_report(rule, g) == SolveResult::Nothing,
    ensures
        rule(g) == g,
        change_report(rule, rule(g)) == SolveResult::Nothing,
{
}

/// A round that reports `Nothing` has left the grid as it was, and the
/// next round reports `Nothing` again.
pub proof fn lemma_round_rests_at_a_fixed_point(g: Seq<u16>)
    requires
        round_result(g) == SolveResult::Nothing,
    ensures
        round_grid(g) == g,
        round_result(round_grid(g)) == SolveResult::Nothing,
{
}

} // verus!
