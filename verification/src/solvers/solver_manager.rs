//! The driver: pre-solve once, run the rules to a fixed point, and where
//! that stalls, try candidates one ply deep.

use vstd::prelude::*;
use crate::grid::cell::{count_determined_words, word_determined, word_possible, word_value};
use crate::grid::grid::{place_spec, unset_possible_spec, Grid};
use crate::grid::mark::Mark;
use super::completeness::{
    digits_of, is_the_solution, lemma_admits_solved, lemma_admits_valid,
    lemma_failed_trial_sound, lemma_full_grid_is_solution, lemma_simple_propagated, solvable,
};
use super::determined_solver::{hidden_spec, DeterminedSolver};
use super::is_solved::{all_determined, is_solved_spec, IsSolved};
use super::mark_occupy::{occupy_spec, MarkOccupy};
use super::mark_reset::{lemma_reset_canonical, lemma_reset_word, reset_spec, MarkReset};
use super::mark_simple::{simple_spec, MarkSimple};
use super::mark_survivor::{survivor_spec, MarkSurvivor};
use super::narrowing::{
    canonical, lemma_narrows_canonical, lemma_narrows_refl, lemma_narrows_trans,
    lemma_place_narrows, lemma_unset_narrows, narrows, values_are_digits,
};
use super::solver::{AnnotatedSolverResult, SolveResult};
use super::soundness::{
    admits, is_solution, keeps_solutions, lemma_keeps_solutions_sound,
    lemma_reset_keeps_solutions, lemma_sound_trans, agrees_with, sound,
};
use super::propagation::{lemma_round_settled, settled};
use super::validator::{grid_valid, is_valid, lemma_grid_valid};

verus! {

/// The settings of the driver.
pub struct SolverManagerConfig {
    /// The number of rounds after which a solve gives up.
    pub max_iterations: usize,
}

impl SolverManagerConfig {
    /// Creates the default settings: a thousand rounds.
    pub fn new() -> (config: SolverManagerConfig)
        ensures
            config.max_iterations == 1000,
    {
        Self { max_iterations: 1000 }
    }
}

/// The driver.
pub struct SolverManager {
    /// The settings.
    pub config: SolverManagerConfig,
}

/// Whether every cell that holds a value in `g` holds the same value in
/// `h`.
pub open spec fn keeps_values(g: Seq<u16>, h: Seq<u16>) -> bool {
    forall|i: int|
        0 <= i < 81 && word_determined(#[trigger] g[i]) ==> word_value(h[i]) == word_value(g[i])
}

/// The grid `g` after pre-solve: the reset, then simple peer elimination.
pub open spec fn pre_solve_grid(g: Seq<u16>) -> Seq<u16> {
    simple_spec(reset_spec(g))
}

/// What pre-solve says of the grid `g`: `Error` if the grid it leaves has
/// not the shape of a grid, else `Nothing`.
pub open spec fn pre_solve_result(g: Seq<u16>) -> SolveResult {
    if grid_valid(pre_solve_grid(g)) {
        SolveResult::Nothing
    } else {
        SolveResult::Error
    }
}

/// The grid `g` after one round: locked candidates, naked singles, hidden
/// singles.
pub open spec fn round_grid(g: Seq<u16>) -> Seq<u16> {
    hidden_spec(survivor_spec(occupy_spec(g)))
}

/// What one round says of the grid `g`: the greater of `Updated` or
/// `Nothing`, as the round changed the grid or not, and of what the
/// terminal rule says of the grid that the round left.
pub open spec fn round_result(g: Seq<u16>) -> SolveResult {
    SolveResult::of_changed(round_grid(g) != g).join(is_solved_spec(round_grid(g)))
}

/// One more than `n`, as far as the machine counts.
pub open spec fn next_iteration(n: int) -> int {
    if n < usize::MAX {
        n + 1
    } else {
        n
    }
}

/// The grid, the outcome and the count of rounds that the loop of rounds
/// comes to from the grid `g` at the count `iteration`: it ends on `Solved`
/// or `Error`, on a round that changed nothing, and when the count reaches
/// `max`.
pub open spec fn rounds_spec(g: Seq<u16>, iteration: int, max: int) -> (Seq<u16>, SolveResult, int)
    decreases max - iteration,
{
    let g1 = round_grid(g);
    let r = round_result(g);
    if r.done() {
        (g1, r, iteration)
    } else if next_iteration(iteration) >= max || r != SolveResult::Updated || next_iteration(
        iteration,
    ) <= iteration {
        (g1, r, next_iteration(iteration))
    } else {
        rounds_spec(g1, next_iteration(iteration), max)
    }
}

/// The grid, the outcome and the count of rounds of a simple solve of the
/// grid `g` that starts at the count `start`: pre-solve, the loop of
/// rounds, and the check that the grid that is left has the shape of a
/// grid, without which the outcome is `Error`.
pub open spec fn simple_spec_from(g: Seq<u16>, start: int, max: int) -> (
    Seq<u16>,
    SolveResult,
    int,
) {
    if pre_solve_result(g) == SolveResult::Error {
        (pre_solve_grid(g), SolveResult::Error, start)
    } else {
        let (g1, r, it) = rounds_spec(pre_solve_grid(g), start, max);
        if !grid_valid(g1) {
            (g1, SolveResult::Error, it)
        } else {
            (g1, r, it)
        }
    }
}

/// The reset keeps every value.
pub proof fn lemma_reset_keeps_values(g: Seq<u16>)
    requires
        g.len() == 81,
    ensures
        keeps_values(g, reset_spec(g)),
        reset_spec(g).len() == 81,
{
    assert forall|i: int| 0 <= i < 81 && word_determined(#[trigger] g[i]) implies word_value(
        reset_spec(g)[i],
    ) == word_value(g[i]) by {
        lemma_reset_word(g[i]);
    }
}

/// What keeps the values of a grid keeps them through any deduction that
/// follows.
pub proof fn lemma_keeps_values_narrows(g: Seq<u16>, h: Seq<u16>, k: Seq<u16>)
    requires
        keeps_values(g, h),
        narrows(h, k),
        g.len() == 81,
    ensures
        keeps_values(g, k),
{
    assert forall|i: int| 0 <= i < 81 && word_determined(#[trigger] g[i]) implies word_value(k[i])
        == word_value(g[i]) by {
        assert(word_determined(h[i]));
        assert(super::narrowing::word_narrows(h[i], k[i]));
    }
}

/// What a pass of trials has come to so far.
pub struct TrialState {
    /// The grid that the trials start from; it loses the candidates that
    /// failed.
    pub grid: Seq<u16>,
    /// The grid of the furthest trial so far.
    pub best: Seq<u16>,
    /// The number of values in `best`.
    pub solved: int,
    /// The count of rounds that goes with `best`.
    pub iterations: int,
    /// The number of trials that failed.
    pub errors: int,
    /// The number of trials.
    pub tries: int,
    /// The grid and the count of rounds of the trial that solved the grid,
    /// once there is one.
    pub found: Option<(Seq<u16>, int)>,
}

/// What a pass of trials keeps beside the grid that it starts from.
pub struct Trials {
    /// The grid of the furthest trial so far.
    pub best: Grid,
    /// The number of values in `best`.
    pub solved: usize,
    /// The count of rounds that goes with `best`.
    pub iterations: usize,
    /// The number of trials that failed.
    pub errors: usize,
    /// The number of trials.
    pub tries: usize,
}

impl Trials {
    /// The state of a pass that has solved nothing yet and holds `live` as
    /// the grid that the trials start from.
    pub open spec fn state(self, live: Seq<u16>) -> TrialState {
        TrialState {
            grid: live,
            best: self.best@,
            solved: self.solved as int,
            iterations: self.iterations as int,
            errors: self.errors as int,
            tries: self.tries as int,
            found: None,
        }
    }
}

/// The state before the first trial on the grid `g`.
pub open spec fn trial_start(g: Seq<u16>, start: int) -> TrialState {
    TrialState {
        grid: g,
        best: g,
        solved: count_determined_words(g, 81) as int,
        iterations: next_iteration(start),
        errors: 0,
        tries: 0,
        found: None,
    }
}

/// The state after the candidate `j % 9 + 1` of the cell `j / 9` had its
/// turn. Once a trial has solved the grid nothing changes any more. A
/// candidate that an open cell offers is placed on a copy and the copy
/// solved by deduction: if that fails, the candidate is removed; if it
/// solves the grid, the solved copy is kept; if it stalls with more values
/// than the best so far, the copy is the new best.
#[verifier::opaque]
pub open spec fn try_step(s: TrialState, j: int, start: int, max: int) -> TrialState {
    let i = j / 9;
    let mark = Mark::of_value(j % 9 + 1);
    if s.found.is_some() || word_determined(s.grid[i]) || !word_possible(s.grid[i], mark) {
        s
    } else {
        let (tg, tr, ti) = simple_spec_from(place_spec(s.grid, i, mark), start, max);
        if tr == SolveResult::Error || !grid_valid(tg) {
            TrialState {
                grid: unset_possible_spec(s.grid, i, mark),
                errors: s.errors + 1,
                tries: s.tries + 1,
                ..s
            }
        } else if tr == SolveResult::Solved {
            TrialState { found: Some((tg, ti)), tries: s.tries + 1, ..s }
        } else if count_determined_words(tg, 81) > s.solved {
            TrialState {
                best: tg,
                solved: count_determined_words(tg, 81) as int,
                iterations: ti,
                tries: s.tries + 1,
                ..s
            }
        } else {
            TrialState { tries: s.tries + 1, ..s }
        }
    }
}

/// The state after the first `n` candidates had their turn, the cells in
/// order and for each cell the digits in order.
pub open spec fn try_upto(g: Seq<u16>, start: int, max: int, n: int) -> TrialState
    decreases n,
{
    if n <= 0 {
        trial_start(g, start)
    } else {
        try_step(try_upto(g, start, max, n - 1), n - 1, start, max)
    }
}

/// The grid, the outcome and the count of rounds that a pass of trials on
/// the grid `g` comes to: the solved copy with `Solved` if a trial solved
/// the grid; else the best grid, with `Error` if every trial failed and
/// `Nothing` if not.
pub open spec fn try_spec(g: Seq<u16>, start: int, max: int) -> (Seq<u16>, SolveResult, int) {
    let s = try_upto(g, start, max, 729);
    match s.found {
        Some((tg, ti)) => (tg, SolveResult::Solved, ti),
        None => (
            s.best,
            if s.errors == s.tries {
                SolveResult::Error
            } else {
                SolveResult::Nothing
            },
            s.iterations,
        ),
    }
}

/// The grid, the outcome and the count of rounds that passes of trials
/// come to from the grid `g` at the count `iterations`: they end on
/// `Solved` or `Error` and when the count reaches `max`.
pub open spec fn passes_spec(g: Seq<u16>, iterations: int, max: int) -> (
    Seq<u16>,
    SolveResult,
    int,
)
    decreases max - iterations,
{
    let (g1, r, it) = try_spec(g, iterations, max);
    if r.done() || it >= max || it <= iterations {
        (g1, r, it)
    } else {
        passes_spec(g1, it, max)
    }
}

/// The grid, the outcome and the count of rounds of a full solve of the
/// grid `g`: a simple solve, and where that neither ends the solve nor
/// uses up the rounds, passes of trials.
pub open spec fn solve_spec(g: Seq<u16>, max: int) -> (Seq<u16>, SolveResult, int) {
    let (g1, r, it) = simple_spec_from(g, 0, max);
    if r.done() || it >= max {
        (g1, r, it)
    } else {
        passes_spec(g1, it, max)
    }
}

/// A grid that has the shape of a grid is in canonical form.
pub proof fn lemma_valid_canonical(g: Seq<u16>)
    requires
        grid_valid(g),
    ensures
        canonical(g),
{
    lemma_grid_valid(g);
    assert forall|i: int| 0 <= i < 81 && word_determined(#[trigger] g[i]) implies
        crate::grid::cell::word_is_digit(g[i]) by {
        assert(super::validator::cell_valid(g[i]));
    }
}

/// Whether the grid `h` can stand for the grid `g` in a pass of trials: it
/// follows `g` in a deduction, and it is in canonical form and has the
/// shape of a grid if `g` is and has.
#[verifier::opaque]
pub open spec fn follows(g: Seq<u16>, h: Seq<u16>) -> bool {
    &&& narrows(g, h)
    &&& canonical(g) ==> canonical(h)
    &&& grid_valid(g) ==> grid_valid(h)
}

/// The best grid of a pass still stands for the grid that the pass began
/// with after a trial: it is the best grid from before, or a grid in
/// canonical form and with the shape of a grid that follows the grid that
/// the trial began with.
pub proof fn lemma_best_follows(g: Seq<u16>, before: Seq<u16>, best: Seq<u16>, now: Seq<u16>)
    requires
        narrows(g, before),
        follows(g, best),
        now == best || (narrows(before, now) && canonical(now) && grid_valid(now)),
    ensures
        follows(g, now),
{
    reveal(follows);
    if now != best {
        lemma_narrows_trans(g, before, now);
    }
}

/// Once a trial has solved the grid, the state stays as it is.
pub proof fn lemma_found_stays(g: Seq<u16>, start: int, max: int, n: int, m: int)
    requires
        0 <= n <= m,
        try_upto(g, start, max, n).found.is_some(),
    ensures
        try_upto(g, start, max, m) == try_upto(g, start, max, n),
    decreases m - n,
{
    reveal(try_step);
    if n < m {
        lemma_found_stays(g, start, max, n + 1, m);
    }
}

/// Keeping values carries over: what keeps the values of `g` in `h`, and
/// those of `h` in `k`, keeps those of `g` in `k`.
pub proof fn lemma_keeps_values_trans(g: Seq<u16>, h: Seq<u16>, k: Seq<u16>)
    requires
        keeps_values(g, h),
        keeps_values(h, k),
    ensures
        keeps_values(g, k),
{
    assert forall|i: int| 0 <= i < 81 && word_determined(#[trigger] g[i]) implies word_value(k[i])
        == word_value(g[i]) by {
        assert(word_determined(h[i]));
    }
}

/// A deduction keeps every value.
pub proof fn lemma_narrows_keeps_values(g: Seq<u16>, h: Seq<u16>)
    requires
        narrows(g, h),
    ensures
        keeps_values(g, h),
{
    assert forall|i: int| 0 <= i < 81 && word_determined(#[trigger] g[i]) implies word_value(h[i])
        == word_value(g[i]) by {
        assert(super::narrowing::word_narrows(g[i], h[i]));
    }
}

impl SolverManager {
    /// Creates a driver with the default settings.
    pub fn new() -> (manager: SolverManager)
        ensures
            manager.config.max_iterations == 1000,
    {
        let default_config = SolverManagerConfig::new();
        SolverManager::new_with_config(default_config)
    }

    /// Creates a driver with the given settings.
    pub fn new_with_config(config: SolverManagerConfig) -> (manager: SolverManager)
        ensures
            manager.config.max_iterations == config.max_iterations,
    {
        Self { config }
    }

    /// Strips the candidates of every cell that holds a value and removes
    /// every placed digit from the candidates around it. Reports `Error` if
    /// the grid that this leaves has not the shape of a grid, for instance
    /// because an area holds a digit twice or an open cell offers nothing,
    /// and `Nothing` otherwise. No cell gains a candidate and no value
    /// changes; where the values of the grid are digits, each is a bare
    /// digit afterwards. The grid that is left admits every solution that
    /// agrees with the grid that came in, so a puzzle that has a solution
    /// is never reported as an error.
    pub fn pre_solve(&self, grid: &mut Grid) -> (result: SolveResult)
        ensures
            final(grid)@ == pre_solve_grid(old(grid)@),
            result == pre_solve_result(old(grid)@),
            solvable(old(grid)@) ==> result == SolveResult::Nothing,
            narrows(old(grid)@, final(grid)@),
            keeps_values(old(grid)@, final(grid)@),
            keeps_solutions(old(grid)@, final(grid)@),
            values_are_digits(old(grid)@) ==> canonical(final(grid)@),
            result == SolveResult::Nothing ==> grid_valid(final(grid)@) && canonical(
                final(grid)@,
            ) && settled(final(grid)@),
    {
        let result = MarkReset::solve(grid);
        let ghost g1 = grid@;
        let result = result | MarkSimple::solve(grid);
        proof {
            lemma_narrows_trans(old(grid)@, g1, grid@);
            if values_are_digits(old(grid)@) {
                lemma_reset_canonical(old(grid)@);
                lemma_narrows_canonical(g1, grid@);
            }
            lemma_reset_keeps_values(old(grid)@);
            lemma_keeps_values_narrows(old(grid)@, g1, grid@);
            lemma_reset_keeps_solutions(old(grid)@);
            lemma_keeps_solutions_sound(old(grid)@, g1, grid@);
            lemma_simple_propagated(g1);
            if solvable(old(grid)@) {
                let s = choose|s: Seq<int>| #[trigger]
                    agrees_with(old(grid)@, s) && is_solution(s);
                assert(admits(grid@, s));
                lemma_admits_valid(grid@, s);
            }
        }
        if !is_valid(grid) {
            return SolveResult::Error;
        }
        proof {
            lemma_valid_canonical(grid@);
            reveal(settled);
        }
        result
    }

    /// Runs one round of the rules: locked candidates, naked singles,
    /// hidden singles, and the terminal rule. No cell gains a candidate and
    /// no value changes, and no solution that the grid admits is lost.
    pub fn solve_round(&self, grid: &mut Grid) -> (result: SolveResult)
        ensures
            final(grid)@ == round_grid(old(grid)@),
            result == round_result(old(grid)@),
            narrows(old(grid)@, final(grid)@),
            sound(old(grid)@, final(grid)@),
            result == SolveResult::Nothing ==> final(grid)@ == old(grid)@,
            result == SolveResult::Solved ==> all_determined(final(grid)@),
    {
        let mut result = MarkOccupy::solve(grid);
        let ghost g1 = grid@;
        result = result | MarkSurvivor::solve(grid);
        let ghost g2 = grid@;
        result = result | DeterminedSolver::solve(grid);
        proof {
            lemma_narrows_trans(old(grid)@, g1, g2);
            lemma_narrows_trans(g1, g2, grid@);
            lemma_narrows_trans(old(grid)@, g2, grid@);
            lemma_narrows_trans(old(grid)@, g1, grid@);
            lemma_sound_trans(old(grid)@, g1, g2);
            lemma_sound_trans(old(grid)@, g2, grid@);
        }
        result | IsSolved::solve(grid)
    }

    /// Solves by deduction alone: pre-solve, then rounds of the rules until
    /// one ends the solve, one changes nothing, or the count of rounds
    /// reaches the limit. A grid that is left without the shape of a grid
    /// is an `Error`: whatever else comes out has every digit in order in
    /// every row, column and box, and every value as a bare digit. A grid
    /// that comes out as `Solved` holds a value in every cell. No cell
    /// gains a candidate and no value changes, and the grid that comes out
    /// admits every solution that agrees with the grid that came in. So a
    /// puzzle that has a solution is never reported as an error, and a
    /// puzzle that comes out as `Solved` has no solution but the grid that
    /// comes out.
    pub fn solve_simple(&self, grid: &mut Grid) -> (result: AnnotatedSolverResult)
        ensures
            (result.grid@, result.result, result.iterations as int) == simple_spec_from(
                old(grid)@,
                0,
                self.config.max_iterations as int,
            ),
            final(grid)@ == result.grid@,
            narrows(old(grid)@, result.grid@),
            keeps_values(old(grid)@, result.grid@),
            keeps_solutions(old(grid)@, result.grid@),
            solvable(old(grid)@) ==> result.result != SolveResult::Error,
            values_are_digits(old(grid)@) ==> canonical(result.grid@),
            result.result != SolveResult::Error ==> canonical(result.grid@) && grid_valid(
                result.grid@,
            ),
            result.result == SolveResult::Solved ==> all_determined(result.grid@)
                && is_the_solution(old(grid)@, result.grid@) && is_solution(
                digits_of(result.grid@),
            ),
    {
        let result = self.solve_internal(grid, 0);
        proof {
            if result.result == SolveResult::Solved {
                lemma_full_grid_is_solution(result.grid@);
            }
        }
        result
    }

    /// Solves by deduction alone, counting rounds from `start_iteration`.
    pub fn solve_internal(&self, grid: &mut Grid, start_iteration: usize) -> (result:
        AnnotatedSolverResult)
        ensures
            (result.grid@, result.result, result.iterations as int) == simple_spec_from(
                old(grid)@,
                start_iteration as int,
                self.config.max_iterations as int,
            ),
            final(grid)@ == result.grid@,
            narrows(old(grid)@, result.grid@),
            keeps_values(old(grid)@, result.grid@),
            keeps_solutions(old(grid)@, result.grid@),
            solvable(old(grid)@) ==> result.result != SolveResult::Error,
            values_are_digits(old(grid)@) ==> canonical(result.grid@),
            result.iterations >= start_iteration,
            result.result != SolveResult::Error ==> canonical(result.grid@) && grid_valid(
                result.grid@,
            ),
            result.result == SolveResult::Solved ==> all_determined(result.grid@)
                && is_the_solution(old(grid)@, result.grid@),
            !result.result.done() ==> result.iterations > start_iteration || start_iteration
                == usize::MAX,
    {
        let max = self.config.max_iterations;
        let mut iteration = start_iteration;
        let pre = self.pre_solve(grid);
        let ghost g0 = grid@;
        let ghost total = rounds_spec(g0, start_iteration as int, max as int);
        let mut current = pre | SolveResult::Updated;
        let mut running = current == SolveResult::Updated;
        proof {
            lemma_narrows_refl(g0);
            lemma_sound_trans(g0, g0, g0);
        }
        while running
            invariant
                max == self.config.max_iterations,
                iteration >= start_iteration,
                narrows(g0, grid@),
                sound(g0, grid@),
                keeps_solutions(old(grid)@, g0),
                pre != SolveResult::Error ==> settled(grid@),
                solvable(old(grid)@) ==> current != SolveResult::Error,
                running ==> rounds_spec(grid@, iteration as int, max as int) == total,
                running ==> current == SolveResult::Updated,
                !running && pre != SolveResult::Error ==> (grid@, current, iteration as int)
                    == total,
                !running && pre != SolveResult::Error && !current.done() ==> iteration
                    > start_iteration || start_iteration == usize::MAX,
                pre == SolveResult::Error ==> !running && current == SolveResult::Error && grid@
                    == g0 && iteration == start_iteration,
                current == SolveResult::Solved ==> all_determined(grid@),
            decreases
                    (if running {
                        (if iteration < max {
                            max - iteration
                        } else {
                            0
                        }) + 1
                    } else {
                        0
                    }),
        {
            let ghost before = grid@;
            current = self.solve_round(grid);
            proof {
                lemma_narrows_trans(g0, before, grid@);
                lemma_sound_trans(g0, before, grid@);
                lemma_round_settled(before);
                if solvable(old(grid)@) {
                    let s = choose|s: Seq<int>| #[trigger]
                        agrees_with(old(grid)@, s) && is_solution(s);
                    assert(admits(g0, s));
                    assert(admits(grid@, s));
                    lemma_admits_solved(grid@, s);
                }
            }
            if current.is_done() {
                running = false;
            } else {
                let next = if iteration < usize::MAX {
                    iteration + 1
                } else {
                    iteration
                };
                if next >= max || current != SolveResult::Updated || next <= iteration {
                    running = false;
                }
                iteration = next;
            }
        }
        proof {
            if current == SolveResult::Solved {
                assert forall|s: Seq<int>| #[trigger]
                    agrees_with(old(grid)@, s) && is_solution(s) implies forall|i: int|
                    0 <= i < 81 ==> #[trigger] grid@[i] == s[i] by {
                    assert(admits(g0, s));
                    assert(admits(grid@, s));
                    lemma_admits_solved(grid@, s);
                }
            }
            if solvable(old(grid)@) {
                let s = choose|s: Seq<int>| #[trigger]
                    agrees_with(old(grid)@, s) && is_solution(s);
                assert(admits(g0, s));
                assert(admits(grid@, s));
                reveal(settled);
                lemma_admits_valid(grid@, s);
            }
        }
        if current != SolveResult::Error && !is_valid(grid) {
            current = SolveResult::Error;
        }
        proof {
            lemma_narrows_trans(old(grid)@, g0, grid@);
            lemma_keeps_values_narrows(old(grid)@, g0, grid@);
            lemma_keeps_solutions_sound(old(grid)@, g0, grid@);
            if canonical(g0) {
                lemma_narrows_canonical(g0, grid@);
            }
        }
        AnnotatedSolverResult { grid: *grid, result: current, iterations: iteration }
    }
    /// Gives one candidate its turn in a pass of trials: the candidate
    /// `j % 9 + 1` of the cell `j / 9`, if the cell is open and offers it,
    /// is placed on a copy of `grid` and the copy solved by deduction. A
    /// solved copy is handed back; a failed one costs `grid` the candidate;
    /// one that got further than the best so far is the new best. Nothing
    /// else happens to `grid`: it is as it was unless the trial failed, and
    /// it loses no solution that it admits.
    pub fn try_candidate(
        &self,
        grid: &mut Grid,
        trials: &mut Trials,
        j: usize,
        start_iteration: usize,
    ) -> (found: Option<AnnotatedSolverResult>)
        requires
            j < 729,
            old(trials).errors <= old(trials).tries < usize::MAX,
        ensures
            match found {
                Some(r) => try_step(
                    old(trials).state(old(grid)@),
                    j as int,
                    start_iteration as int,
                    self.config.max_iterations as int,
                ).found == Some((r.grid@, r.iterations as int)) && try_step(
                    old(trials).state(old(grid)@),
                    j as int,
                    start_iteration as int,
                    self.config.max_iterations as int,
                ).grid == old(grid)@ && r.result == SolveResult::Solved && all_determined(
                    r.grid@,
                ) && grid_valid(r.grid@) && canonical(r.grid@) && keeps_values(
                    old(grid)@,
                    r.grid@,
                ) && narrows(old(grid)@, r.grid@),
                None => try_step(
                    old(trials).state(old(grid)@),
                    j as int,
                    start_iteration as int,
                    self.config.max_iterations as int,
                ) == final(trials).state(final(grid)@),
            },
            found.is_some() ==> final(grid)@ == old(grid)@,
            narrows(old(grid)@, final(grid)@),
            sound(old(grid)@, final(grid)@),
            final(trials).errors <= final(trials).tries <= old(trials).tries + 1,
            final(trials).best@ == old(trials).best@ || (narrows(
                old(grid)@,
                final(trials).best@,
            ) && canonical(final(trials).best@) && grid_valid(final(trials).best@)),
    {
        let index = j / 9;
        let mark = Mark::from_value((j % 9) as u16 + 1);
        let cell = *grid.get_cell(index);
        proof {
            reveal(try_step);
            lemma_narrows_refl(grid@);
        }
        if cell.is_determined() || !cell.is_possible(mark) {
            return None;
        }
        trials.tries += 1;
        let mut new_grid = *grid;
        proof {
            Mark::lemma_value_of_value(j as int % 9 + 1);
            lemma_place_narrows(grid@, index as int, mark);
        }
        new_grid.place_value(index, mark.to_value());
        let ghost placed = new_grid@;
        let result = self.solve_internal(&mut new_grid, start_iteration);
        proof {
            lemma_narrows_keeps_values(grid@, placed);
            lemma_keeps_values_trans(grid@, placed, result.grid@);
            lemma_narrows_trans(grid@, placed, result.grid@);
        }
        if result.result == SolveResult::Error || !is_valid(&result.grid) {
            proof {
                lemma_unset_narrows(grid@, index as int, mark);
                lemma_failed_trial_sound(grid@, index as int, mark);
            }
            grid.unset_possible(index, mark);
            trials.errors += 1;
            None
        } else if result.result == SolveResult::Solved {
            Some(result)
        } else {
            let amount = result.grid.count_determined();
            if amount > trials.solved {
                trials.best = result.grid;
                trials.solved = amount;
                trials.iterations = result.iterations;
            }
            None
        }
    }

    /// Tries every candidate of every open cell, one ply deep: the
    /// candidate is placed on a copy of the grid and the copy solved by
    /// deduction. A candidate whose copy fails is removed from `grid`; a
    /// copy that is solved is handed back at once; else the copy that got
    /// furthest is handed back, with `Error` if every trial failed. The
    /// grid loses the candidates whose trials failed and nothing else, and
    /// with them no solution that it admits.
    pub fn try_some_stuff(&self, grid: &mut Grid, start_iteration: usize) -> (result:
        AnnotatedSolverResult)
        ensures
            (result.grid@, result.result, result.iterations as int) == try_spec(
                old(grid)@,
                start_iteration as int,
                self.config.max_iterations as int,
            ),
            final(grid)@ == try_upto(
                old(grid)@,
                start_iteration as int,
                self.config.max_iterations as int,
                729,
            ).grid,
            narrows(old(grid)@, final(grid)@),
            sound(old(grid)@, final(grid)@),
            narrows(old(grid)@, result.grid@),
            keeps_values(old(grid)@, result.grid@),
            canonical(old(grid)@) ==> canonical(result.grid@),
            grid_valid(old(grid)@) ==> grid_valid(result.grid@),
            result.result == SolveResult::Solved ==> all_determined(result.grid@) && grid_valid(
                result.grid@,
            ),
    {
        let ghost max = self.config.max_iterations as int;
        let ghost start = start_iteration as int;
        let mut trials = Trials {
            best: *grid,
            solved: grid.count_determined(),
            iterations: if start_iteration < usize::MAX {
                start_iteration + 1
            } else {
                start_iteration
            },
            errors: 0,
            tries: 0,
        };
        proof {
            lemma_narrows_refl(grid@);
            reveal(follows);
        }
        let mut j: usize = 0;
        while j < 729
            invariant
                j <= 729,
                max == self.config.max_iterations,
                start == start_iteration,
                try_upto(old(grid)@, start, max, j as int) == trials.state(grid@),
                trials.errors <= trials.tries <= j,
                narrows(old(grid)@, grid@),
                sound(old(grid)@, grid@),
                follows(old(grid)@, trials.best@),
            decreases 729 - j,
        {
            let ghost before = grid@;
            let ghost best = trials.best@;
            let found = self.try_candidate(grid, &mut trials, j, start_iteration);
            proof {
                lemma_narrows_trans(old(grid)@, before, grid@);
                lemma_sound_trans(old(grid)@, before, grid@);
                lemma_best_follows(old(grid)@, before, best, trials.best@);
            }
            match found {
                Some(result) => {
                    proof {
                        lemma_found_stays(old(grid)@, start, max, j as int + 1, 729);
                        lemma_narrows_trans(old(grid)@, before, result.grid@);
                        lemma_narrows_keeps_values(old(grid)@, result.grid@);
                    }
                    return result;
                },
                None => {},
            }
            j += 1;
        }
        proof {
            reveal(follows);
            lemma_narrows_keeps_values(old(grid)@, trials.best@);
        }
        let result = if trials.errors == trials.tries {
            SolveResult::Error
        } else {
            SolveResult::Nothing
        };
        AnnotatedSolverResult { grid: trials.best, result, iterations: trials.iterations }
    }

    /// Solves the grid: by deduction, and where that stalls by passes of
    /// trials, until the grid is solved, contradicts itself, or the count
    /// of rounds reaches the limit. Whatever comes out without `Error` has
    /// the shape of a grid and every value as a bare digit; a grid that
    /// comes out as `Solved` holds a value in every cell and is a solved
    /// Sudoku: every row, column and box holds every digit once. No cell
    /// gains a candidate and no value changes.
    pub fn solve(&self, grid: Grid) -> (result: AnnotatedSolverResult)
        ensures
            (result.grid@, result.result, result.iterations as int) == solve_spec(
                grid@,
                self.config.max_iterations as int,
            ),
            narrows(grid@, result.grid@),
            keeps_values(grid@, result.grid@),
            values_are_digits(grid@) ==> canonical(result.grid@),
            result.result != SolveResult::Error ==> canonical(result.grid@) && grid_valid(
                result.grid@,
            ),
            result.result == SolveResult::Solved ==> all_determined(result.grid@) && is_solution(
                digits_of(result.grid@),
            ),
    {
        let max = self.config.max_iterations;
        let mut current = grid;
        let mut result = self.solve_simple(&mut current);
        let ghost first = result.grid@;
        let ghost total = passes_spec(first, result.iterations as int, max as int);
        let mut running = !result.result.is_done() && result.iterations < max;
        while running
            invariant
                max == self.config.max_iterations,
                running ==> passes_spec(result.grid@, result.iterations as int, max as int)
                    == total,
                running ==> result.iterations < max,
                !running ==> (result.grid@, result.result, result.iterations as int) == solve_spec(
                    grid@,
                    max as int,
                ),
                running ==> total == solve_spec(grid@, max as int),
                keeps_values(grid@, result.grid@),
                narrows(grid@, result.grid@),
                running ==> canonical(result.grid@) && grid_valid(result.grid@),
                values_are_digits(grid@) ==> canonical(result.grid@),
                result.result != SolveResult::Error ==> canonical(result.grid@) && grid_valid(
                    result.grid@,
                ),
                result.result == SolveResult::Solved ==> all_determined(result.grid@),
            decreases
                    (if running {
                        max - result.iterations
                    } else {
                        0
                    }),
        {
            current = result.grid;
            let before = result.iterations;
            let ghost before_grid = result.grid@;
            result = self.try_some_stuff(&mut current, before);
            proof {
                lemma_keeps_values_trans(grid@, before_grid, result.grid@);
                lemma_narrows_trans(grid@, before_grid, result.grid@);
            }
            if result.result.is_done() || result.iterations >= max || result.iterations <= before {
                running = false;
            }
        }
        proof {
            if result.result == SolveResult::Solved {
                lemma_full_grid_is_solution(result.grid@);
            }
        }
        result
    }
}

} // verus!
