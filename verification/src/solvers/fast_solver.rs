//! A solver that guesses: it fills the open cells box by box with digits
//! drawn at random from their candidates and lets the driver finish.

use vstd::prelude::*;
use rand::rngs::StdRng;
use crate::generators::generators::{
    area_try, box_ends, boxes_end, fill_area, fill_upto, fills, lemma_box_done, lemma_box_spent,
    lemma_box_try, lemma_boxes_finish, lemma_fill_determined, made_view, rng_from_seed, BoxEnd,
};
use crate::grid::cell::word_determined;
use crate::grid::mark::Mark;
use crate::grid::cell_collection::CellCollection;
use crate::grid::grid::Grid;
use crate::grid::square::Square;
use super::determined_solver::DeterminedSolver;
use super::is_solved::{all_determined, is_solved_spec, IsSolved};
use super::mark_occupy::MarkOccupy;
use super::mark_reset::MarkReset;
use super::mark_simple::MarkSimple;
use super::mark_survivor::MarkSurvivor;
use super::narrowing::lemma_narrows_trans;
use super::solver::SolveResult;
use super::solver_manager::{
    keeps_values, lemma_keeps_values_narrows, lemma_keeps_values_trans,
    lemma_reset_keeps_values, pre_solve_grid, round_grid,
    SolverManager,
};
use super::validator::{grid_valid, is_valid};

verus! {

/// Number of rounds of guessing after which `solve` gives up.
pub const FAST_SOLVER_ROUNDS: usize = 1000000;

/// The grid that one run of every rule leaves of the grid `g`.
pub open spec fn check_grid(g: Seq<u16>) -> Seq<u16> {
    round_grid(pre_solve_grid(g))
}

/// What one run of every rule says of the grid `g`: the greater of
/// `Updated` or `Nothing`, as the rules after the reset and simple peer
/// elimination changed the grid or not, and of what the terminal rule
/// says of the grid that is left.
pub open spec fn check_result(g: Seq<u16>) -> SolveResult {
    SolveResult::of_changed(check_grid(g) != pre_solve_grid(g)).join(
        is_solved_spec(check_grid(g)),
    )
}

/// Whether filling `area` from `g` with the draws `draws` and running the
/// rules over what that gives ends in the grid `h` with the outcome
/// `result`: a filling that stopped at a cell without candidate ends
/// there with `Error`, one that went through has the rules run over it.
pub open spec fn fills_and_checks<T: CellCollection>(
    g: Seq<u16>,
    h: Seq<u16>,
    result: SolveResult,
    area: &T,
    draws: Seq<Option<Mark>>,
) -> bool {
    let filled = fill_upto(g, area, draws, draws.len() as int);
    if draws.len() == area.size() {
        fills(g, filled, area, draws, true) && h == check_grid(filled) && result == check_result(
            filled,
        )
    } else {
        fills(g, filled, area, draws, false) && h == filled && result == SolveResult::Error
    }
}

/// A grid whose every cell holds a value needs no guess: the rules, run
/// once, call what they leave of it solved.
pub proof fn lemma_full_grid_checks(g: Seq<u16>, h: Seq<u16>)
    requires
        all_determined(g),
        keeps_values(g, h),
        h == check_grid(g),
    ensures
        all_determined(h),
        check_result(g) == SolveResult::Solved,
{
    assert forall|i: int| 0 <= i < 81 implies word_determined(#[trigger] h[i]) by {
        assert(word_determined(g[i]));
    }
    if super::is_solved::some_stuck(h) {
        let i = choose|i: int| 0 <= i < 81 && super::is_solved::word_stuck(#[trigger] h[i]);
        assert(word_determined(h[i]));
    }
}

/// A box of a grid whose every cell holds a value needs no guess: a try
/// at it ends in the grid that the rules leave, and they call it solved.
pub proof fn lemma_full_box_checks(
    g: Seq<u16>,
    h: Seq<u16>,
    result: SolveResult,
    k: int,
    draws: Seq<Option<Mark>>,
)
    requires
        0 <= k < 9,
        all_determined(g),
        keeps_values(g, h),
        fills_and_checks(g, h, result, &Square::of_index(k), draws),
    ensures
        h == check_grid(g),
        result == SolveResult::Solved,
{
    let sq = Square::of_index(k);
    let given = fill_upto(g, &sq, draws, draws.len() as int);
    assert forall|i: int| 0 <= i < sq.size() implies word_determined(
        #[trigger] g[sq.coord_at(i)],
    ) by {
        sq.lemma_coords_in_grid(i);
    }
    lemma_fill_determined(g, given, &sq, draws, draws.len() == sq.size());
    lemma_full_grid_checks(g, h);
}

/// The guessing solver.
pub struct FastSolver {
    /// Where the random numbers come from.
    pub rng: StdRng,
    /// The driver that finishes a grid.
    pub solvers: SolverManager,
}

impl FastSolver {
    /// Creates a solver that draws from `rng`; its driver gives up after
    /// ten rounds.
    pub fn new(rng: StdRng) -> (solver: FastSolver)
        ensures
            solver.solvers.config.max_iterations == 10,
    {
        let mut solvers = SolverManager::new();
        solvers.config.max_iterations = 10;
        Self { solvers, rng }
    }

    /// Creates a solver whose draws follow from `seed`.
    pub fn new_with_seed(seed: u64) -> (solver: FastSolver)
        ensures
            solver.solvers.config.max_iterations == 10,
    {
        let rng = rng_from_seed(seed);
        Self::new(rng)
    }

    /// Solves `source` by guessing. The grid that comes back keeps every
    /// value of `source`; it is full and has the shape of a grid, unless
    /// pre-solve found `source` at fault or `FAST_SOLVER_ROUNDS` rounds of
    /// guessing all failed: then it is `source` after pre-solve.
    pub fn solve(&mut self, source: &Grid) -> (grid: Grid)
        ensures
            keeps_values(source@, grid@),
            (all_determined(grid@) && grid_valid(grid@)) || grid@ == pre_solve_grid(source@),
    {
        let mut start = *source;
        if self.solvers.pre_solve(&mut start).is_done() {
            return start;
        }
        let mut rounds: usize = 0;
        while rounds < FAST_SOLVER_ROUNDS
            invariant
                rounds <= FAST_SOLVER_ROUNDS,
                start@ == pre_solve_grid(source@),
                keeps_values(source@, start@),
            decreases FAST_SOLVER_ROUNDS - rounds,
        {
            match self.solve_round(&start) {
                Some(grid) => {
                    proof {
                        lemma_keeps_values_trans(source@, start@, grid@);
                    }
                    return grid;
                },
                None => {},
            }
            rounds += 1;
        }
        start
    }

    /// Guesses once: fills the boxes in order, each with up to three
    /// tries, passing over a box that could not be filled, and lets the
    /// driver finish. Hands back the grid if it is full and has the shape
    /// of a grid, and nothing if not. Whatever is drawn, what comes back
    /// is what the tries at the boxes, taken from `source`, end in. Where
    /// every cell of `source` holds a value there is nothing to guess: the
    /// grid that the rules leave of it comes back if it has the shape of a
    /// grid. The driver of the solver is as it was.
    pub fn solve_round(&mut self, source: &Grid) -> (solved: Option<Grid>)
        ensures
            boxes_end(
                source@,
                0,
                made_view(solved),
                old(self).solvers.config.max_iterations as int,
                true,
            ),
            solved.is_some() ==> all_determined(solved.unwrap()@) && grid_valid(solved.unwrap()@)
                && keeps_values(source@, solved.unwrap()@),
            all_determined(source@) && grid_valid(check_grid(source@)) ==> solved.is_some()
                && solved.unwrap()@ == check_grid(source@),
            final(self).solvers == old(self).solvers,
    {
        let mut grid = *source;
        let ghost owed = all_determined(source@) && grid_valid(check_grid(source@));
        let ghost max = self.solvers.config.max_iterations as int;
        proof {
            lemma_keeps_values_trans(source@, source@, source@);
        }
        let mut index: usize = 0;
        while index < 9
            invariant
                index <= 9,
                keeps_values(source@, grid@),
                owed == (all_determined(source@) && grid_valid(check_grid(source@))),
                owed ==> index == 0 && grid@ == source@,
                self.solvers == old(self).solvers,
                max == old(self).solvers.config.max_iterations,
                forall|made: Option<Seq<u16>>| #[trigger]
                    boxes_end(grid@, index as int, made, max, true) ==> boxes_end(
                        source@,
                        0,
                        made,
                        max,
                        true,
                    ),
            decreases 9 - index,
        {
            let sq = Square::from_square_index(index);
            let ghost start = grid@;
            let ghost k = index as int;
            let mut count: usize = 3;
            let mut filled = false;
            while count > 0 && !filled
                invariant
                    count <= 3,
                    sq.wf(),
                    sq.size() == 9,
                    sq == Square::of_index(k),
                    0 <= k < 9,
                    keeps_values(source@, grid@),
                    owed == (all_determined(source@) && grid_valid(check_grid(source@))),
                    owed ==> grid@ == source@ && count == 3 && !filled,
                    self.solvers == old(self).solvers,
                    max == old(self).solvers.config.max_iterations,
                    forall|made: Option<Seq<u16>>| #[trigger]
                        boxes_end(start, k, made, max, true) ==> boxes_end(
                            source@,
                            0,
                            made,
                            max,
                            true,
                        ),
                    !filled ==> grid@ == start,
                    !filled ==> forall|end: BoxEnd| #[trigger]
                        box_ends(start, k, count as int, end, true) ==> box_ends(
                            start,
                            k,
                            3,
                            end,
                            true,
                        ),
                    filled ==> box_ends(start, k, 3, BoxEnd::Committed(grid@), true),
                decreases
                        (if filled {
                            0
                        } else {
                            count + 1
                        }),
            {
                let mut buf = grid;
                let result = self.determine_area(&mut buf, sq);
                let ghost draws = choose|draws: Seq<Option<Mark>>| #[trigger]
                    fills_and_checks(start, buf@, result, &sq, draws);
                proof {
                    lemma_keeps_values_trans(source@, grid@, buf@);
                    assert(area_try(start, buf@, result, &sq, draws, true));
                    if owed {
                        lemma_full_box_checks(start, buf@, result, k, draws);
                    }
                }
                if result == SolveResult::Solved {
                    if is_valid(&buf) {
                        proof {
                            let end = BoxEnd::Finished(buf@);
                            lemma_box_try(start, k, count as int, buf@, result, draws, end, true);
                            lemma_box_done(start, k, end, Some(buf@), max, true);
                        }
                        return Some(buf);
                    }
                    proof {
                        assert forall|end: BoxEnd| #[trigger]
                            box_ends(start, k, count - 1, end, true) implies box_ends(
                            start,
                            k,
                            3,
                            end,
                            true,
                        ) by {
                            lemma_box_try(start, k, count as int, buf@, result, draws, end, true);
                        }
                    }
                    count -= 1;
                } else if result == SolveResult::Error {
                    proof {
                        assert forall|end: BoxEnd| #[trigger]
                            box_ends(start, k, count - 1, end, true) implies box_ends(
                            start,
                            k,
                            3,
                            end,
                            true,
                        ) by {
                            lemma_box_try(start, k, count as int, buf@, result, draws, end, true);
                        }
                    }
                    count -= 1;
                } else {
                    proof {
                        let end = BoxEnd::Committed(buf@);
                        lemma_box_try(start, k, count as int, buf@, result, draws, end, true);
                    }
                    grid = buf;
                    filled = true;
                }
            }
            proof {
                assert forall|made: Option<Seq<u16>>| #[trigger]
                    boxes_end(grid@, k + 1, made, max, true) implies boxes_end(
                    source@,
                    0,
                    made,
                    max,
                    true,
                ) by {
                    if filled {
                        lemma_box_done(start, k, BoxEnd::Committed(grid@), made, max, true);
                    } else {
                        lemma_box_spent(start, k, true);
                        lemma_box_done(start, k, BoxEnd::Spent, made, max, true);
                    }
                }
            }
            index += 1;
        }
        let result = self.solvers.solve(grid);
        proof {
            lemma_keeps_values_trans(source@, grid@, result.grid@);
            lemma_boxes_finish(grid@, max, true);
        }
        match result.result {
            SolveResult::Solved => Some(result.grid),
            _ => None,
        }
    }

    /// Gives every open cell of `area` a digit drawn from its candidates
    /// and runs the rules once over the grid. Reports `Error` as soon as an
    /// open cell has no candidate left, and leaves the grid as the filling
    /// left it. Every value that the grid held is kept, and the driver of
    /// the solver is as it was. Whatever is drawn, the grid and the
    /// outcome are what filling with those draws and running the rules
    /// gives.
    pub fn determine_area<U: CellCollection>(&mut self, grid: &mut Grid, area: U) -> (result:
        SolveResult)
        requires
            area.wf(),
        ensures
            exists|draws: Seq<Option<Mark>>| #[trigger]
                fills_and_checks(old(grid)@, final(grid)@, result, &area, draws),
            final(self).solvers == old(self).solvers,
            keeps_values(old(grid)@, final(grid)@),
            result == SolveResult::Solved ==> all_determined(final(grid)@),
    {
        let filled = fill_area(&mut self.rng, grid, &area);
        let ghost placed = grid@;
        let ghost draws = choose|draws: Seq<Option<Mark>>| #[trigger]
            fills(old(grid)@, placed, &area, draws, filled);
        if !filled {
            assert(fills_and_checks(old(grid)@, grid@, SolveResult::Error, &area, draws));
            return SolveResult::Error;
        }
        let result = self.check_solve(grid);
        proof {
            lemma_keeps_values_trans(old(grid)@, placed, grid@);
            assert(fills_and_checks(old(grid)@, grid@, result, &area, draws));
        }
        result
    }

    /// Runs every rule once: the reset, simple peer elimination, locked
    /// candidates, naked singles, hidden singles, and the terminal rule.
    pub fn check_solve(&self, grid: &mut Grid) -> (result: SolveResult)
        ensures
            final(grid)@ == check_grid(old(grid)@),
            result == check_result(old(grid)@),
            keeps_values(old(grid)@, final(grid)@),
            result == SolveResult::Solved ==> all_determined(final(grid)@),
    {
        let mut result = MarkReset::solve(grid);
        let ghost g0 = grid@;
        result = result | MarkSimple::solve(grid);
        let ghost g1 = grid@;
        result = result | MarkOccupy::solve(grid);
        let ghost g2 = grid@;
        result = result | MarkSurvivor::solve(grid);
        let ghost g3 = grid@;
        result = result | DeterminedSolver::solve(grid);
        proof {
            lemma_narrows_trans(g1, g2, g3);
            lemma_narrows_trans(g2, g3, grid@);
            lemma_narrows_trans(g1, g3, grid@);
            lemma_narrows_trans(g1, g2, grid@);
            lemma_reset_keeps_values(old(grid)@);
            lemma_keeps_values_narrows(old(grid)@, g0, g1);
            lemma_keeps_values_narrows(old(grid)@, g1, grid@);
        }
        result | IsSolved::solve(grid)
    }
}

} // verus!
