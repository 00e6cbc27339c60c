//! The generator: fill the boxes at random under propagation, let the
//! solver finish, and take cells away again to make a puzzle.

use vstd::prelude::*;
use rand::rngs::StdRng;
use rand::seq::IteratorRandom;
use rand::Rng;
use rand::SeedableRng;
use crate::grid::cell::{
    count_determined_words, word_determined, word_is_digit, word_marks, Cell,
};
use crate::grid::cell_collection::CellCollection;
use crate::grid::coords::Coord;
use crate::grid::grid::{place_spec, Grid};
use crate::grid::mark::Mark;
use crate::grid::square::Square;
use crate::solvers::completeness::{
    digits_of, full_and_valid, is_the_solution, lemma_full_canonical,
    lemma_full_grid_is_solution, solvable,
};
use crate::solvers::is_solved::all_determined;
use crate::solvers::soundness::{agrees_with, cell_agrees, is_solution};
use crate::solvers::narrowing::{lemma_narrows_refl, lemma_place_narrows};
use crate::solvers::solver::SolveResult;
use crate::solvers::solver_manager::{
    keeps_values, lemma_keeps_values_narrows, lemma_keeps_values_trans,
    lemma_narrows_keeps_values, pre_solve_grid, pre_solve_result, round_grid, round_result,
    solve_spec, SolverManager,
};
use crate::solvers::validator::{grid_valid, is_valid};

verus! {

/// The seeded generator of random numbers that the library draws from.
#[verifier::external_type_specification]
#[verifier::external_body]
pub struct ExStdRng(rand::rngs::StdRng);

/// Number of times that `generate` starts over before it gives up.
pub const GENERATE_RESTARTS: usize = 1000000;

/// `rand`'s `SeedableRng::seed_from_u64` for `StdRng`: a generator whose
/// draws follow from `seed`. Nothing is claimed of the generator.
#[verifier::external_body]
pub(crate) fn rng_from_seed(seed: u64) -> StdRng {
    StdRng::seed_from_u64(seed)
}

/// `rand`'s `Rng::gen_range` on `0..n`: a number under `n`. The range must
/// not be empty, or the call panics.
#[verifier::external_body]
pub(crate) fn rng_below(rng: &mut StdRng, n: usize) -> (k: usize)
    requires
        n > 0,
    ensures
        k < n,
{
    rng.gen_range(0..n)
}

/// `rand`'s `IteratorRandom::choose` on the items of `marks`: one of them,
/// and nothing exactly where there is none.
#[verifier::external_body]
pub(crate) fn rng_choose(rng: &mut StdRng, marks: &Vec<Mark>) -> (choice: Option<Mark>)
    ensures
        choice.is_none() <==> marks@.len() == 0,
        choice.is_some() ==> marks@.contains(choice.unwrap()),
{
    marks.iter().copied().choose(rng)
}

/// The grid `g` with the cell `c` fresh again: no value, all candidates.
pub open spec fn clear_spec(g: Seq<u16>, c: int) -> Seq<u16> {
    g.update(c, 0xFF80u16)
}

/// The number of values that `g` holds after `amount` were taken away, or
/// all if it held fewer.
pub open spec fn count_after_removal(g: Seq<u16>, amount: int) -> int {
    if amount <= count_determined_words(g, 81) {
        count_determined_words(g, 81) - amount
    } else {
        0
    }
}

/// Whether `h` is `g` with some of its values taken away: every cell is
/// as in `g`, or held a value in `g` and is fresh in `h`.
pub open spec fn cells_removed(g: Seq<u16>, h: Seq<u16>) -> bool {
    &&& h.len() == 81
    &&& forall|i: int|
        0 <= i < 81 ==> #[trigger] h[i] == g[i] || (word_determined(g[i]) && h[i] == 0xFF80u16)
}

/// A puzzle made by taking values away from a full grid that has the
/// shape of a grid has a solution: the digits of that grid. So deduction
/// never reports it as an error, and a grid that deduction fills is the
/// full grid again.
pub proof fn lemma_removed_cells_solvable(full: Seq<u16>, left: Seq<u16>)
    requires
        full_and_valid(full),
        cells_removed(full, left),
    ensures
        is_solution(digits_of(full)),
        agrees_with(left, digits_of(full)),
        solvable(left),
{
    let s = digits_of(full);
    lemma_full_grid_is_solution(full);
    lemma_full_canonical(full);
    assert forall|i: int| 0 <= i < 81 implies cell_agrees(#[trigger] left[i], s[i]) by {
        assert(word_is_digit(full[i]));
        crate::grid::cell::lemma_digit_word(full[i], 0);
        if left[i] != full[i] {
            let m = Mark::of_value(s[i]);
            let b = m.bit();
            crate::grid::cell::lemma_mark_bits(m, m);
            assert(0xFF80u16 & b != 0 && 0xFF80u16 & 0x000F == 0) by (bit_vector)
                requires
                    b & 0xFF80 == b,
                    b != 0,
            ;
        }
    }
    assert(agrees_with(left, s) && is_solution(s));
}

/// A grid that is the one solution of a puzzle made by taking values
/// away from a full grid that has the shape of a grid is that full grid:
/// what a solve by deduction fills, it fills as it was.
pub proof fn lemma_removed_cells_solved(full: Seq<u16>, left: Seq<u16>, solved: Seq<u16>)
    requires
        full_and_valid(full),
        cells_removed(full, left),
        solved.len() == 81,
        is_the_solution(left, solved),
    ensures
        solved == full,
{
    lemma_removed_cells_solvable(full, left);
    let s = digits_of(full);
    assert(agrees_with(left, s) && is_solution(s));
    assert forall|i: int| 0 <= i < 81 implies solved[i] == full[i] by {
        assert(solved[i] == s[i]);
    }
    assert(solved =~= full);
}

/// Clearing a cell that holds a value leaves one value less.
pub proof fn lemma_clear_count(g: Seq<u16>, c: int, n: int)
    requires
        g.len() == 81,
        0 <= c < 81,
        0 <= n <= 81,
        word_determined(g[c]),
    ensures
        count_determined_words(clear_spec(g, c), n) == count_determined_words(g, n) - if c < n {
            1int
        } else {
            0int
        },
    decreases n,
{
    if n > 0 {
        lemma_clear_count(g, c, n - 1);
        assert(0xFF80u16 & 0x000F == 0) by (bit_vector);
    }
}

/// The grid `g` after the cell `c` had its turn in a filling: an open cell
/// got the digit that was drawn for it, a cell with a value stayed.
pub open spec fn fill_step(g: Seq<u16>, c: int, draw: Option<Mark>) -> Seq<u16> {
    if word_determined(g[c]) {
        g
    } else {
        match draw {
            Some(mark) => place_spec(g, c, mark),
            None => g,
        }
    }
}

/// Whether `draw` is what the turn of the cell `c` of `g` can bring:
/// nothing for a cell that holds a value, for which none is drawn, and one
/// of its candidates for an open cell.
pub open spec fn draw_fits(g: Seq<u16>, c: int, draw: Option<Mark>) -> bool {
    if word_determined(g[c]) {
        draw.is_none()
    } else {
        draw.is_some() && word_marks(g[c]).contains(draw.unwrap())
    }
}

/// Whether the cell `c` of `g` stops a filling: it is open and offers
/// nothing to draw from.
pub open spec fn cell_stops(g: Seq<u16>, c: int) -> bool {
    !word_determined(g[c]) && word_marks(g[c]).len() == 0
}

/// The grid `g` after the first `n` cells of `area` had their turns with
/// the draws `draws`.
pub open spec fn fill_upto<T: CellCollection>(
    g: Seq<u16>,
    area: &T,
    draws: Seq<Option<Mark>>,
    n: int,
) -> Seq<u16>
    decreases n,
{
    if n <= 0 {
        g
    } else {
        fill_step(fill_upto(g, area, draws, n - 1), area.coord_at(n - 1), draws[n - 1])
    }
}

/// Whether each of `draws` is what the turn of its cell can bring, the
/// cells of `area` taken in order from the grid `g`.
pub open spec fn draws_fit<T: CellCollection>(
    g: Seq<u16>,
    area: &T,
    draws: Seq<Option<Mark>>,
) -> bool {
    forall|i: int|
        0 <= i < draws.len() ==> draw_fits(
            fill_upto(g, area, draws, i),
            area.coord_at(i),
            #[trigger] draws[i],
        )
}

/// Whether a filling of `area` that starts from `g` and draws `draws` ends
/// in `h`, filled or not: the draws fit, `h` is what they give, and the
/// filling went through the whole area and is filled, or it came to an
/// open cell without a candidate and is not.
pub open spec fn fills<T: CellCollection>(
    g: Seq<u16>,
    h: Seq<u16>,
    area: &T,
    draws: Seq<Option<Mark>>,
    filled: bool,
) -> bool {
    &&& draws.len() <= area.size()
    &&& draws_fit(g, area, draws)
    &&& h == fill_upto(g, area, draws, draws.len() as int)
    &&& filled == (draws.len() == area.size())
    &&& draws.len() < area.size() ==> cell_stops(h, area.coord_at(draws.len() as int))
}

/// A filling looks at no draw beyond those of the cells that had their
/// turn.
pub proof fn lemma_fill_prefix<T: CellCollection>(
    g: Seq<u16>,
    area: &T,
    a: Seq<Option<Mark>>,
    b: Seq<Option<Mark>>,
    n: int,
)
    requires
        n <= a.len(),
        n <= b.len(),
        forall|i: int| 0 <= i < n ==> a[i] == b[i],
    ensures
        fill_upto(g, area, a, n) == fill_upto(g, area, b, n),
    decreases n,
{
    if n > 0 {
        lemma_fill_prefix(g, area, a, b, n - 1);
    }
}

/// Draws that fit still fit with one more that fits the grid that they
/// gave, and give what that draw makes of it.
pub proof fn lemma_draws_push<T: CellCollection>(
    g: Seq<u16>,
    area: &T,
    draws: Seq<Option<Mark>>,
    draw: Option<Mark>,
)
    requires
        draws_fit(g, area, draws),
        draw_fits(
            fill_upto(g, area, draws, draws.len() as int),
            area.coord_at(draws.len() as int),
            draw,
        ),
    ensures
        draws_fit(g, area, draws.push(draw)),
        fill_upto(g, area, draws.push(draw), draws.len() as int + 1) == fill_step(
            fill_upto(g, area, draws, draws.len() as int),
            area.coord_at(draws.len() as int),
            draw,
        ),
{
    let more = draws.push(draw);
    let n = draws.len() as int;
    lemma_fill_prefix(g, area, more, draws, n);
    assert forall|i: int| 0 <= i < more.len() implies draw_fits(
        fill_upto(g, area, more, i),
        area.coord_at(i),
        #[trigger] more[i],
    ) by {
        lemma_fill_prefix(g, area, more, draws, i);
        if i < n {
            assert(more[i] == draws[i]);
        }
    }
}

/// In an area whose every cell holds a value nothing is drawn: a filling
/// leaves the grid as it is and goes through the whole area.
pub proof fn lemma_fill_determined<T: CellCollection>(
    g: Seq<u16>,
    h: Seq<u16>,
    area: &T,
    draws: Seq<Option<Mark>>,
    filled: bool,
)
    requires
        fills(g, h, area, draws, filled),
        forall|i: int| 0 <= i < area.size() ==> word_determined(#[trigger] g[area.coord_at(i)]),
    ensures
        h == g,
        filled,
{
    lemma_fill_stays(g, area, draws, draws.len() as int);
    if draws.len() < area.size() {
        assert(word_determined(g[area.coord_at(draws.len() as int)]));
    }
}

/// As far as the cells of an area hold values, a filling leaves the grid
/// as it is.
pub proof fn lemma_fill_stays<T: CellCollection>(
    g: Seq<u16>,
    area: &T,
    draws: Seq<Option<Mark>>,
    n: int,
)
    requires
        0 <= n <= area.size(),
        forall|i: int| 0 <= i < n ==> word_determined(#[trigger] g[area.coord_at(i)]),
    ensures
        fill_upto(g, area, draws, n) == g,
    decreases n,
{
    if n > 0 {
        lemma_fill_stays(g, area, draws, n - 1);
        assert(word_determined(g[area.coord_at(n - 1)]));
    }
}

/// The grid that settling leaves of the grid `g`: the grid after
/// pre-solve, and unless pre-solve ended the matter, after one round of
/// the rules.
pub open spec fn settle_grid(g: Seq<u16>) -> Seq<u16> {
    if pre_solve_result(g).done() {
        pre_solve_grid(g)
    } else {
        round_grid(pre_solve_grid(g))
    }
}

/// What settling says of the grid `g`: what pre-solve says if that ends
/// the matter, else the greater of that and of what the round says.
pub open spec fn settle_result(g: Seq<u16>) -> SolveResult {
    if pre_solve_result(g).done() {
        pre_solve_result(g)
    } else {
        pre_solve_result(g).join(round_result(pre_solve_grid(g)))
    }
}

/// Whether filling `area` from `g` with the draws `draws` and settling
/// what that gives ends in the grid `h` with the outcome `result`: a
/// filling that stopped at a cell without candidate ends there with
/// `Error`, one that went through is settled.
pub open spec fn fills_and_settles<T: CellCollection>(
    g: Seq<u16>,
    h: Seq<u16>,
    result: SolveResult,
    area: &T,
    draws: Seq<Option<Mark>>,
) -> bool {
    let filled = fill_upto(g, area, draws, draws.len() as int);
    if draws.len() == area.size() {
        fills(g, filled, area, draws, true) && h == settle_grid(filled) && result == settle_result(
            filled,
        )
    } else {
        fills(g, filled, area, draws, false) && h == filled && result == SolveResult::Error
    }
}

/// How the tries at a box end.
pub enum BoxEnd {
    /// A try gave a full grid that has the shape of a grid.
    Finished(Seq<u16>),
    /// A try filled the box and left this grid to go on with.
    Committed(Seq<u16>),
    /// No try is left.
    Spent,
}

/// Whether one try at the area `area` of the grid `g` can end in the grid
/// `h` with the outcome `result`: for a generator, filling and settling;
/// for a guessing solver, filling and running the rules.
pub open spec fn area_try<T: CellCollection>(
    g: Seq<u16>,
    h: Seq<u16>,
    result: SolveResult,
    area: &T,
    draws: Seq<Option<Mark>>,
    guessing: bool,
) -> bool {
    if guessing {
        crate::solvers::fast_solver::fills_and_checks(g, h, result, area, draws)
    } else {
        fills_and_settles(g, h, result, area, draws)
    }
}

/// Whether up to `tries` tries at the box `k` of the grid `g` can end in
/// `end`. A try that gives a full grid with the shape of a grid finishes;
/// one that reports `Solved` or `Error` otherwise is thrown away; any
/// other is committed. With no try left the tries are spent.
#[verifier::opaque]
pub open spec fn box_ends(g: Seq<u16>, k: int, tries: int, end: BoxEnd, guessing: bool) -> bool
    decreases tries,
{
    if tries <= 0 {
        end == BoxEnd::Spent
    } else {
        exists|h: Seq<u16>, result: SolveResult, draws: Seq<Option<Mark>>| #[trigger]
            area_try(g, h, result, &Square::of_index(k), draws, guessing) && if result
                == SolveResult::Solved && grid_valid(h) {
                end == BoxEnd::Finished(h)
            } else if result == SolveResult::Solved || result == SolveResult::Error {
                box_ends(g, k, tries - 1, end, guessing)
            } else {
                end == BoxEnd::Committed(h)
            }
    }
}

/// What the driver makes of the grid `g` once the boxes were gone
/// through: the grid that a full solve leaves if it calls it solved, and
/// nothing if not.
pub open spec fn finish_spec(g: Seq<u16>, max: int) -> Option<Seq<u16>> {
    if solve_spec(g, max).1 == SolveResult::Solved {
        Some(solve_spec(g, max).0)
    } else {
        None
    }
}

/// Whether going through the boxes from the box `k` on, with the grid `g`
/// and up to three tries to a box, can end in `made`. A box that finishes
/// ends the matter with its grid. A box whose tries are spent ends it with
/// nothing for a generator, and is passed over by a guessing solver. After
/// the last box the driver finishes.
#[verifier::opaque]
pub open spec fn boxes_end(
    g: Seq<u16>,
    k: int,
    made: Option<Seq<u16>>,
    max: int,
    guessing: bool,
) -> bool
    decreases 9 - k,
{
    if k >= 9 {
        made == finish_spec(g, max)
    } else {
        exists|end: BoxEnd| #[trigger]
            box_ends(g, k, 3, end, guessing) && match end {
                BoxEnd::Finished(h) => made == Some(h),
                BoxEnd::Committed(h) => boxes_end(h, k + 1, made, max, guessing),
                BoxEnd::Spent => if guessing {
                    boxes_end(g, k + 1, made, max, guessing)
                } else {
                    made.is_none()
                },
            }
    }
}

/// The fresh grid: no cell holds a value, every cell offers every digit.
pub open spec fn fresh_grid() -> Seq<u16> {
    Seq::new(81, |i: int| 0xFF80u16)
}

/// The grid of `made`, if there is one.
pub open spec fn made_view(made: Option<Grid>) -> Option<Seq<u16>> {
    match made {
        Some(grid) => Some(grid@),
        None => None,
    }
}

/// One try more: where a try at the box `k` ends as it does, and what
/// follows from it is `end`, the tries at the box can end in `end`.
pub proof fn lemma_box_try(
    g: Seq<u16>,
    k: int,
    tries: int,
    h: Seq<u16>,
    result: SolveResult,
    draws: Seq<Option<Mark>>,
    end: BoxEnd,
    guessing: bool,
)
    requires
        tries > 0,
        area_try(g, h, result, &Square::of_index(k), draws, guessing),
        if result == SolveResult::Solved && grid_valid(h) {
            end == BoxEnd::Finished(h)
        } else if result == SolveResult::Solved || result == SolveResult::Error {
            box_ends(g, k, tries - 1, end, guessing)
        } else {
            end == BoxEnd::Committed(h)
        },
    ensures
        box_ends(g, k, tries, end, guessing),
{
    reveal(box_ends);
}

/// With no try left the tries at a box are spent.
pub proof fn lemma_box_spent(g: Seq<u16>, k: int, guessing: bool)
    ensures
        box_ends(g, k, 0, BoxEnd::Spent, guessing),
{
    reveal(box_ends);
}

/// After the last box what is made is what the driver makes of the grid.
pub proof fn lemma_boxes_finish(g: Seq<u16>, max: int, guessing: bool)
    ensures
        boxes_end(g, 9, finish_spec(g, max), max, guessing),
{
    reveal(boxes_end);
}

/// One box more: where the tries at the box `k` end in `end`, and what
/// follows from it is `made`, going through the boxes from `k` on can end
/// in `made`.
pub proof fn lemma_box_done(
    g: Seq<u16>,
    k: int,
    end: BoxEnd,
    made: Option<Seq<u16>>,
    max: int,
    guessing: bool,
)
    requires
        0 <= k < 9,
        box_ends(g, k, 3, end, guessing),
        match end {
            BoxEnd::Finished(h) => made == Some(h),
            BoxEnd::Committed(h) => boxes_end(h, k + 1, made, max, guessing),
            BoxEnd::Spent => if guessing {
                boxes_end(g, k + 1, made, max, guessing)
            } else {
                made.is_none()
            },
        },
    ensures
        boxes_end(g, k, made, max, guessing),
{
    reveal(boxes_end);
}

/// Gives the cell at `coord` the digit that was drawn for it, if one was;
/// returns whether one was.
pub fn place_choice(grid: &mut Grid, coord: Coord, choice: Option<Mark>) -> (placed: bool)
    ensures
        0 <= coord@ < 81,
        placed == choice.is_some(),
        final(grid)@ == match choice {
            Some(mark) => place_spec(old(grid)@, coord@, mark),
            None => old(grid)@,
        },
{
    match choice {
        Some(mark) => {
            proof {
                Mark::lemma_round_trip(mark);
            }
            grid.place_value_at(coord, mark.to_value());
            true
        },
        None => {
            let _ = coord.get_index();
            false
        },
    }
}

/// The generator.
pub struct Generator {
    /// The solver that finishes a grid.
    pub solvers: SolverManager,
    /// Where the random numbers come from.
    pub rng: StdRng,
}

impl Generator {
    /// Creates a generator that draws from `rng`; its solver gives up
    /// after a hundred rounds.
    pub fn new(rng: StdRng) -> (generator: Generator)
        ensures
            generator.solvers.config.max_iterations == 100,
    {
        let mut solvers = SolverManager::new();
        solvers.config.max_iterations = 100;
        Self { solvers, rng }
    }

    /// Creates a generator whose draws follow from `seed`.
    pub fn new_with_seed(seed: u64) -> (generator: Generator)
        ensures
            generator.solvers.config.max_iterations == 100,
    {
        let rng = rng_from_seed(seed);
        Self::new(rng)
    }

    /// Makes a full grid: every cell holds a digit, and every row, column
    /// and box holds every digit once. Starts over whenever a try fails;
    /// after `GENERATE_RESTARTS` failed tries it hands back the fresh grid
    /// instead. The grid that comes back is the grid that a try can end
    /// in, or the fresh grid after tries that ended in nothing. The solver
    /// of the generator is as it was.
    pub fn generate(&mut self) -> (grid: Grid)
        ensures
            (all_determined(grid@) && grid_valid(grid@)) || grid@ == fresh_grid(),
            boxes_end(
                fresh_grid(),
                0,
                Some(grid@),
                old(self).solvers.config.max_iterations as int,
                false,
            ) || (grid@ == fresh_grid() && boxes_end(
                fresh_grid(),
                0,
                None,
                old(self).solvers.config.max_iterations as int,
                false,
            )),
            final(self).solvers == old(self).solvers,
    {
        let ghost fresh = fresh_grid();
        let ghost max = self.solvers.config.max_iterations as int;
        let mut restarts: usize = 0;
        while restarts < GENERATE_RESTARTS
            invariant
                restarts <= GENERATE_RESTARTS,
                self.solvers == old(self).solvers,
                fresh == fresh_grid(),
                max == old(self).solvers.config.max_iterations,
                restarts > 0 ==> boxes_end(fresh, 0, None, max, false),
            decreases GENERATE_RESTARTS - restarts,
        {
            match self.try_generate() {
                Some(grid) => {
                    return grid;
                },
                None => {},
            }
            restarts += 1;
        }
        let grid = Grid::new();
        assert(grid@ =~= fresh);
        grid
    }

    /// Tries once to make a full grid: fills the boxes in order, each with
    /// digits drawn from the candidates of its cells, with up to three
    /// tries to a box, and lets the solver finish. Hands back nothing if a
    /// box could not be filled or the solver did not finish. Whatever is
    /// drawn, what comes back is what the tries at the boxes, taken from
    /// the fresh grid, end in. The solver of the generator is as it was.
    pub fn try_generate(&mut self) -> (made: Option<Grid>)
        ensures
            boxes_end(
                fresh_grid(),
                0,
                made_view(made),
                old(self).solvers.config.max_iterations as int,
                false,
            ),
            made.is_some() ==> all_determined(made.unwrap()@) && grid_valid(made.unwrap()@),
            final(self).solvers == old(self).solvers,
    {
        let mut grid = Grid::new();
        let ghost fresh = fresh_grid();
        assert(grid@ =~= fresh);
        let ghost max = self.solvers.config.max_iterations as int;
        let mut index: usize = 0;
        while index < 9
            invariant
                index <= 9,
                self.solvers == old(self).solvers,
                max == old(self).solvers.config.max_iterations,
                fresh == fresh_grid(),
                forall|made: Option<Seq<u16>>| #[trigger]
                    boxes_end(grid@, index as int, made, max, false) ==> boxes_end(
                        fresh,
                        0,
                        made,
                        max,
                        false,
                    ),
            decreases 9 - index,
        {
            let sq = Square::from_square_index(index);
            let ghost start = grid@;
            let ghost k = index as int;
            let mut count: usize = 3;
            let mut filled = false;
            while count > 0 && !filled
                invariant
                    count <= 3,
                    sq.wf(),
                    sq == Square::of_index(k),
                    0 <= k < 9,
                    self.solvers == old(self).solvers,
                    max == old(self).solvers.config.max_iterations,
                    fresh == fresh_grid(),
                    forall|made: Option<Seq<u16>>| #[trigger]
                        boxes_end(start, k, made, max, false) ==> boxes_end(
                            fresh,
                            0,
                            made,
                            max,
                            false,
                        ),
                    !filled ==> grid@ == start,
                    !filled ==> forall|end: BoxEnd| #[trigger]
                        box_ends(start, k, count as int, end, false) ==> box_ends(
                            start,
                            k,
                            3,
                            end,
                            false,
                        ),
                    filled ==> box_ends(start, k, 3, BoxEnd::Committed(grid@), false),
                decreases
                        (if filled {
                            0
                        } else {
                            count + 1
                        }),
            {
                let mut buf = grid;
                let result = self.determine_area(&mut buf, &sq);
                let ghost draws = choose|draws: Seq<Option<Mark>>| #[trigger]
                    fills_and_settles(start, buf@, result, &sq, draws);
                proof {
                    assert(area_try(start, buf@, result, &sq, draws, false));
                }
                if result == SolveResult::Solved {
                    if is_valid(&buf) {
                        proof {
                            let end = BoxEnd::Finished(buf@);
                            lemma_box_try(start, k, count as int, buf@, result, draws, end, false);
                            lemma_box_done(start, k, end, Some(buf@), max, false);
                        }
                        return Some(buf);
                    }
                    proof {
                        assert forall|end: BoxEnd| #[trigger]
                            box_ends(start, k, count - 1, end, false) implies box_ends(
                            start,
                            k,
                            3,
                            end,
                            false,
                        ) by {
                            lemma_box_try(start, k, count as int, buf@, result, draws, end, false);
                        }
                    }
                    count -= 1;
                } else if result == SolveResult::Error {
                    proof {
                        assert forall|end: BoxEnd| #[trigger]
                            box_ends(start, k, count - 1, end, false) implies box_ends(
                            start,
                            k,
                            3,
                            end,
                            false,
                        ) by {
                            lemma_box_try(start, k, count as int, buf@, result, draws, end, false);
                        }
                    }
                    count -= 1;
                } else {
                    proof {
                        let end = BoxEnd::Committed(buf@);
                        lemma_box_try(start, k, count as int, buf@, result, draws, end, false);
                    }
                    grid = buf;
                    filled = true;
                }
            }
            if !filled {
                proof {
                    lemma_box_spent(start, k, false);
                    lemma_box_done(start, k, BoxEnd::Spent, None, max, false);
                }
                return None;
            }
            proof {
                assert forall|made: Option<Seq<u16>>| #[trigger]
                    boxes_end(grid@, k + 1, made, max, false) implies boxes_end(
                    fresh,
                    0,
                    made,
                    max,
                    false,
                ) by {
                    lemma_box_done(start, k, BoxEnd::Committed(grid@), made, max, false);
                }
            }
            index += 1;
        }
        let result = self.solvers.solve(grid);
        let made = if result.result == SolveResult::Solved {
            Some(result.grid)
        } else {
            None
        };
        proof {
            lemma_boxes_finish(grid@, max, false);
        }
        made
    }

    /// Gives every open cell of `area` a digit drawn from its candidates,
    /// then runs pre-solve and one round of the rules. Reports `Error` as
    /// soon as an open cell has no candidate left, and leaves the grid as
    /// the filling left it. Every value that the grid held is kept, and the
    /// solver of the generator is as it was. Whatever is drawn, the grid
    /// and the outcome are what filling with those draws and settling
    /// gives.
    pub fn determine_area<U: CellCollection>(&mut self, grid: &mut Grid, area: &U) -> (result:
        SolveResult)
        requires
            area.wf(),
        ensures
            exists|draws: Seq<Option<Mark>>| #[trigger]
                fills_and_settles(old(grid)@, final(grid)@, result, area, draws),
            final(self).solvers == old(self).solvers,
            keeps_values(old(grid)@, final(grid)@),
            result == SolveResult::Solved ==> all_determined(final(grid)@),
    {
        let filled = fill_area(&mut self.rng, grid, area);
        let ghost placed = grid@;
        let ghost draws = choose|draws: Seq<Option<Mark>>| #[trigger]
            fills(old(grid)@, placed, area, draws, filled);
        if !filled {
            assert(fills_and_settles(old(grid)@, grid@, SolveResult::Error, area, draws));
            return SolveResult::Error;
        }
        let result = self.settle(grid);
        proof {
            lemma_keeps_values_trans(old(grid)@, placed, grid@);
            assert(fills_and_settles(old(grid)@, grid@, result, area, draws));
        }
        result
    }

    /// Runs pre-solve on a grid whose area was filled and, unless that
    /// ends the matter, one round of the rules. Reports the greater of the
    /// two outcomes.
    pub fn settle(&self, grid: &mut Grid) -> (result: SolveResult)
        ensures
            final(grid)@ == settle_grid(old(grid)@),
            result == settle_result(old(grid)@),
            keeps_values(old(grid)@, final(grid)@),
            result == SolveResult::Solved ==> all_determined(final(grid)@),
    {
        let first = self.solvers.pre_solve(grid);
        let ghost middle = grid@;
        if first.is_done() {
            return first;
        }
        let second = self.solvers.solve_round(grid);
        proof {
            lemma_keeps_values_narrows(old(grid)@, middle, grid@);
        }
        first | second
    }

    /// Takes a random number of values, at most seventy-nine and possibly
    /// none, away from `grid`, or all if it holds fewer: the number is
    /// drawn, then the cells are, each among those that hold a value, and
    /// each is made fresh again. The solver of the generator is as it was.
    pub fn remove_cells(&mut self, grid: &mut Grid)
        ensures
            cells_removed(old(grid)@, final(grid)@),
            exists|amount: int|
                0 <= amount < 80 && #[trigger] count_after_removal(old(grid)@, amount)
                    == count_determined_words(final(grid)@, 81),
            final(self).solvers == old(self).solvers,
    {
        let amount = rng_below(&mut self.rng, 80);
        self.remove_cells_amount(grid, amount);
        assert(count_after_removal(old(grid)@, amount as int) == count_determined_words(
            grid@,
            81,
        ));
    }

    /// Takes `amount` values away from `grid`, or all if it holds fewer; the
    /// solver of the generator is as it was:
    /// the cells are drawn at random among those that hold a value, and
    /// each is made fresh again.
    pub fn remove_cells_amount(&mut self, grid: &mut Grid, amount: usize)
        ensures
            cells_removed(old(grid)@, final(grid)@),
            count_determined_words(final(grid)@, 81) == count_after_removal(
                old(grid)@,
                amount as int,
            ),
            final(self).solvers == old(self).solvers,
    {
        let mut removed: usize = 0;
        let mut left = grid.count_determined();
        while removed < amount && left > 0
            invariant
                grid@.len() == 81,
                cells_removed(old(grid)@, grid@),
                left == count_determined_words(grid@, 81),
                left + removed == count_determined_words(old(grid)@, 81),
                removed <= amount,
                self.solvers == old(self).solvers,
            decreases amount - removed,
        {
            let held = determined_cells(grid);
            let k = rng_below(&mut self.rng, held.len());
            let index = held[k];
            let ghost before = grid@;
            grid.set_cell(index, &Cell::new());
            proof {
                lemma_clear_count(before, index as int, 81);
            }
            removed += 1;
            left -= 1;
        }
    }
}

/// Gives every open cell of `area` a digit drawn from its candidates, the
/// cells in order and each digit placed with its consequences. Stops and
/// returns `false` as soon as an open cell has no candidate left. Every
/// value that the grid held is kept. Whatever is drawn, the grid that is
/// left is what the draws make of the grid, cell by cell; where every cell
/// of the area holds a value already, nothing is drawn and the grid stays.
pub fn fill_area<U: CellCollection>(rng: &mut StdRng, grid: &mut Grid, area: &U) -> (filled: bool)
    requires
        area.wf(),
    ensures
        exists|draws: Seq<Option<Mark>>| #[trigger]
            fills(old(grid)@, final(grid)@, area, draws, filled),
        keeps_values(old(grid)@, final(grid)@),
        final(grid)@.len() == 81,
        filled ==> forall|i: int|
            0 <= i < area.size() ==> word_determined(#[trigger] final(grid)@[area.coord_at(i)]),
{
    let n = area.max();
    let mut index: usize = 0;
    let ghost mut draws: Seq<Option<Mark>> = Seq::empty();
    proof {
        lemma_narrows_refl(grid@);
        lemma_narrows_keeps_values(grid@, grid@);
    }
    while index < n
        invariant
            area.wf(),
            n == area.size(),
            index <= n,
            grid@.len() == 81,
            keeps_values(old(grid)@, grid@),
            forall|i: int| 0 <= i < index ==> word_determined(#[trigger] grid@[area.coord_at(i)]),
            draws.len() == index,
            draws_fit(old(grid)@, area, draws),
            grid@ == fill_upto(old(grid)@, area, draws, index as int),
        decreases n - index,
    {
        let coord = area.get_coord(index);
        let cell = *grid.get_cell_at(coord);
        if !cell.is_determined() {
            let marks = cell.iter_possible();
            let choice = rng_choose(rng, &marks);
            let ghost before = grid@;
            if !place_choice(grid, coord, choice) {
                assert(fills(old(grid)@, grid@, area, draws, false));
                return false;
            }
            proof {
                lemma_draws_push(old(grid)@, area, draws, choice);
                draws = draws.push(choice);
                lemma_place_narrows(before, coord@, choice.unwrap());
                lemma_narrows_keeps_values(before, grid@);
                lemma_keeps_values_trans(old(grid)@, before, grid@);
                assert forall|i: int| 0 <= i < index + 1 implies word_determined(
                    #[trigger] grid@[area.coord_at(i)],
                ) by {
                    area.lemma_coords_in_grid(i);
                    if i < index {
                        assert(word_determined(before[area.coord_at(i)]));
                        assert(crate::solvers::narrowing::word_narrows(
                            before[area.coord_at(i)],
                            grid@[area.coord_at(i)],
                        ));
                    } else {
                        crate::grid::cell::lemma_digit_word(choice.unwrap().value() as u16, 0);
                    }
                }
            }
        } else {
            proof {
                lemma_draws_push(old(grid)@, area, draws, None);
                draws = draws.push(None);
            }
        }
        index += 1;
    }
    assert(fills(old(grid)@, grid@, area, draws, true));
    true
}

/// Returns the indices of the cells that hold a value, in ascending order.
pub fn determined_cells(grid: &Grid) -> (held: Vec<usize>)
    ensures
        held@.len() == count_determined_words(grid@, 81),
        forall|k: int| 0 <= k < held@.len() ==> #[trigger] held@[k] < 81 && word_determined(
            grid@[held@[k] as int],
        ),
        forall|i: int|
            0 <= i < 81 && word_determined(#[trigger] grid@[i]) ==> held@.contains(i as usize),
        forall|j: int, k: int| 0 <= j < k < held@.len() ==> held@[j] < held@[k],
{
    let mut held: Vec<usize> = Vec::new();
    let mut i: usize = 0;
    while i < 81
        invariant
            i <= 81,
            held@.len() == count_determined_words(grid@, i as int),
            forall|k: int| 0 <= k < held@.len() ==> #[trigger] held@[k] < i && word_determined(
                grid@[held@[k] as int],
            ),
            forall|m: int|
                0 <= m < i && word_determined(#[trigger] grid@[m]) ==> held@.contains(m as usize),
            forall|j: int, k: int| 0 <= j < k < held@.len() ==> held@[j] < held@[k],
        decreases 81 - i,
    {
        if grid.get_cell(i).is_determined() {
            let ghost before = held@;
            held.push(i);
            assert forall|m: int|
                0 <= m < i + 1 && word_determined(#[trigger] grid@[m]) implies held@.contains(
                m as usize,
            ) by {
                if m < i {
                    let k = choose|k: int| 0 <= k < before.len() && before[k] == m as usize;
                    assert(held@[k] == m as usize);
                } else {
                    assert(held@[before.len() as int] == i);
                }
            }
        }
        i += 1;
    }
    held
}

} // verus!
