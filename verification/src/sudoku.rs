//! The grid as a page shows it, and the calls that a page makes.

pub mod cells;

use vstd::prelude::*;
use crate::generators::generators::{
    boxes_end, cells_removed, count_after_removal, fresh_grid, Generator,
};
use crate::grid::cell::count_determined_words;
use crate::grid::utility::utility::place_tokens;
use crate::solvers::is_solved::all_determined;
use crate::solvers::solver_manager::{simple_spec_from, solve_spec, SolverManager};
use crate::solvers::validator::grid_valid;
use cells::{all_flags, is_input, shows, Cell};

verus! {

/// Returns eighty-one cells without a value and with every flag set.
pub fn new_grid() -> (cells: Vec<Cell>)
    ensures
        cells@.len() == 81,
        forall|i: int| 0 <= i < 81 ==> (#[trigger] cells@[i]).value == 0 && all_flags(
            cells@[i].possibilities,
        ),
{
    let mut cells: Vec<Cell> = Vec::new();
    let mut i: usize = 0;
    while i < 81
        invariant
            i <= 81,
            cells@.len() == i,
            forall|k: int| 0 <= k < i ==> (#[trigger] cells@[k]).value == 0 && all_flags(
                cells@[k].possibilities,
            ),
        decreases 81 - i,
    {
        cells.push(Cell::new());
        i += 1;
    }
    cells
}

/// Solves the grid that `grid` stands for by deduction alone and returns
/// what that leaves.
pub fn solve_once(grid: Vec<i32>) -> (cells: Vec<Cell>)
    requires
        is_input(grid@),
    ensures
        cells@.len() == 81,
        forall|i: int|
            0 <= i < 81 ==> shows(
                #[trigger] cells@[i],
                simple_spec_from(
                    place_tokens(Seq::new(81, |i: int| grid@[i] as int), 81),
                    0,
                    1000,
                ).0[i],
            ),
{
    let mut grid = Cell::to_sudoku_grid(grid);
    let solver = SolverManager::new();
    let result = solver.solve_simple(&mut grid);
    Cell::from_grid(result.grid)
}

/// Solves the grid that `grid` stands for and returns what that leaves.
pub fn solve(grid: Vec<i32>) -> (cells: Vec<Cell>)
    requires
        is_input(grid@),
    ensures
        cells@.len() == 81,
        forall|i: int|
            0 <= i < 81 ==> shows(
                #[trigger] cells@[i],
                solve_spec(place_tokens(Seq::new(81, |i: int| grid@[i] as int), 81), 1000).0[i],
            ),
{
    let grid = Cell::to_sudoku_grid(grid);
    let solver = SolverManager::new();
    let result = solver.solve(grid);
    Cell::from_grid(result.grid)
}

/// Whether a generator whose solver gives up after a hundred rounds can
/// make the grid `full`: it is what a try at the nine boxes can end in,
/// then full and with the shape of a grid, or the fresh grid after tries
/// that ended in nothing.
pub open spec fn generated(full: Seq<u16>) -> bool {
    &&& (all_determined(full) && grid_valid(full)) || full == fresh_grid()
    &&& boxes_end(fresh_grid(), 0, Some(full), 100, false) || (full == fresh_grid() && boxes_end(
        fresh_grid(),
        0,
        None,
        100,
        false,
    ))
}

/// Whether `left` is the grid `full` after `difficulty` values were taken
/// away, or all if it held fewer: every cell is as in `full` or held a
/// value there and is fresh. A difficulty of zero takes nothing away.
pub open spec fn taken_from(full: Seq<u16>, left: Seq<u16>, difficulty: i32) -> bool {
    if difficulty == 0 {
        left == full
    } else {
        cells_removed(full, left) && count_determined_words(left, 81) == count_after_removal(
            full,
            (difficulty as usize) as int,
        )
    }
}

/// Makes a grid from a seed and takes `difficulty` values away from it; a
/// difficulty of zero leaves the grid full. The generator is seeded with
/// the seed in the low half of a word and its complement in the high
/// half. The seed must not be zero. Whatever is drawn, the cells show a
/// grid that the generator can make, less the values that were taken
/// away.
pub fn generate_with(difficulty: i32, seed: i32) -> (cells: Vec<Cell>)
    requires
        seed != 0,
    ensures
        cells@.len() == 81,
        exists|full: Seq<u16>, left: Seq<u16>|
            generated(full) && #[trigger] taken_from(full, left, difficulty) && forall|i: int|
                0 <= i < 81 ==> shows(#[trigger] cells@[i], left[i]),
{
    let narrow = #[verifier::truncate] (seed as u64);
    let wide = narrow | ((narrow ^ 0xFFFF_FFFF_FFFF_FFFF) << 32);
    let mut generator = Generator::new_with_seed(wide);
    let grid = generator.generate();
    let mut g = grid;
    if difficulty != 0 {
        generator.remove_cells_amount(&mut g, #[verifier::truncate] (difficulty as usize));
    }
    assert(generated(grid@));
    assert(taken_from(grid@, g@, difficulty));
    Cell::from_grid(g)
}

} // verus!
