use sudoku_solver_lib::grid::grid::Grid;
use sudoku_solver_lib::solvers::solver::{SolveResult, SolverResult};

#[test]
pub fn test_combine_nothing() {
    let current = SolveResult::Nothing;
    assert_eq!(current.combine(SolveResult::Nothing), SolveResult::Nothing);
    assert_eq!(current.combine(SolveResult::Updated), SolveResult::Updated);
    assert_eq!(current.combine(SolveResult::Solved), SolveResult::Solved);
    assert_eq!(current.combine(SolveResult::Error), SolveResult::Error);
}

#[test]
pub fn test_combine_updated() {
    let current = SolveResult::Updated;
    assert_eq!(current.combine(SolveResult::Nothing), SolveResult::Updated);
    assert_eq!(current.combine(SolveResult::Updated), SolveResult::Updated);
    assert_eq!(current.combine(SolveResult::Solved), SolveResult::Solved);
    assert_eq!(current.combine(SolveResult::Error), SolveResult::Error);
}

#[test]
pub fn test_combine_solved() {
    let current = SolveResult::Solved;
    assert_eq!(current.combine(SolveResult::Nothing), SolveResult::Solved);
    assert_eq!(current.combine(SolveResult::Updated), SolveResult::Solved);
    assert_eq!(current.combine(SolveResult::Solved), SolveResult::Solved);
    assert_eq!(current.combine(SolveResult::Error), SolveResult::Error);
}

#[test]
pub fn test_combine_error() {
    let current = SolveResult::Error;
    assert_eq!(current.combine(SolveResult::Nothing), SolveResult::Error);
    assert_eq!(current.combine(SolveResult::Updated), SolveResult::Error);
    assert_eq!(current.combine(SolveResult::Solved), SolveResult::Error);
    assert_eq!(current.combine(SolveResult::Error), SolveResult::Error);
}

#[test]
pub fn solve_result_order_and_names() {
    assert_eq!(SolveResult::Nothing.ordinal(), 0);
    assert_eq!(SolveResult::Updated.ordinal(), 1);
    assert_eq!(SolveResult::Solved.ordinal(), 2);
    assert_eq!(SolveResult::Error.ordinal(), 3);
    assert_eq!(SolveResult::Updated | SolveResult::Solved, SolveResult::Solved);
    assert!(SolveResult::Solved.is_done());
    assert!(SolveResult::Error.is_done());
    assert!(!SolveResult::Nothing.is_done());
    assert!(!SolveResult::Updated.is_done());
    assert_eq!(SolveResult::from_changed(true), SolveResult::Updated);
    assert_eq!(SolveResult::from_changed(false), SolveResult::Nothing);
    assert_eq!(SolveResult::Solved.name(), "Solved");
    assert_eq!(SolveResult::Error.name(), "Error");
}

#[test]
pub fn solver_result_pairs() {
    let grid = Grid::new();
    assert_eq!(SolverResult::update(grid).result, SolveResult::Updated);
    assert_eq!(SolverResult::nothing(grid).result, SolveResult::Nothing);
    assert_eq!(SolverResult::solved(grid).result, SolveResult::Solved);
    let other = SolverResult::new(Grid::empty(), SolveResult::Error);
    let joined = SolverResult::update(grid).combine(other);
    assert_eq!(joined.result, SolveResult::Error);
    assert_eq!(joined.grid, Grid::empty());
}
