use sudoku_solver_lib::grid::cell::Cell;
use sudoku_solver_lib::grid::coords::Coord;
use sudoku_solver_lib::grid::mark::Mark;
use sudoku_solver_lib::grid::row::Row;
use sudoku_solver_lib::grid::slice::Slice;
use sudoku_solver_lib::grid::square::Square;
use sudoku_solver_lib::grid::utility::utility::{ascii_grid, filled_sudoku};
use sudoku_solver_lib::solvers::solver::{AnnotatedSolverResult, SolveResult};

#[test]
fn values_as_text() {
    assert_eq!(Mark::N7.to_string(), "7");
    assert_eq!(Coord::new(4, 1).to_string(), "[4, 1]");
    assert_eq!(Row::new(3).to_string(), "[Row 3]");
    assert_eq!(Square::new(3, 6).to_string(), "Square(3, 6)");
    assert_eq!(Cell::new().to_string(), "[123456789,0]");
    assert_eq!(Cell::new_with_value(5).to_string(), "[_________,5]");
    assert_eq!(Cell::new_with_value(0x0180).to_string(), "[12_______,0]");
    assert_eq!(Cell::new_with_value(0x800C).to_string(), "[________9,12]");
}

#[test]
fn slice_as_text() {
    let mut slice = Slice::new();
    slice.set(1, Cell::new_with_value(3));
    let text = slice.to_string();
    let mut expected = String::new();
    for i in 0..16 {
        expected.push_str(if i == 1 { "[_________,3] " } else { "[_________,0] " });
    }
    assert_eq!(text, expected);
}

#[test]
fn result_as_text() {
    let result = AnnotatedSolverResult {
        result: SolveResult::Solved,
        grid: filled_sudoku(),
        iterations: 12,
    };
    let expected = format!("result: Solved, iters: 12\n{}", ascii_grid(&result.grid));
    assert_eq!(result.to_string(), expected);
}
