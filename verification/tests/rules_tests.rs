use sudoku_solver_lib::grid::cell::Cell;
use sudoku_solver_lib::grid::cell_collection::CellCollection;
use sudoku_solver_lib::grid::coords::Coord;
use sudoku_solver_lib::grid::grid::Grid;
use sudoku_solver_lib::grid::mark::Mark;
use sudoku_solver_lib::grid::queries::count_possible;
use sudoku_solver_lib::grid::row::Row;
use sudoku_solver_lib::grid::slice::Slice;
use sudoku_solver_lib::grid::square::Square;
use sudoku_solver_lib::grid::utility::utility::{ascii_grid, filled_sudoku, parse_from_ascii};
use sudoku_solver_lib::solvers::determined_solver::DeterminedSolver;
use sudoku_solver_lib::solvers::is_solved::IsSolved;
use sudoku_solver_lib::solvers::mark_occupy::{unset_three, MarkOccupy};
use sudoku_solver_lib::solvers::mark_reset::MarkReset;
use sudoku_solver_lib::solvers::mark_shapes::MarkShapes;
use sudoku_solver_lib::solvers::mark_simple::MarkSimple;
use sudoku_solver_lib::solvers::mark_survivor::MarkSurvivor;
use sudoku_solver_lib::solvers::mark_trail_and_error::MarkTrailAndError;
use sudoku_solver_lib::solvers::solver::{SolveResult, Solver};
use sudoku_solver_lib::solvers::solver_manager::SolverManager;
use sudoku_solver_lib::solvers::validator::{
    is_valid, is_valid_area, is_valid_cell, validate_area, validate_cell, validate_grid,
    validate_placement, ValidationError,
};

/// Removes a number from the grid
fn remove_number(grid: &mut Grid, number: u16) {
    let mark = Mark::from_value(number);

    //Reset all cells with nr 5 to empty
    for i in grid.iter() {
        let cell = grid.get_cell(i);
        if cell.get_value() == number {
            let mut c = Cell::new_with_value(0);
            c.set_possible(mark);

            grid.set_cell(i, &c);
        }
    }
}

/// Solves the grid with the given solvers
fn process_through(grid: &Grid, solves: Vec<Box<dyn Solver>>) -> Grid {
    let result = &mut grid.clone();

    for solver in solves {
        solver.solve(result);
    }

    result.clone()
}

fn words(grid: &Grid) -> Vec<u16> {
    (0..81).map(|i| grid.get_cell(i).get_value()).collect()
}

/// No cell has gained a bit outside its value, and no value has changed.
fn narrows(before: &Grid, after: &Grid) -> bool {
    (0..81).all(|i| {
        let a = before.get_cell(i).get_value();
        let b = after.get_cell(i).get_value();
        (b & 0xFFF0) & !a == 0 && (a & 0x000F == 0 || a & 0x000F == b & 0x000F)
    })
}

const HARD: &str = r#". 3 . | 2 6 . | . . .
                      . . . | . 7 . | . 9 .
                      1 . 7 | 8 3 4 | 5 . .
                      ------|-------|------
                      . 2 . | . . . | . . 7
                      3 . 4 | 6 . 2 | . . 5
                      9 5 1 | 7 4 3 | 6 . .
                      ------|-------|------
                      . 1 . | 3 . 6 | . . 4
                      2 . 8 | . 5 . | . . .
                      7 6 3 | 4 1 . | 2 5 ."#;

#[test]
fn test_can_solve() {
    let grid = &mut filled_sudoku();

    let index = 2;
    let coord = grid.get_coord(index);

    let cell = grid.get_cell_at(coord).clone();
    let mut new_cell;

    if let Some(value) = cell.value() {
        new_cell = Cell::new_empty();
        new_cell.set_possible(Mark::from_value(value));
    } else {
        panic!("Cell should be determined");
    }

    grid.set_cell_at(coord, &new_cell);

    let solver = DeterminedSolver::new();
    let output = Solver::solve(&solver, grid);

    let check_cell = grid.get_cell_at(coord);

    assert_eq!(check_cell, &cell);
    assert_eq!(output, SolveResult::Updated);
}

#[test]
fn test_single_missing_number() {
    let grid = &mut filled_sudoku();

    remove_number(grid, 5);

    let solver = DeterminedSolver::new();
    let result = Solver::solve(&solver, grid);

    assert_eq!(result, SolveResult::Updated);

    //Check that all cells with value 5 are determined
    for index in grid.iter() {
        let cell = grid.get_cell(index);

        assert!(cell.is_determined(), "Cell at {} is not determined", index)
    }
}

#[test]
fn test_double_missing_number() {
    let grid = &mut filled_sudoku();

    remove_number(grid, 5);
    remove_number(grid, 1);

    let result = Solver::solve(&DeterminedSolver::new(), grid);

    assert_eq!(result, SolveResult::Updated);

    //Check that all cells with value 5 are determined
    for index in grid.iter() {
        let cell = grid.get_cell(index);

        assert!(cell.is_determined(), "Cell at {} is not determined", index)
    }
}

#[test]
fn only_1_possible() {
    let grid = &mut filled_sudoku();

    for i in 0..10 {
        remove_number(grid, i);
    }

    println!("{}", ascii_grid(grid));
    let result = Solver::solve(&DeterminedSolver::new(), grid);

    println!("{}", ascii_grid(grid));
    assert_eq!(result, SolveResult::Updated);

    //Check that all cells with value 5 are determined
    for index in grid.iter() {
        let cell = grid.get_cell(index);

        assert!(cell.is_determined(), "Cell at {} is not determined", index)
    }
}

#[test]
pub fn specific_test() {
    let grid = &mut parse_from_ascii(
        r#"4 3 5 | 2 6 9 | . . .
           6 8 2 | . 7 . | 4 9 3
           1 9 7 | 8 3 4 | 5 . .
           ------|-------|------
           8 2 6 | . 9 . | 3 4 7
           3 7 4 | 6 8 2 | 9 1 5
           9 5 1 | 7 4 3 | 6 . .
           ------|-------|------
           5 1 9 | 3 2 6 | . . 4
           2 4 8 | 9 5 7 | . . .
           7 6 3 | 4 1 8 | 2 5 9"#,
    );
    println!("{}", ascii_grid(grid));

    MarkReset::solve(grid);
    MarkSimple::solve(grid);
    let result: SolveResult = DeterminedSolver::solve(grid);

    assert_eq!(result, SolveResult::Updated);
    let c = grid.get_cell_at(Coord::new(7, 7));

    println!("{}", ascii_grid(grid));
    assert_eq!(c.get_value(), 3);
}

#[test]
pub fn specific_test2() {
    let grid = &mut parse_from_ascii(HARD);
    println!("{}", ascii_grid(grid));

    MarkReset::solve(grid);
    MarkSimple::solve(grid);
    let result: SolveResult = DeterminedSolver::solve(grid);

    assert_eq!(result, SolveResult::Updated);
    let c = grid.get_cell_at(Coord::new(4, 1));

    println!("{}", ascii_grid(grid));
    assert_eq!(c.get_value(), 7);
}

#[test]
fn test_filled_is_solved() {
    let grid = &mut filled_sudoku();
    let result = IsSolved::solve(grid);

    assert_eq!(result, SolveResult::Solved);
}

#[test]
fn test_missing_one() {
    let grid = &mut filled_sudoku();
    grid.set_cell(33, &Cell::new());

    let result = IsSolved::solve(grid);

    assert_eq!(result, SolveResult::Nothing);
}

#[test]
fn is_solved_reports_a_stuck_cell() {
    let grid = &mut filled_sudoku();
    grid.set_cell(33, &Cell::new());
    grid.set_cell(70, &Cell::new_empty());
    assert_eq!(IsSolved::solve(grid), SolveResult::Error);
    grid.set_cell(70, &Cell::new_with_value(0x0070));
    assert_eq!(IsSolved::solve(grid), SolveResult::Error);
    assert_eq!(Solver::solve(&IsSolved::new(), grid), SolveResult::Error);
}

#[test]
fn test_mark_reset() {
    let grid = &mut filled_sudoku();

    let index = 12;
    let cell = Cell::new_with_value(0);

    grid.set_cell(index, &cell);

    let original = grid.get_cell(index);
    //Checking it has been set properly
    assert_eq!(original.possible_count(), 0, "Cell should be empty");

    MarkReset::solve(grid);

    //Checking that the reset gave no candidate back
    let set = grid.get_cell(index);
    assert_eq!(set.possible_count(), 0, "Cell should stay empty");
    assert_eq!(SolverManager::new().pre_solve(grid), SolveResult::Error);

    //A fresh cell keeps its nine candidates
    grid.set_cell(index, &Cell::new());
    MarkReset::solve(grid);
    assert_eq!(grid.get_cell(index).possible_count(), 9);
}

#[test]
fn reset_strips_determined_cells_and_is_idempotent() {
    let mut grid = parse_from_ascii(HARD);
    grid.set_cell(1, &Cell::new_with_value(0x1283));
    grid.set_cell(0, &Cell::new_with_value(0x0200));
    let before = grid;
    assert_eq!(MarkReset::solve(&mut grid), SolveResult::Nothing);
    assert_eq!(grid.get_cell(1).get_value(), 3);
    assert_eq!(grid.get_cell(0).get_value(), 0x0200);
    assert_eq!(grid.get_cell(2), before.get_cell(2));
    let once = grid;
    assert_eq!(MarkReset::solve(&mut grid), SolveResult::Nothing);
    assert_eq!(grid, once);
}

fn base_grid() -> Grid {
    return parse_from_ascii(
        "
        . . . | . . . | . . .
        . . . | 7 8 9 | . . .
        . . . | 1 2 3 | . . .
        ",
    );
}

#[test]
fn test_simple_square() {
    let square = Square::new(0, 3);
    let mut grid = base_grid();

    //Run through the basics
    let grid = &mut process_through(
        &mut grid,
        vec![MarkReset::new_box(), MarkSimple::new_box()],
    );

    MarkShapes::solve_square(grid, &square);

    //Top row in the middle should not have 4 5 6
    for c in 0..3 {
        let coord = Coord::new(0, c + 3);
        let cell = grid.get_cell_at(coord);

        assert!(cell.is_possible(Mark::N4), "Cell is not still possible: 4");
        assert!(cell.is_possible(Mark::N5), "Cell is not still possible: 5");
        assert!(cell.is_possible(Mark::N6), "Cell is not still possible: 6");
    }

    let s = Slice::from(&grid, &Row::new(0));

    //First and last 3 should not have 4 5 6
    for c in 0..3 {
        let cell = s.items[c];

        assert!(!cell.is_possible(Mark::N4), "Cell is still possible: 4");
        assert!(!cell.is_possible(Mark::N5), "Cell is still possible: 5");
        assert!(!cell.is_possible(Mark::N6), "Cell is still possible: 6");
    }

    for c in 6..9 {
        let cell = s.items[c];

        assert!(!cell.is_possible(Mark::N4), "Cell is still possible: 4");
        assert!(!cell.is_possible(Mark::N5), "Cell is still possible: 5");
        assert!(!cell.is_possible(Mark::N6), "Cell is still possible: 6");
    }
}

#[test]
fn test_mark_shapes() {
    let mut grid = base_grid();

    //Run through the basics
    grid = process_through(
        &mut grid,
        vec![
            MarkReset::new_box(),
            MarkSimple::new_box(),
            MarkShapes::new_box(),
        ],
    );

    //Top row should not have 4 5 6
    for c in 0..3 {
        let coord = Coord::new(0, c);
        let cell = grid.get_cell_at(coord);

        assert!(!cell.is_possible(Mark::N4), "Cell is still possible: 4");
        assert!(!cell.is_possible(Mark::N5), "Cell is still possible: 5");
        assert!(!cell.is_possible(Mark::N6), "Cell is still possible: 6");
    }

    //Top row should not have 4, 5 6
    for c in 0..3 {
        let coord = Coord::new(0, c + 6);
        let cell = grid.get_cell_at(coord);
        assert!(!cell.is_possible(Mark::N4));
        assert!(!cell.is_possible(Mark::N5));
        assert!(!cell.is_possible(Mark::N6));
    }

    //Middle square, Top row should have 4, 5, 6 and only those
    for c in 0..3 {
        let coord = Coord::new(0, c + 3);
        let cell = grid.get_cell_at(coord);
        assert!(cell.is_possible(Mark::N4), "Coord: {:?}", coord);
        assert!(cell.is_possible(Mark::N5), "Coord: {:?}", coord);
        assert!(cell.is_possible(Mark::N6), "Coord: {:?}", coord);

        //Make sure the other numbers are not possible
        assert!(!cell.is_possible(Mark::N1), "Coord: {:?}", coord);
        assert!(!cell.is_possible(Mark::N2), "Coord: {:?}", coord);
        assert!(!cell.is_possible(Mark::N3), "Coord: {:?}", coord);
        assert!(!cell.is_possible(Mark::N7), "Coord: {:?}", coord);
        assert!(!cell.is_possible(Mark::N8), "Coord: {:?}", coord);
        assert!(!cell.is_possible(Mark::N9), "Coord: {:?}", coord);
    }
}

#[test]
fn test_mark_shapes_touched_nothing() {
    let grid = &mut filled_sudoku();

    remove_number(grid, 5);

    //Run through the basics
    let processed = &mut process_through(
        grid,
        vec![MarkReset::new_box(), MarkSimple::new_box()],
    );

    let solver = MarkShapes::new();
    let solved = Solver::solve(&solver, processed);
    println!("{:?}", solved);

    //Empty grids should still be possible for only 5
    for index in grid.iter() {
        let coord = grid.get_coord(index);
        let c = grid.get_cell_at(coord);
        if !c.is_determined() {
            let p = c.is_possible(Mark::N5);

            assert_eq!(p, true, "Coord: {:?}", coord);
        }
    }
}

#[test]
fn test_specific_case_1() {
    let grid = &mut parse_from_ascii(
        r#"3 . . | . . . | . . .
           6 8 . | . . 1 | . . .
           . . . | . . . | . . .
           ------|-------|------
           . . 6 | . . 5 | . . 7
           . . . | . . 2 | . . .
           . . . | . . . | . . .
           ------|-------|------
           . 1 . | . . . | . . 4
           . 2 . | . . . | . . .
           . 6 . | . . . | . . ."#,
    );

    //Run through the basics
    let grid = &mut process_through(
        grid,
        vec![MarkReset::new_box(), MarkSimple::new_box()],
    );

    let solver = MarkShapes::new();
    let solved = Solver::solve(&solver, grid);
    println!("{:?}", solved);

    // Bottom left square should have 3 in the right column
    assert!(grid.get_cell_at(Coord::new(6, 2)).is_possible(Mark::N3));
    assert!(grid.get_cell_at(Coord::new(7, 2)).is_possible(Mark::N3));
    assert!(grid.get_cell_at(Coord::new(8, 2)).is_possible(Mark::N3));
    // But not the first column
    assert!(grid.get_cell_at(Coord::new(6, 0)).is_possible(Mark::N3) == false);
    assert!(grid.get_cell_at(Coord::new(7, 0)).is_possible(Mark::N3) == false);
    assert!(grid.get_cell_at(Coord::new(8, 0)).is_possible(Mark::N3) == false);

    // Middle left square should have 3 in the middle column
    assert!(grid.get_cell_at(Coord::new(3, 1)).is_possible(Mark::N3));
    assert!(grid.get_cell_at(Coord::new(4, 1)).is_possible(Mark::N3));
    assert!(grid.get_cell_at(Coord::new(5, 1)).is_possible(Mark::N3));
    // But not the first and last column
    assert!(grid.get_cell_at(Coord::new(3, 0)).is_possible(Mark::N3) == false);
    assert!(grid.get_cell_at(Coord::new(4, 0)).is_possible(Mark::N3) == false);
    assert!(grid.get_cell_at(Coord::new(5, 0)).is_possible(Mark::N3) == false);
    assert!(grid.get_cell_at(Coord::new(3, 2)).is_possible(Mark::N3) == false);
    assert!(grid.get_cell_at(Coord::new(4, 2)).is_possible(Mark::N3) == false);
    assert!(grid.get_cell_at(Coord::new(5, 2)).is_possible(Mark::N3) == false);
}

fn test_at_coord(coord: Coord, mark: Mark) {
    let grid = &mut Grid::new();

    grid.set_cell_at(coord, &Cell::new_with_value(mark.to_value()));

    println!("{}", ascii_grid(&grid));
    let solver = MarkSimple::new();
    Solver::solve(&solver, grid);

    // Checks the rows
    for row in grid.iter_rows() {
        let row_index = row.row_index();
        let possible = count_possible(grid, row, mark);

        if row_index == coord.get_row() {
            assert_eq!(possible, 0, "Row {} is not marked off", row_index);
        } else {
            assert!(possible > 0, "Row {} should be still possible", row_index);
        }
    }

    // Checks the columns
    for col in grid.iter_columns() {
        let col_index = col.col_index();
        let possible = count_possible(grid, col, mark);

        if col_index == coord.get_col() {
            assert_eq!(possible, 0, "Column {} is not marked off", col_index);
        } else {
            assert!(
                possible > 0,
                "Column {} should be still possible",
                col_index
            );
        }
    }

    // Checks the squares
    for square in grid.iter_squares() {
        let possible = count_possible(grid, square, mark);

        if square.is_coord_in_square(coord) {
            assert_eq!(possible, 0, "Square is not marked off");
        } else {
            assert!(possible > 0, "Square should be still possible");
        }
    }
}

#[test]
fn test_solve_square_1() {
    let coord = Coord::new(1, 1);
    test_at_coord(coord, Mark::N1);
}

#[test]
fn test_solve_square_2() {
    let coord = Coord::new(2, 4);
    test_at_coord(coord, Mark::N2);
}

#[test]
fn test_solve_square_3() {
    let coord = Coord::new(0, 7);
    test_at_coord(coord, Mark::N3);
}

#[test]
fn test_solve_square_4() {
    let coord = Coord::new(3, 1);
    test_at_coord(coord, Mark::N4);
}

#[test]
fn test_solve_square_5() {
    let coord = Coord::new(4, 3);
    test_at_coord(coord, Mark::N5);
}

#[test]
fn test_solve_square_6() {
    let coord = Coord::new(5, 8);
    test_at_coord(coord, Mark::N6);
}

#[test]
fn test_solve_square_7() {
    let coord = Coord::new(7, 1);
    test_at_coord(coord, Mark::N7);
}

#[test]
fn test_solve_square_8() {
    let coord = Coord::new(8, 3);
    test_at_coord(coord, Mark::N8);
}

#[test]
fn test_solve_square_9() {
    let coord = Coord::new(6, 8);
    test_at_coord(coord, Mark::N9);
}

#[test]
pub fn test_specific_case() {
    let grid = parse_from_ascii(
        "6 . . | . . . | 7 . .
         . . 2 | 5 . . | 4 . .
         1 . . | 8 . . | 5 . .
         ------|-------|------
         . . . | . . . | . . .
         . . . | . . . | 9 . .
         . . . | . . . | . . .
         ------|-------|------
         . . . | . . . | . . .
         . . . | . 5 . | . . .
         . . . | . . . | . . .",
    );

    assert!(is_valid(&grid));
}

#[test]
fn validator_names_each_fault() {
    let filled = filled_sudoku();
    assert_eq!(validate_grid(&filled), Ok(()));
    assert!(is_valid(&filled));
    assert_eq!(validate_placement(&filled, Coord::new(4, 4)), Ok(()));

    let mut grid = filled;
    grid.set_cell(7, &Cell::new_with_value(0x0085));
    assert_eq!(
        validate_grid(&grid),
        Err(ValidationError::InvalidValue { index: 7, value: 0x0085 })
    );
    assert!(!is_valid_cell(grid.get_cell(7)));
    assert_eq!(
        validate_cell(grid.get_cell(7), Coord::from_index(7)),
        Err(ValidationError::InvalidValue { index: 7, value: 0x0085 })
    );

    let mut grid = filled;
    grid.set_cell(7, &Cell::new_empty());
    assert_eq!(validate_grid(&grid), Err(ValidationError::NoPossible { index: 7 }));
    assert!(!is_valid(&grid));

    // two fives in the first row
    let mut grid = filled;
    grid.set_cell(0, &Cell::new_with_value(5));
    assert_eq!(
        validate_grid(&grid),
        Err(ValidationError::NoPlace { mark: Mark::N4, first: 0, last: 8 })
    );
    assert_eq!(
        validate_area(&grid, Square::new(0, 0)),
        Err(ValidationError::NoPlace { mark: Mark::N4, first: 0, last: 20 })
    );
    let mut grid = filled;
    grid.set_cell(0, &Cell::new_with_value(3));
    assert_eq!(
        validate_grid(&grid),
        Err(ValidationError::Duplicate { mark: Mark::N3, first: 0, last: 8 })
    );
    assert!(!is_valid_area(&grid, Row::new(0)));
    assert!(is_valid_area(&grid, Row::new(1)));
    assert_eq!(
        validate_placement(&grid, Coord::new(0, 0)),
        Err(ValidationError::RowCount { index: 0 })
    );
    assert_eq!(
        validate_placement(&grid, Coord::new(1, 0)),
        Ok(())
    );
    assert_eq!(
        validate_placement(&grid, Coord::new(4, 0)),
        Err(ValidationError::ColumnCount { index: 36 })
    );
    let mut grid = filled;
    grid.set_cell(0, &Cell::new_with_value(8));
    assert_eq!(
        validate_placement(&grid, Coord::new(1, 1)),
        Err(ValidationError::SquareCount { index: 10 })
    );

    // a placed digit that is still offered in its row
    let mut grid = filled;
    grid.set_cell(1, &Cell::new_with_value(0x0600));
    assert_eq!(
        validate_grid(&grid),
        Err(ValidationError::DeterminedPossible { mark: Mark::N4, first: 0, last: 8 })
    );
    assert_eq!(
        validate_placement(&grid, Coord::new(0, 1)),
        Err(ValidationError::NotDetermined { index: 1 })
    );
}

#[test]
fn survivor_places_the_last_candidate() {
    let mut grid = filled_sudoku();
    grid.set_cell(0, &Cell::new_with_possible(Mark::N4));
    grid.set_cell(40, &Cell::new_with_value(0x0180));
    let before = grid;
    assert_eq!(MarkSurvivor::solve(&mut grid), SolveResult::Updated);
    assert_eq!(grid.get_cell(0).get_value(), 4);
    assert_eq!(grid.get_cell(40).get_value(), 0x0180);
    assert!(narrows(&before, &grid));
    let once = grid;
    assert_eq!(MarkSurvivor::solve(&mut grid), SolveResult::Nothing);
    assert_eq!(grid, once);
}

#[test]
fn hidden_single_for_one_mark_and_one_kind_of_area() {
    let mut grid = filled_sudoku();
    remove_number(&mut grid, 5);
    remove_number(&mut grid, 1);
    let mut rows = grid;
    assert!(DeterminedSolver::solve_rows_for_mark(&mut rows, Mark::N5));
    assert_eq!(rows.count_determined(), 72);
    assert!(!DeterminedSolver::solve_rows_for_mark(&mut rows, Mark::N5));
    let mut columns = grid;
    assert!(DeterminedSolver::solve_columns_for_mark(&mut columns, Mark::N1));
    assert_eq!(columns, {
        let mut g = grid;
        DeterminedSolver::solve_squares_for_mark(&mut g, Mark::N1);
        g
    });
    let mut both = grid;
    assert_eq!(DeterminedSolver::solve_for_mark(&mut both, Mark::N5), SolveResult::Updated);
    assert_eq!(both, rows);
    assert!(DeterminedSolver::solve_columns(&mut both));
    assert_eq!(both, filled_sudoku());
    assert!(!DeterminedSolver::solve_squares(&mut both));
    assert!(!DeterminedSolver::solve_rows(&mut both));
}

#[test]
fn occupy_clears_the_box_outside_the_line() {
    // in the first row the digit 1 is offered in the first box only
    let mut grid = Grid::new();
    for col in 3..9 {
        grid.unset_possible_at(Coord::new(0, col), Mark::N1);
    }
    let before = grid;
    assert_eq!(MarkOccupy::solve(&mut grid), SolveResult::Updated);
    for row in 1..3 {
        for col in 0..3 {
            assert!(!grid.is_possible_at(Coord::new(row, col), Mark::N1));
        }
        for col in 3..9 {
            assert!(grid.is_possible_at(Coord::new(row, col), Mark::N1));
        }
    }
    for col in 0..3 {
        assert!(grid.is_possible_at(Coord::new(0, col), Mark::N1));
    }
    assert!(narrows(&before, &grid));
    let once = grid;
    assert_eq!(MarkOccupy::solve(&mut grid), SolveResult::Nothing);
    assert_eq!(grid, once);
    assert_eq!(Solver::solve(&MarkOccupy::new(), &mut grid), SolveResult::Nothing);

    let mut three = Grid::new();
    unset_three(&mut three, 3, &Row::new(4), Mark::N9);
    assert_eq!(count_possible(&three, Row::new(4), Mark::N9), 6);
    assert!(!three.is_possible_at(Coord::new(4, 5), Mark::N9));
}

#[test]
fn shapes_for_one_mark() {
    let mut grid = base_grid();
    MarkReset::solve(&mut grid);
    MarkSimple::solve(&mut grid);
    let before = grid;
    assert_eq!(MarkShapes::solve_for_mark(&mut grid, Mark::N4), SolveResult::Updated);
    assert!(!grid.is_possible_at(Coord::new(0, 0), Mark::N4));
    assert!(grid.is_possible_at(Coord::new(0, 0), Mark::N5));
    assert!(narrows(&before, &grid));
    assert_eq!(MarkShapes::solve_for_mark(&mut grid, Mark::N4), SolveResult::Nothing);
    assert!(MarkShapes::solve_square_for_mark(&mut grid, &Square::new(0, 3), Mark::N5));
    assert!(!grid.is_possible_at(Coord::new(0, 8), Mark::N5));
}

#[test]
fn trial_rule_is_gated_and_monotone() {
    // too few values: the rule does nothing
    let mut sparse = base_grid();
    let before = sparse;
    assert_eq!(MarkTrailAndError::solve(&mut sparse), SolveResult::Nothing);
    assert_eq!(sparse, before);

    let mut grid = parse_from_ascii(HARD);
    MarkReset::solve(&mut grid);
    MarkSimple::solve(&mut grid);
    let before = grid;
    let result = Solver::solve(&MarkTrailAndError::new(), &mut grid);
    assert!(narrows(&before, &grid));
    assert_eq!(result == SolveResult::Updated, grid != before);
    for mark in Mark::iter() {
        let start = grid;
        let changed = MarkTrailAndError::solve_for_mark(&mut grid, mark);
        assert_eq!(changed, grid != start);
        assert!(narrows(&start, &grid));
    }
}

#[test]
fn rules_are_monotone_and_stop_at_a_fixed_point() {
    let mut grid = parse_from_ascii(HARD);
    MarkReset::solve(&mut grid);
    assert_eq!(MarkSimple::solve(&mut grid), SolveResult::Nothing);
    let simple = grid;
    assert_eq!(MarkSimple::solve(&mut grid), SolveResult::Nothing);
    assert_eq!(grid, simple);
    let rules: Vec<Box<dyn Solver>> = vec![
        MarkOccupy::new_box(),
        MarkShapes::new_box(),
        MarkSurvivor::new_box(),
        DeterminedSolver::new_box(),
        MarkTrailAndError::new_box(),
    ];
    for _ in 0..20 {
        for rule in rules.iter() {
            let before = grid;
            let result = rule.solve(&mut grid);
            assert!(narrows(&before, &grid), "{}", rule.name());
            assert_eq!(result == SolveResult::Updated, words(&grid) != words(&before));
            assert!(result == SolveResult::Updated || result == SolveResult::Nothing);
            if result == SolveResult::Nothing {
                assert_eq!(rule.solve(&mut grid), SolveResult::Nothing);
                assert_eq!(grid, before);
            }
        }
    }
    assert!(is_valid(&grid));
}

#[test]
fn naked_single_can_update_again_on_a_second_run() {
    // the second cell holds the five that the first cell still offers
    let mut grid = Grid::new();
    grid.set_cell(0, &Cell::new_with_value(0x1800));
    grid.set_cell(1, &Cell::new_with_value(0x0800));
    assert_eq!(MarkSurvivor::solve(&mut grid), SolveResult::Updated);
    assert_eq!(grid.get_cell(1).get_value(), 5);
    assert_eq!(grid.get_cell(0).get_value(), 0x1000);
    assert_eq!(MarkSurvivor::solve(&mut grid), SolveResult::Updated);
    assert_eq!(grid.get_cell(0).get_value(), 6);
    assert_eq!(MarkSurvivor::solve(&mut grid), SolveResult::Nothing);
}

#[test]
fn terminal_rule_repeats_its_report() {
    let grid = filled_sudoku();
    assert_eq!(IsSolved::solve(&grid), SolveResult::Solved);
    assert_eq!(IsSolved::solve(&grid), SolveResult::Solved);
}

#[test]
fn reset_leaves_open_cells_as_they_are() {
    let mut grid = Grid::empty();
    MarkReset::solve(&mut grid);
    assert_eq!(grid, Grid::empty());
    let mut grid = Grid::new();
    grid.set_cell(0, &Cell::new_with_value(0x0080));
    grid.set_cell(1, &Cell::new_with_value(0x0087));
    let before = grid;
    assert_eq!(MarkReset::solve(&mut grid), SolveResult::Nothing);
    assert_eq!(grid.get_cell(0).get_value(), 0x0080);
    assert_eq!(grid.get_cell(1).get_value(), 0x0007);
    for index in 2..81 {
        assert_eq!(grid.get_cell(index), before.get_cell(index));
    }
    assert!(narrows(&before, &grid));
}

#[test]
fn hidden_single_passes_over_a_digit_that_the_area_holds() {
    let mut grid = Grid::new();
    grid.set_cell(0, &Cell::new_with_value(5));
    grid.set_cell(1, &Cell::new_with_possible(Mark::N5));
    for col in 2..9 {
        grid.unset_possible_at(Coord::new(0, col), Mark::N5);
    }
    let before = grid;
    assert!(!DeterminedSolver::solve_rows_for_mark(&mut grid, Mark::N5));
    assert_eq!(grid, before);
    // without the five in the row the same cell gets it
    grid.set_cell(0, &Cell::new_with_possible(Mark::N1));
    assert!(DeterminedSolver::solve_rows_for_mark(&mut grid, Mark::N5));
    assert_eq!(grid.get_cell(1).get_value(), 5);
}

#[test]
fn locked_candidates_pass_over_a_digit_that_the_line_holds() {
    let mut grid = Grid::new();
    for col in 3..9 {
        grid.unset_possible_at(Coord::new(0, col), Mark::N1);
    }
    grid.set_cell(8, &Cell::new_with_value(1));
    let before = grid;
    assert_eq!(MarkOccupy::solve(&mut grid), SolveResult::Nothing);
    assert_eq!(grid, before);
}

#[test]
fn shapes_pass_over_a_digit_that_the_box_holds() {
    let mut grid = base_grid();
    MarkReset::solve(&mut grid);
    MarkSimple::solve(&mut grid);
    // the four is placed in the box and still offered beside it
    grid.set_cell(3, &Cell::new_with_value(4));
    let before = grid;
    assert!(!MarkShapes::solve_square_for_mark(&mut grid, &Square::new(0, 3), Mark::N4));
    assert_eq!(grid, before);
}

#[test]
fn rules_have_their_names() {
    assert_eq!(MarkReset::new().name(), "Mark Resetter");
    assert_eq!(MarkSimple::new().name(), "Mark Simple");
    assert_eq!(MarkOccupy::new().name(), "Mark Occupy");
    assert_eq!(MarkShapes::new().name(), "Mark Shapes");
    assert_eq!(MarkSurvivor::new().name(), "Mark Survivor");
    assert_eq!(DeterminedSolver::new().name(), "Determined Solver");
    assert_eq!(MarkTrailAndError::new().name(), "Mark Trail And Error");
    assert_eq!(IsSolved::new().name(), "Is Solved");
    assert_eq!(IsSolved::new_box().name(), "Is Solved");
    assert_eq!(MarkReset::new_box().name(), "Mark Resetter");
    assert_eq!(MarkSimple::new_box().name(), "Mark Simple");
}

#[test]
fn locked_candidates_can_update_again_on_a_second_run() {
    let mut grid = parse_from_ascii(
        ". . . | 2 6 . | . 8 .
         . . 2 | . 7 . | . . .
         1 . . | . 3 . | . . 2
         ------|-------|------
         . . 6 | . 9 . | . 4 7
         . 7 4 | . . 2 | . 1 5
         9 5 1 | . 4 . | . 2 8
         ------|-------|------
         . 1 9 | . . 6 | . 7 4
         2 4 8 | 9 . . | 1 . .
         7 6 3 | . . . | . . .",
    );
    assert_eq!(SolverManager::new().pre_solve(&mut grid), SolveResult::Nothing);
    let start = grid;
    assert_eq!(MarkOccupy::solve(&mut grid), SolveResult::Updated);
    let once = grid;
    assert!(narrows(&start, &once));
    assert_eq!(MarkOccupy::solve(&mut grid), SolveResult::Updated);
    assert!(narrows(&once, &grid));
    assert_ne!(grid, once);
}

#[test]
fn trial_elimination_touches_no_cell_that_holds_a_value() {
    for digit in 1..=9u16 {
        let mut grid = parse_from_ascii(HARD);
        assert_eq!(SolverManager::new().pre_solve(&mut grid), SolveResult::Nothing);
        // every cell that holds a value offers the digit as well
        for index in 0..81 {
            let word = grid.get_cell(index).get_value();
            if word & 0x000F != 0 {
                let bit = Cell::new_with_possible(Mark::from_value(digit)).get_value();
                grid.set_cell(index, &Cell::new_with_value(word | bit));
            }
        }
        let before = grid;
        MarkTrailAndError::solve(&mut grid);
        assert!(narrows(&before, &grid));
        for index in 0..81 {
            if before.get_cell(index).is_determined() {
                assert_eq!(grid.get_cell(index), before.get_cell(index));
            }
        }
    }
}

#[test]
fn validation_errors_say_what_is_wrong() {
    assert_eq!(
        ValidationError::InvalidValue { index: 7, value: 12 }.message(),
        "Invalid value 12 at [0, 7]"
    );
    assert_eq!(ValidationError::NoPossible { index: 40 }.message(), "No possible values at [4, 4]");
    assert_eq!(
        ValidationError::Duplicate { mark: Mark::N3, first: 0, last: 8 }.message(),
        "More than one 3 in area, from [0, 0] to [0, 8]"
    );
    assert_eq!(
        ValidationError::DeterminedPossible { mark: Mark::N4, first: 8, last: 80 }.message(),
        "Determined 4 with possible values, from [0, 8] to [8, 8]"
    );
    assert_eq!(
        ValidationError::NoPlace { mark: Mark::N9, first: 60, last: 80 }.message(),
        "No possible values for 9, from [6, 6] to [8, 8]"
    );
    assert_eq!(
        ValidationError::NotDetermined { index: 1 }.message(),
        "Cell at [0, 1] is not determined"
    );
    assert_eq!(ValidationError::RowCount { index: 36 }.message(), "Row 4 should only be 1");
    assert_eq!(ValidationError::ColumnCount { index: 37 }.message(), "Column 1 should only be 1");
    assert_eq!(ValidationError::SquareCount { index: 10 }.message(), "Square should only be 1");
    // the message of what a check finds
    let mut grid = filled_sudoku();
    grid.set_cell(7, &Cell::new_empty());
    assert_eq!(validate_grid(&grid).unwrap_err().message(), "No possible values at [0, 7]");
}

#[test]
fn naked_single_counts_candidates_only() {
    // a cell with one candidate and a stray bit below the candidates
    let mut grid = Grid::new();
    grid.set_cell(0, &Cell::new_with_value(0x0110));
    assert_eq!(MarkSurvivor::solve(&mut grid), SolveResult::Updated);
    assert_eq!(grid.get_cell(0).get_value(), 2);
    assert!(!grid.get_cell(1).is_possible(Mark::N2));
    // a cell with two candidates stays
    let mut grid = Grid::new();
    grid.set_cell(0, &Cell::new_with_value(0x0180));
    let before = grid;
    assert_eq!(MarkSurvivor::solve(&mut grid), SolveResult::Nothing);
    assert_eq!(grid, before);
    // a cell with a stray bit and no candidate stays
    let mut grid = Grid::new();
    grid.set_cell(0, &Cell::new_with_value(0x0040));
    let before = grid;
    assert_eq!(MarkSurvivor::solve(&mut grid), SolveResult::Nothing);
    assert_eq!(grid, before);
}

#[test]
fn trials_cost_the_grid_the_failed_candidates_and_nothing_else() {
    let solver = SolverManager::new();
    for text in [HARD, ". . . | . . . | . . .\n1 2 3 | . . . | . . ."] {
        let mut grid = parse_from_ascii(text);
        let first = solver.solve_simple(&mut grid);
        assert_ne!(first.result, SolveResult::Error);
        let mut live = first.grid;
        let result = solver.try_some_stuff(&mut live, first.iterations);
        // the same pass, one trial at a time
        let mut shadow = first.grid;
        let mut lost = 0;
        'pass: for index in 0..81 {
            for digit in 1..=9u16 {
                let mark = Mark::from_value(digit);
                let cell = *shadow.get_cell(index);
                if cell.is_determined() || !cell.is_possible(mark) {
                    continue;
                }
                let mut copy = shadow;
                copy.place_value(index, digit);
                let tried = solver.solve_internal(&mut copy, first.iterations);
                if tried.result == SolveResult::Error || !is_valid(&tried.grid) {
                    shadow.unset_possible(index, mark);
                    lost += 1;
                } else if tried.result == SolveResult::Solved {
                    assert_eq!(result.result, SolveResult::Solved);
                    assert_eq!(result.grid, tried.grid);
                    break 'pass;
                }
            }
        }
        assert_eq!(live, shadow);
        assert!(narrows(&first.grid, &live));
        assert_eq!(words(&live) != words(&first.grid), lost > 0);
    }
}
