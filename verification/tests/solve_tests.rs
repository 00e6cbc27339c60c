use rand::rngs::StdRng;
use rand::Rng;
use rand::SeedableRng;
use sudoku_solver_lib::generators::generators::{determined_cells, fill_area, Generator};
use sudoku_solver_lib::grid::cell::Cell;
use sudoku_solver_lib::grid::cell_collection::CellCollection;
use sudoku_solver_lib::grid::coords::Coord;
use sudoku_solver_lib::grid::grid::Grid;
use sudoku_solver_lib::grid::mark::Mark;
use sudoku_solver_lib::grid::test_util::test_util;
use sudoku_solver_lib::grid::utility::utility::{ascii_grid, filled_sudoku, parse_from_ascii};
use sudoku_solver_lib::solvers::fast_solver::FastSolver;
use sudoku_solver_lib::solvers::solver::SolveResult;
use sudoku_solver_lib::solvers::solver_manager::{SolverManager, SolverManagerConfig, Trials};
use sudoku_solver_lib::solvers::validator::{is_valid, validate_grid};

/// Tests that the grid should be solved
fn test_should_solve(grid: Grid) {
    println!("{}", ascii_grid(&grid));

    let solver = SolverManager::new();
    let output = solver.solve(grid);

    println!("iterations: {:?}", output.iterations);
    println!("{}", ascii_grid(&output.grid));

    assert_eq!(output.result, SolveResult::Solved, "Grid should be solved");
    assert_eq!(validate_grid(&output.grid), Ok(()));
}

/// Removes a random amount of cells from the grid
fn remove_cells_amount(grid: &mut Grid, amount: usize) {
    let mut rng = rand::thread_rng();
    let mut removed = 0;

    while removed < amount {
        let index = rng.gen_range(0..grid.max());
        let cell = &grid.get_cell(index);

        if cell.is_determined() {
            grid.set_cell(index, &Cell::new());
            removed += 1;
        }
    }
}

/// Removes a number from the grid
fn remove_number(grid: &mut Grid, number: u16) {
    let mark = Mark::from_value(number);

    //Reset all cells with nr 5 to empty
    for i in grid.iter() {
        let cell = grid.get_cell(i);
        if cell.get_value() == number {
            let mut c = Cell::new_with_value(0);
            c.set_possible(mark);

            grid.set_cell(i, &c);
        }
    }
}

fn clear_square(grid: &mut Grid, row: usize, col: usize) {
    let sq = grid.get_square(row, col);
    for index in CellCollection::iter(&sq) {
        let coord = sq.get_coord(index);
        grid.set_cell_at(coord, &Cell::new());
    }
}

fn test_amount(amount: usize) {
    let total = 81;
    let percent = (amount * 100) / total;

    println!("test_amount({}) {}%", amount, percent);
    let mut grid = filled_sudoku();

    remove_cells_amount(&mut grid, amount);

    test_should_solve(grid);
}

fn lib_test_amount(amount: usize) {
    println!("test_amount({})", amount);
    let mut grid = test_util::filled_sudoku();

    remove_cells_amount(&mut grid, amount);

    lib_test_should_solve(grid);
}

fn lib_test_should_solve(grid: Grid) {
    println!("{}", test_util::ascii_grid(&grid));

    let solver = SolverManager::new();
    let output = solver.solve(grid);

    println!("iterations: {:?}", output.iterations);
    println!("{}", test_util::ascii_grid(&output.grid));

    assert_eq!(output.result, SolveResult::Solved);
}

const HARD: &str = r#". 3 . | 2 6 . | . . .
                      . . . | . 7 . | . 9 .
                      1 . 7 | 8 3 4 | 5 . .
                      ------|-------|------
                      . 2 . | . . . | . . 7
                      3 . 4 | 6 . 2 | . . 5
                      9 5 1 | 7 4 3 | 6 . .
                      ------|-------|------
                      . 1 . | 3 . 6 | . . 4
                      2 . 8 | . 5 . | . . .
                      7 6 3 | 4 1 . | 2 5 ."#;

#[test]
fn lib_test_1() {
    lib_test_amount(1);
}

#[test]
fn lib_test_10() {
    lib_test_amount(3);
}

#[test]
fn lib_test_20() {
    lib_test_amount(20);
}

#[test]
fn test_30() {
    lib_test_amount(30);
}

#[test]
fn lib_test_1_area_missing() {
    let mut grid = test_util::filled_sudoku();

    let sq = grid.get_square(3, 3);
    for index in CellCollection::iter(&sq) {
        let coord = sq.get_coord(index);
        grid.set_cell(coord.get_index(), &Cell::new());
    }

    lib_test_should_solve(grid);
}

#[test]
fn test_test_1() {
    lib_test_amount(1)
}

#[test]
fn test_test_10() {
    lib_test_amount(10);
}

#[test]
fn test_test_20() {
    lib_test_amount(20);
}

#[test]
fn test_test_1_area_missing() {
    let grid: &mut Grid = &mut test_util::filled_sudoku();

    clear_square(grid, 3, 3);

    lib_test_should_solve(*grid);
}

#[test]
fn test_2_area_missing() {
    let grid: &mut Grid = &mut test_util::filled_sudoku();

    clear_square(grid, 3, 3);
    clear_square(grid, 0, 6);

    lib_test_should_solve(*grid);
}

#[test]
fn test_3_area_missing() {
    let grid: &mut Grid = &mut test_util::filled_sudoku();

    clear_square(grid, 3, 3);
    clear_square(grid, 0, 6);
    clear_square(grid, 6, 0);

    lib_test_should_solve(*grid);
}

#[test]
fn amount_test_1() {
    test_amount(1)
}

#[test]
fn test_9() {
    test_amount(9);
}

#[test]
fn test_18() {
    test_amount(18);
}

#[test]
fn test_27() {
    test_amount(27);
}

#[test]
fn test_36() {
    test_amount(36);
}

#[test]
fn test_45() {
    test_amount(45);
}

#[test]
fn test_54() {
    test_amount(54);
}

#[test]
fn test_63() {
    test_amount(63);
}

#[test]
fn test_72() {
    test_amount(72);
}

#[test]
fn test_possible_when_only_1_item_is_set() {
    let grid = &mut parse_from_ascii(
        ". . . | . . . | . . .\n\
         . . . | . . . | . . .\n\
         . . . | . . . | . . .\n\
         ------|-------|------\n\
         . . . | . . . | . . .\n\
         . 9 . | . . . | . . .\n\
         . . . | . . . | . . .\n\
         ------|-------|------\n\
         . . . | . . . | . . .\n\
         . . . | . . . | . . .\n\
         . . . | . . . | . . .",
    );

    let solver = SolverManager::new();
    let result = solver.solve_simple(grid);

    let pos = &mut Cell::new();
    pos.unset_possible(Mark::N9);

    // Col 2 should have no possible 9
    for r in 0..9 {
        let c = Coord::new(r, 1);
        let cell = result.grid.get_cell_at(c);
        if cell.is_determined() {
            continue;
        }

        assert_eq!(cell, pos, "Cell at {:?} should have no possible 9", c);
    }

    // Row 4 should have no possible 9
    for c in 0..9 {
        let c = Coord::new(4, c);
        let cell = result.grid.get_cell_at(c);
        if cell.is_determined() {
            continue;
        }

        assert_eq!(cell, pos, "Cell at {:?} should have no possible 9", c);
    }

    // Square at (row 1, col 0) should have no possible 9
    for r in 0..3 {
        for c in 0..3 {
            let c = Coord::new(r + 3, c);
            let cell = result.grid.get_cell_at(c);
            if cell.is_determined() {
                continue;
            }

            assert_eq!(cell, pos, "Cell at {:?} should have no possible 9", c);
        }
    }
}

#[test]
fn test_missing_number() {
    for i in 1..=9 {
        println!("Testing missing number {}", i);
        let mut grid = filled_sudoku();

        //Reset all cells with nr 5 to empty
        remove_number(&mut grid, i);

        test_should_solve(grid);
    }
}

#[test]
fn test_manual_specific_test1() {
    let grid = parse_from_ascii(HARD);

    test_should_solve(grid);
}

#[test]
fn test_manual_specific_test2() {
    let grid = parse_from_ascii(
        r#"4 3 5 | 2 6 9 | . . 1
           6 8 2 | . 7 . | 4 9 3
           1 9 7 | 8 3 4 | 5 6 2
           ------|-------|------
           8 2 6 | . 9 . | 3 4 7
           3 7 4 | 6 8 2 | 9 1 5
           9 5 1 | 7 4 3 | 6 2 8
           ------|-------|------
           5 1 9 | 3 2 6 | . . 4
           2 4 8 | 9 5 7 | 1 3 6
           7 6 3 | 4 1 8 | 2 5 9"#,
    );

    test_should_solve(grid);
}

#[test]
fn test_1_square_missing() {
    let grid: &mut Grid = &mut filled_sudoku();

    clear_square(grid, 3, 3);

    test_should_solve(*grid);
}

#[test]
fn test_2_square_missing() {
    let grid: &mut Grid = &mut filled_sudoku();

    clear_square(grid, 3, 3);
    clear_square(grid, 0, 6);

    test_should_solve(*grid);
}

#[test]
fn test_3_square_missing() {
    let grid: &mut Grid = &mut filled_sudoku();

    clear_square(grid, 3, 3);
    clear_square(grid, 0, 6);
    clear_square(grid, 6, 0);

    test_should_solve(*grid);
}

#[test]
fn test_generator() {
    let mut generator = Generator::new_with_seed(77143266753986);
    let grid = generator.generate();

    println!("{}", ascii_grid(&grid));

    assert_eq!(grid.count_determined(), 81);
}

#[test]
fn single_missing_cell_is_solved() {
    let mut grid = filled_sudoku();
    grid.set_cell(0, &Cell::new());
    let solver = SolverManager::new();
    let simple = solver.solve_simple(&mut grid.clone());
    assert_eq!(simple.result, SolveResult::Solved);
    assert_eq!(simple.grid, filled_sudoku());
    let output = solver.solve(grid);
    assert_eq!(output.result, SolveResult::Solved);
    assert_eq!(output.grid, filled_sudoku());
}

#[test]
fn one_digit_erased_is_solved() {
    let mut grid = filled_sudoku();
    for index in 0..81 {
        if grid.get_cell(index).get_value() == 5 {
            grid.set_cell(index, &Cell::new());
        }
    }
    let output = SolverManager::new().solve(grid);
    assert_eq!(output.result, SolveResult::Solved);
    assert_eq!(output.grid, filled_sudoku());
}

#[test]
fn middle_box_erased_is_solved() {
    let mut grid = filled_sudoku();
    clear_square(&mut grid, 3, 3);
    let output = SolverManager::new().solve(grid);
    assert_eq!(output.result, SolveResult::Solved);
    assert_eq!(output.grid, filled_sudoku());
}

#[test]
fn thirty_cells_removed_with_a_seed_is_solved_in_fifty_rounds() {
    let mut by_deduction = 0;
    for seed in 0..20u64 {
        let mut generator = Generator::new_with_seed(seed);
        let mut grid = filled_sudoku();
        generator.remove_cells_amount(&mut grid, 30);
        assert_eq!(grid.count_determined(), 51);
        let solver = SolverManager::new();
        let output = solver.solve(grid);
        assert_eq!(output.result, SolveResult::Solved);
        assert!(is_valid(&output.grid));
        assert!(output.iterations <= 50);
        for index in 0..81 {
            if grid.get_cell(index).is_determined() {
                assert_eq!(grid.get_cell(index), output.grid.get_cell(index));
            }
        }
        // where deduction alone solves the puzzle it has one solution
        let simple = solver.solve_simple(&mut grid.clone());
        if simple.result == SolveResult::Solved {
            by_deduction += 1;
            assert_eq!(simple.grid, filled_sudoku());
            assert_eq!(output.grid, filled_sudoku());
            assert_eq!(output.iterations, simple.iterations);
        }
    }
    assert!(by_deduction > 0);
}

#[test]
fn hard_case_is_solved_with_a_seven_in_the_middle_row() {
    let output = SolverManager::new().solve(parse_from_ascii(HARD));
    assert_eq!(output.result, SolveResult::Solved);
    assert_eq!(output.grid.get_cell_at(Coord::new(4, 1)).get_value(), 7);
    assert!(is_valid(&output.grid));
    let given = parse_from_ascii(HARD);
    for index in 0..81 {
        if given.get_cell(index).is_determined() {
            assert_eq!(given.get_cell(index), output.grid.get_cell(index));
        }
    }
}

#[test]
fn two_fives_in_a_row_is_an_error_in_pre_solve() {
    let mut grid = Grid::new();
    grid.set_cell(0, &Cell::new_with_value(5));
    grid.set_cell(7, &Cell::new_with_value(5));
    let solver = SolverManager::new();
    let mut pre = grid;
    assert_eq!(solver.pre_solve(&mut pre), SolveResult::Error);
    let simple = solver.solve_simple(&mut grid.clone());
    assert_eq!(simple.result, SolveResult::Error);
    assert_eq!(simple.iterations, 0);
    let output = solver.solve(grid);
    assert_eq!(output.result, SolveResult::Error);
    assert_eq!(output.iterations, 0);

    let mut filled = filled_sudoku();
    filled.set_cell(0, &Cell::new_with_value(5));
    assert_eq!(solver.solve(filled).result, SolveResult::Error);
}

#[test]
fn nearly_empty_grid_is_solved() {
    let mut grid = Grid::new();
    grid.place_value(49, 9);
    let output = SolverManager::new().solve(grid);
    assert_eq!(output.result, SolveResult::Solved);
    assert!(is_valid(&output.grid));
    assert_eq!(output.grid.count_determined(), 81);
    assert_eq!(output.grid.get_cell(49).get_value(), 9);
}

#[test]
fn solve_round_and_budget() {
    let solver = SolverManager::new();
    assert_eq!(solver.config.max_iterations, 1000);
    assert_eq!(SolverManagerConfig::new().max_iterations, 1000);
    let mut grid = filled_sudoku();
    assert_eq!(solver.solve_round(&mut grid), SolveResult::Solved);
    let mut open = Grid::new();
    assert_eq!(solver.pre_solve(&mut open), SolveResult::Nothing);
    assert_eq!(solver.solve_round(&mut open), SolveResult::Nothing);
    assert_eq!(open, Grid::new());
    let stalled = solver.solve_simple(&mut Grid::new());
    assert_eq!(stalled.result, SolveResult::Nothing);
    assert_eq!(stalled.iterations, 1);

    // with a budget of one round the solve stops after its first round
    let short = SolverManager::new_with_config(SolverManagerConfig { max_iterations: 1 });
    let mut hard = parse_from_ascii(HARD);
    let result = short.solve_simple(&mut hard);
    assert_eq!(result.iterations, 1);
    assert_eq!(result.result, SolveResult::Updated);
    let full = short.solve(parse_from_ascii(HARD));
    assert_eq!(full.iterations, 1);
    assert_eq!(full.result, SolveResult::Updated);
}

#[test]
fn trials_remove_failing_candidates() {
    let solver = SolverManager::new();
    let mut grid = Grid::new();
    let first = solver.solve_simple(&mut grid);
    let mut live = first.grid;
    let result = solver.try_some_stuff(&mut live, first.iterations);
    assert_ne!(result.result, SolveResult::Error);
    assert!(result.iterations > first.iterations);
    assert!(result.grid.count_determined() >= 1);
}

#[test]
fn generator_is_deterministic_for_a_seed() {
    let mut a = Generator::new_with_seed(42);
    let mut b = Generator::new_with_seed(42);
    for _ in 0..3 {
        let ga = a.generate();
        let gb = b.generate();
        assert_eq!(ga, gb);
        assert!(is_valid(&ga));
        assert_eq!(ga.count_determined(), 81);
        let mut pa = ga;
        let mut pb = gb;
        a.remove_cells_amount(&mut pa, 40);
        b.remove_cells_amount(&mut pb, 40);
        assert_eq!(pa, pb);
        assert_eq!(pa.count_determined(), 41);
        a.remove_cells(&mut pa);
        b.remove_cells(&mut pb);
        assert_eq!(pa, pb);
    }
    let mut c = Generator::new(StdRng::seed_from_u64(42));
    assert_eq!(c.generate(), Generator::new_with_seed(42).generate());
    assert_eq!(c.solvers.config.max_iterations, 100);
}

#[test]
fn removing_more_cells_than_there_are_empties_the_grid() {
    let mut generator = Generator::new_with_seed(1);
    let mut grid = filled_sudoku();
    generator.remove_cells_amount(&mut grid, 100);
    assert_eq!(grid, Grid::new());
    assert!(determined_cells(&grid).is_empty());
    let mut one = filled_sudoku();
    generator.remove_cells_amount(&mut one, 0);
    assert_eq!(one, filled_sudoku());
    assert_eq!(determined_cells(&one).len(), 81);
}

#[test]
fn generator_try_and_fill() {
    let mut generator = Generator::new_with_seed(9);
    let mut made = 0;
    for _ in 0..50 {
        if let Some(grid) = generator.try_generate() {
            assert!(is_valid(&grid));
            assert_eq!(grid.count_determined(), 81);
            made += 1;
        }
    }
    assert!(made > 0);
    let mut full = filled_sudoku();
    assert_eq!(generator.settle(&mut full), SolveResult::Solved);
    assert_eq!(full, filled_sudoku());
    let mut twice = filled_sudoku();
    twice.set_cell(0, &Cell::new_with_value(9));
    assert_eq!(generator.settle(&mut twice), SolveResult::Error);
    let mut grid = Grid::new();
    let square = grid.get_square(0, 0);
    let result = generator.determine_area(&mut grid, &square);
    assert_ne!(result, SolveResult::Solved);
    if result != SolveResult::Error {
        for index in 0..9 {
            assert!(grid.get_cell_at(square.get_coord(index)).is_determined());
        }
    }
}

#[test]
fn fast_solver_solves_and_keeps_the_givens() {
    let mut solver = FastSolver::new_with_seed(85822788013146);
    assert_eq!(solver.solvers.config.max_iterations, 10);
    let mut generator = Generator::new_with_seed(77143266753986);
    for _ in 0..5 {
        let full = generator.generate();
        let mut puzzle = full;
        generator.remove_cells_amount(&mut puzzle, 45);
        let solved = solver.solve(&puzzle);
        assert!(is_valid(&solved));
        assert_eq!(solved.count_determined(), 81);
        for index in 0..81 {
            if puzzle.get_cell(index).is_determined() {
                assert_eq!(puzzle.get_cell(index), solved.get_cell(index));
            }
        }
    }
    let mut broken = Grid::new();
    broken.set_cell(0, &Cell::new_with_value(5));
    broken.set_cell(1, &Cell::new_with_value(5));
    let back = solver.solve(&broken);
    assert_eq!(back.get_cell(0).get_value(), 5);
    assert_eq!(back.get_cell(1).get_value(), 5);
    assert!(!is_valid(&back));
    let mut grid = filled_sudoku();
    assert_eq!(solver.check_solve(&mut grid), SolveResult::Solved);
}

#[test]
fn deduction_keeps_the_solution() {
    let full = filled_sudoku();
    for seed in 0..10u64 {
        let mut generator = Generator::new_with_seed(seed);
        let mut puzzle = full;
        generator.remove_cells_amount(&mut puzzle, 50);
        let result = SolverManager::new().solve_simple(&mut puzzle);
        assert_ne!(result.result, SolveResult::Error);
        for index in 0..81 {
            let cell = result.grid.get_cell(index);
            let digit = full.get_cell(index).get_value();
            if cell.is_determined() {
                assert_eq!(cell.get_value(), digit);
            } else {
                assert!(cell.is_possible(Mark::from_value(digit)));
            }
        }
    }
}

#[test]
fn one_trial_at_a_time() {
    let solver = SolverManager::new();
    let mut grid = filled_sudoku();
    grid.set_cell(0, &Cell::new_with_value(0x0480));
    let mut trials = Trials {
        best: grid,
        solved: 80,
        iterations: 1,
        errors: 0,
        tries: 0,
    };
    // the first cell does not offer the two
    assert!(solver.try_candidate(&mut grid, &mut trials, 1, 0).is_none());
    assert_eq!(trials.tries, 0);
    // it offers the one, which fails, and loses it
    assert!(solver.try_candidate(&mut grid, &mut trials, 0, 0).is_none());
    assert_eq!((trials.tries, trials.errors), (1, 1));
    assert_eq!(grid.get_cell(0).get_value(), 0x0400);
    // it offers the four, which solves the grid
    let found = solver.try_candidate(&mut grid, &mut trials, 3, 0).unwrap();
    assert_eq!(found.result, SolveResult::Solved);
    assert_eq!(found.grid, filled_sudoku());
    assert_eq!((trials.tries, trials.errors), (2, 1));
}

#[test]
fn filling_a_box_draws_a_digit_for_each_open_cell() {
    let mut rng = StdRng::seed_from_u64(3);
    // a box whose cells all hold a value: nothing is drawn
    let mut full = filled_sudoku();
    let square = full.get_square(3, 3);
    assert!(fill_area(&mut rng, &mut full, &square));
    assert_eq!(full, filled_sudoku());
    // a fresh box: nine digits, each once, and the candidates around follow
    let mut grid = Grid::new();
    let first = grid.get_square(0, 0);
    assert!(fill_area(&mut rng, &mut grid, &first));
    let mut seen = [false; 10];
    for index in 0..9 {
        let coord = first.get_coord(index);
        let cell = *grid.get_cell_at(coord);
        assert!(cell.is_determined());
        assert!(!seen[cell.get_value() as usize]);
        seen[cell.get_value() as usize] = true;
    }
    assert_eq!(grid.count_determined(), 9);
    let placed = grid.get_cell(0).get_value();
    assert!(!grid.get_cell(8).is_possible(Mark::from_value(placed)));
    assert!(!grid.get_cell(72).is_possible(Mark::from_value(placed)));
    // an open cell without candidate stops the filling where it stands
    let mut stuck = Grid::new();
    for digit in 1..=9 {
        stuck.unset_possible_at(Coord::new(0, 1), Mark::from_value(digit));
    }
    let before = stuck;
    assert!(!fill_area(&mut rng, &mut stuck, &first));
    assert_eq!(stuck.count_determined(), 1);
    assert!(stuck.get_cell(0).is_determined());
    assert_eq!(stuck.get_cell(1), before.get_cell(1));
    for index in 2..9 {
        assert!(!stuck.get_cell_at(first.get_coord(index)).is_determined());
    }
}

#[test]
fn a_full_grid_needs_no_guess() {
    let mut solver = FastSolver::new_with_seed(11);
    let full = filled_sudoku();
    assert_eq!(solver.solve_round(&full), Some(full));
    assert_eq!(solver.solvers.config.max_iterations, 10);
    let mut grid = full;
    let square = grid.get_square(6, 6);
    assert_eq!(solver.determine_area(&mut grid, square), SolveResult::Solved);
    assert_eq!(grid, full);
    // a full grid that holds a digit twice in an area is handed back by no round
    let mut twice = full;
    twice.set_cell(0, &Cell::new_with_value(9));
    assert_eq!(solver.solve_round(&twice), None);
    // an open cell without candidate ends a filling with an error
    let mut stuck = Grid::new();
    for digit in 1..=9 {
        stuck.unset_possible_at(Coord::new(0, 0), Mark::from_value(digit));
    }
    let before = stuck;
    let first = stuck.get_square(0, 0);
    assert_eq!(solver.determine_area(&mut stuck, first), SolveResult::Error);
    assert_eq!(stuck, before);
    let mut generator = Generator::new_with_seed(11);
    assert_eq!(generator.determine_area(&mut stuck, &first), SolveResult::Error);
    assert_eq!(stuck, before);
}

#[test]
fn removing_a_drawn_number_of_cells() {
    let full = filled_sudoku();
    for seed in 0..20u64 {
        let mut generator = Generator::new_with_seed(seed);
        let mut puzzle = full;
        generator.remove_cells(&mut puzzle);
        let left = puzzle.count_determined();
        assert!(left >= 2 && left <= 81);
        for index in 0..81 {
            let cell = puzzle.get_cell(index);
            assert!(cell == full.get_cell(index) || cell == &Cell::new());
        }
        assert_eq!(generator.solvers.config.max_iterations, 100);
        // from a grid with fewer values than were drawn, all go
        let mut sparse = Grid::new();
        sparse.set_cell(40, &Cell::new_with_value(5));
        generator.remove_cells(&mut sparse);
        assert!(sparse.count_determined() <= 1);
    }
}

/// The cells of the twenty-seven areas, by index.
fn all_areas() -> Vec<Vec<usize>> {
    let mut areas = Vec::new();
    for k in 0..9 {
        areas.push((0..9).map(|i| k * 9 + i).collect());
        areas.push((0..9).map(|i| i * 9 + k).collect());
        areas.push((0..9).map(|i| (k / 3 * 3 + i / 3) * 9 + k % 3 * 3 + i % 3).collect());
    }
    areas
}

/// Every digit is held once in every area or offered there.
fn every_digit_has_a_place(grid: &Grid) -> bool {
    all_areas().iter().all(|area| {
        (1..=9u16).all(|digit| {
            let held = area.iter().filter(|&&i| grid.get_cell(i).get_value() & 0x000F == digit);
            let offered =
                area.iter().any(|&i| grid.get_cell(i).is_possible(Mark::from_value(digit)));
            held.count() == 1 || offered
        })
    })
}

/// Every value is a bare digit.
fn is_canonical(grid: &Grid) -> bool {
    (0..81).all(|i| {
        let word = grid.get_cell(i).get_value();
        word & 0x000F == 0 || (1..=9).contains(&word)
    })
}

#[test]
fn a_grid_left_without_a_place_for_a_digit_is_an_error() {
    // the first cell can only be a one, and the second box needs its one
    // in the first row
    let mut grid = Grid::new();
    grid.set_cell(0, &Cell::new_with_possible(Mark::N1));
    for row in 1..3 {
        for col in 3..6 {
            grid.unset_possible_at(Coord::new(row, col), Mark::N1);
        }
    }
    let solver = SolverManager::new();
    let mut start = grid;
    assert_eq!(solver.pre_solve(&mut start), SolveResult::Nothing);
    assert!(is_valid(&start));
    let result = solver.solve_simple(&mut grid);
    assert_eq!(result.result, SolveResult::Error);
    assert_eq!(result.grid.get_cell(0).get_value(), 1);
    assert!(!is_valid(&result.grid));
    assert!(!every_digit_has_a_place(&result.grid));
    assert!(is_canonical(&result.grid));
    assert_eq!(solver.solve(start).result, SolveResult::Error);
}

#[test]
fn every_digit_has_a_place_after_a_solve() {
    let solver = SolverManager::new();
    let mut hard = parse_from_ascii(HARD);
    let simple = solver.solve_simple(&mut hard);
    assert_ne!(simple.result, SolveResult::Error);
    assert!(is_valid(&simple.grid));
    assert!(every_digit_has_a_place(&simple.grid));
    assert!(is_canonical(&simple.grid));
    for seed in 0..10u64 {
        let mut generator = Generator::new_with_seed(seed);
        let mut puzzle = filled_sudoku();
        generator.remove_cells_amount(&mut puzzle, 55);
        for budget in [1usize, 2, 1000] {
            let short = SolverManagerConfig { max_iterations: budget };
            let result = SolverManager::new_with_config(short).solve(puzzle);
            assert_ne!(result.result, SolveResult::Error);
            assert!(is_valid(&result.grid));
            assert!(every_digit_has_a_place(&result.grid));
            assert!(is_canonical(&result.grid));
        }
    }
}

#[test]
fn values_are_bare_digits_whatever_comes_out() {
    let solver = SolverManager::new();
    let mut twice = Grid::new();
    twice.set_cell(0, &Cell::new_with_value(0x0485));
    twice.set_cell(1, &Cell::new_with_value(5));
    let before = twice;
    let result = solver.solve(twice);
    assert_eq!(result.result, SolveResult::Error);
    assert!(is_canonical(&result.grid));
    assert_eq!(result.grid.get_cell(0).get_value(), 5);
    for index in 0..81 {
        let was = before.get_cell(index).get_value();
        let is = result.grid.get_cell(index).get_value();
        assert_eq!((is & 0xFFF0) & !was, 0);
        if was & 0x000F != 0 {
            assert_eq!(is & 0x000F, was & 0x000F);
        }
    }
}
