use sudoku_solver_lib::data::datapoint::DataPoint;
use sudoku_solver_lib::data::grid::{CellOutput, GridInput, GridOutput, Possible};
use sudoku_solver_lib::grid::cell::Cell;
use sudoku_solver_lib::grid::grid::Grid;
use sudoku_solver_lib::grid::mark::Mark;
use sudoku_solver_lib::grid::row::Row;
use sudoku_solver_lib::grid::slice::SliceValue;
use sudoku_solver_lib::grid::utility::utility::filled_sudoku;
use sudoku_solver_lib::solvers::solver::{AnnotatedSolverResult, SolveResult};
use sudoku_solver_lib::solvers::solver_manager::SolverManager;
use sudoku_solver_lib::sudoku::cells::Cell as PageCell;
use sudoku_solver_lib::utils::env::{str_to_bool, str_to_u32};

fn point(base: usize) -> DataPoint {
    DataPoint {
        updated: base,
        solved: base + 1,
        error: base + 2,
        nothing: base + 3,
        solve_time: base as u128 + 4,
        solve_time_per: base as u128 + 5,
        generation_time: base as u128 + 6,
        generation_time_per: base as u128 + 7,
        size: base + 8,
        iterations: base + 9,
    }
}

#[test]
fn datapoint_csv() {
    assert_eq!(DataPoint::empty().to_csv(), "0,0,0,0,0,0,0,0,0,0");
    assert_eq!(point(10).to_csv(), "18,16,14,17,15,19,11,13,12,10");
    let mut big = DataPoint::empty();
    big.solve_time = u128::MAX;
    big.size = 1234567;
    assert_eq!(
        big.to_csv(),
        "1234567,0,340282366920938463463374607431768211455,0,0,0,0,0,0,0"
    );
    assert_eq!(
        DataPoint::csv_headers(),
        "size,generation_time,solve_time,generation_time_per,solve_time_per,iterations,solved,nothing,error,updated"
    );
}

#[test]
fn datapoint_avg_rounds_down() {
    let mean = DataPoint::avg(vec![point(0), point(10), point(21)]);
    assert_eq!(mean.to_csv(), "18,16,14,17,15,19,11,13,12,10");
    let one = DataPoint::avg(vec![point(7)]);
    assert_eq!(one.to_csv(), point(7).to_csv());
}

#[test]
fn grid_input_to_grid() {
    let mut cells = vec![0; 81];
    cells[0] = 5;
    cells[80] = 9;
    cells[40] = -1;
    let input = GridInput { cells };
    assert!(input.is_valid());
    let grid = input.to_grid();
    assert_eq!(grid.get_cell(0).get_value(), 5);
    assert_eq!(grid.get_cell(1).get_value(), 0xFF80);
    assert_eq!(grid.get_cell(40).get_value(), 0xFFFF);
    assert_eq!(grid.get_cell(80).get_value(), 9);
    let short = GridInput { cells: vec![3, 0] };
    assert!(!short.is_valid());
    assert_eq!(short.to_grid().get_cell(0).get_value(), 3);
    assert_eq!(short.to_grid().get_cell(2).get_value(), 0xFF80);
    let long = GridInput { cells: vec![1; 100] };
    assert!(!long.is_valid());
    assert_eq!(long.to_grid().get_cell(80).get_value(), 1);
}

#[test]
fn grid_input_is_solved_through_the_driver() {
    let mut cells: Vec<i32> = (0..81)
        .map(|i| filled_sudoku().get_cell(i).get_value() as i32)
        .collect();
    cells[0] = 0;
    cells[44] = 0;
    let result = SolverManager::new().solve(GridInput { cells }.to_grid());
    let output = GridOutput::from_grid(result);
    assert_eq!(output.result, 2);
    assert_eq!(output.cells.len(), 81);
    assert_eq!(output.cells[0].value, 4);
    assert!(!output.cells[0].possible.p4);
}

#[test]
fn grid_output_of_a_result() {
    let mut grid = Grid::new();
    grid.set_cell(3, &Cell::new_with_value(7));
    grid.unset_possible(4, Mark::N2);
    let output = GridOutput::from_grid(AnnotatedSolverResult {
        result: SolveResult::Error,
        grid,
        iterations: 12,
    });
    assert_eq!(output.iterations, 12);
    assert_eq!(output.result, 3);
    assert_eq!(output.cells[3].value, 7);
    assert!(!output.cells[3].possible.p7);
    assert_eq!(output.cells[4].value, 0x80);
    assert!(output.cells[4].possible.p1);
    assert!(!output.cells[4].possible.p2);
    assert!(output.cells[4].possible.p9);
    let cell = CellOutput::from_cell(&Cell::new_with_possible(Mark::N3));
    assert_eq!(cell.value, 0);
    assert!(cell.possible.p3);
    assert!(!cell.possible.p4);
    let possible = Possible::from_cell(&Cell::new());
    assert!(possible.p1 && possible.p5 && possible.p9);
}

#[test]
fn env_values() {
    assert!(str_to_bool("true".to_string()));
    assert!(!str_to_bool("false".to_string()));
    assert_eq!(str_to_u32("0".to_string()), 0);
    assert_eq!(str_to_u32("8080".to_string()), 8080);
    assert_eq!(str_to_u32("0042".to_string()), 42);
    assert_eq!(str_to_u32("4294967295".to_string()), u32::MAX);
    assert_eq!(str_to_u32("+8080".to_string()), 8080);
    assert_eq!(str_to_u32("+0".to_string()), 0);
    assert_eq!(str_to_u32("+4294967295".to_string()), u32::MAX);
}

#[test]
fn small_conversions() {
    assert_eq!(Mark::N1 << 1, Mark::N2);
    assert_eq!(Mark::N3 << 6, Mark::N9);
    assert_eq!(Mark::N5 << 0, Mark::N5);
    assert_eq!(Row::from(4), Row::new(4));
    let mut a = SliceValue::new();
    a.items[0] = 1;
    let mut b = SliceValue::new();
    b.items[0] = 6;
    b.items[8] = 2;
    assert_eq!((a | b).items, [7, 0, 0, 0, 0, 0, 0, 0, 2]);
}

#[test]
pub fn test_solve() {
    let input = vec![
        0, 0, 0, 0, 0, 0, 0, 0, 0, 0, 0, 0, 0, 0, 0, 0, 0, 0, 0, 0, 0, 0, 0, 0, 0, 0, 0, 0, 0,
        0, 0, 0, 0, 0, 0, 0, 0, 0, 0, 0, 0, 0, 0, 0, 0, 0, 0, 0, 0, 9, 0, 0, 0, 0, 0, 0, 0, 0,
        0, 0, 0, 0, 0, 0, 0, 0, 0, 0, 0, 0, 0, 0, 0, 0, 0, 0, 0, 0, 0, 0, 0,
    ];

    let output = sudoku_solver_lib::sudoku::solve(input);

    for c in output.iter() {
        println!("{:?}", c);
        assert_ne!(c.value, 0);
    }
}

#[test]
pub fn page_cells() {
    let cells = sudoku_solver_lib::sudoku::new_grid();
    assert_eq!(cells.len(), 81);
    assert_eq!(cells[40].value, 0);
    assert!(cells[40].possibilities.p1 && cells[40].possibilities.p9);

    let mut input = vec![0; 81];
    input[0] = 5;
    let once = sudoku_solver_lib::sudoku::solve_once(input.clone());
    assert_eq!(once[0].value, 5);
    assert_eq!(once[1].value, 0);
    assert!(!once[1].possibilities.p5);
    assert!(once[1].possibilities.p4);
    assert!(once[80].possibilities.p5);

    let grid = PageCell::to_sudoku_grid(input);
    assert_eq!(grid.get_cell(0).get_value(), 5);
    assert_eq!(grid.get_cell(1).get_value(), 0xFF80 & !0x0800);
    let shown = PageCell::from_grid(grid);
    assert_eq!(shown[0].value, 5);
    assert!(shown[0].possibilities.p5);
    assert_eq!(shown[0].to_sudoku().get_value(), 5);
    assert_eq!(shown[1].to_sudoku().get_value(), 0xFF80 & !0x0800);
    assert_eq!(PageCell::new().to_sudoku().get_value(), 0xFF80);
    let back = PageCell::from_sudoku(&Cell::new_with_value(0x0300));
    assert_eq!(back.value, 0);
    assert!(back.possibilities.p2 && back.possibilities.p3 && !back.possibilities.p4);

    let full = sudoku_solver_lib::sudoku::generate_with(0, 7);
    assert!(full.iter().all(|c| c.value != 0));
    let again = sudoku_solver_lib::sudoku::generate_with(0, 7);
    assert!(full.iter().zip(again.iter()).all(|(a, b)| a.value == b.value));
    let puzzle = sudoku_solver_lib::sudoku::generate_with(30, -7);
    assert_eq!(puzzle.iter().filter(|c| c.value == 0).count(), 30);
}

#[test]
fn generated_puzzle_is_the_full_grid_less_the_removed_cells() {
    let full = sudoku_solver_lib::sudoku::generate_with(0, 11);
    let puzzle = sudoku_solver_lib::sudoku::generate_with(40, 11);
    assert_eq!(full.len(), 81);
    assert_eq!(puzzle.len(), 81);
    for row in 0..9 {
        let mut seen = [false; 10];
        for col in 0..9 {
            let value = full[row * 9 + col].value as usize;
            assert!(1 <= value && value <= 9 && !seen[value]);
            seen[value] = true;
        }
    }
    let mut open = 0;
    for (shown, whole) in puzzle.iter().zip(full.iter()) {
        if shown.value == 0 {
            open += 1;
            let p = &shown.possibilities;
            assert!(p.p1 && p.p2 && p.p3 && p.p4 && p.p5 && p.p6 && p.p7 && p.p8 && p.p9);
        } else {
            assert_eq!(shown.value, whole.value);
        }
    }
    assert_eq!(open, 40);
    let all = sudoku_solver_lib::sudoku::generate_with(200, 11);
    assert!(all.iter().all(|c| c.value == 0));
}
