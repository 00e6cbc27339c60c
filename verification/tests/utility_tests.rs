use rand::Rng;
use sudoku_solver_lib::grid::cell::Cell;
use sudoku_solver_lib::grid::cell_collection::CellCollection;
use sudoku_solver_lib::grid::coords::Coord;
use sudoku_solver_lib::grid::grid::Grid;
use sudoku_solver_lib::grid::square::Square;
use sudoku_solver_lib::grid::test_util::test_util;
use sudoku_solver_lib::grid::utility::utility::{
    ascii_grid, ascii_square, filled_sudoku, from_digit, grid_from_hex, grid_from_hex_value,
    hex_grid, hex_value_grid, parse_from_ascii, to_digits,
};

const FILLED: &str = "435269781682571493197834562826195347374682915951743628519326874248957136763418259";

fn remove_cells_amount(grid: &mut Grid, amount: usize) {
    let mut rng = rand::thread_rng();
    let mut removed = 0;

    while removed < amount {
        let index = rng.gen_range(0..grid.max());
        let cell = &grid.get_cell(index);

        if cell.is_determined() {
            grid.set_cell(index, &Cell::new());
            removed += 1;
        }
    }
}

#[test]
fn utility_test_filled_sudoku() {
    let grid = filled_sudoku();

    assert_eq!(grid.get_cell(0).get_value(), 4);
    assert_eq!(grid.get_cell(80).get_value(), 9);
}

#[test]
fn test_util_test_filled_sudoku() {
    let grid = test_util::filled_sudoku();

    for row in 0..9 {
        for col in 0..9 {
            let coord = Coord::new(row, col);
            let cell = grid.get_cell_at(coord);

            assert!(cell.is_determined());
        }
    }
}

#[test]
fn util_test_filled_sudoku() {
    let grid = parse_from_ascii(
        "4 3 5 | 2 6 9 | 7 8 1\n\
         6 8 2 | 5 7 1 | 4 9 3\n\
         1 9 7 | 8 3 4 | 5 6 2\n\
         ------|-------|------\n\
         8 2 6 | 1 9 5 | 3 4 7\n\
         3 7 4 | 6 8 2 | 9 1 5\n\
         9 5 1 | 7 4 3 | 6 2 8\n\
         ------|-------|------\n\
         5 1 9 | 3 2 6 | 8 7 4\n\
         2 4 8 | 9 5 7 | 1 3 6\n\
         7 6 3 | 4 1 8 | 2 5 9",
    );

    for row in 0..9 {
        for col in 0..9 {
            let coord = Coord::new(row, col);
            let cell = grid.get_cell_at(coord);

            assert!(cell.is_determined());
        }
    }
    assert_eq!(grid, filled_sudoku());
}

#[test]
fn test_hex_grid() {
    let grid = &mut filled_sudoku();
    let hex = hex_grid(&grid);
    let grid2 = &grid_from_hex(&hex);

    assert_eq!(grid, grid2);

    remove_cells_amount(grid, 16);
    let hex = hex_grid(&grid);
    let grid2 = &grid_from_hex(&hex);

    assert_eq!(grid, grid2);
}

#[test]
fn test_ascii_grid() {
    let grid = &mut filled_sudoku();
    let ascii = ascii_grid(&grid);
    let grid2 = &mut parse_from_ascii(&ascii);

    assert_eq!(grid, grid2);
}

#[test]
fn test_specific_parse_test() {
    let grid = &mut parse_from_ascii(
        r#"4 3 5 | 2 6 9 | . . .
           6 8 2 | . 7 . | 4 9 3
           1 9 7 | 8 3 4 | 5 . .
           ------|-------|------
           8 2 6 | . 9 . | 3 4 7
           3 7 4 | 6 8 2 | 9 1 5
           9 5 1 | 7 4 3 | 6 . .
           ------|-------|------
           5 1 9 | 3 2 6 | . . 4
           2 4 8 | 9 5 7 | . . .
           7 6 3 | 4 1 8 | 2 5 9"#,
    );

    println!("{}", ascii_grid(grid));

    assert_eq!(grid.get_cell(0).get_value(), 4);
    assert_eq!(grid.get_cell(80).get_value(), 9);

    assert_eq!(grid.get_cell(6).is_determined(), false);
}

#[test]
fn ascii_grid_exact_text() {
    let mut grid = filled_sudoku();
    grid.set_cell(0, &Cell::new());
    grid.set_cell(40, &Cell::new_empty());
    let expected = ". 3 5 | 2 6 9 | 7 8 1 \n\
                    6 8 2 | 5 7 1 | 4 9 3 \n\
                    1 9 7 | 8 3 4 | 5 6 2 \n\
                    ------|-------|------\n\
                    8 2 6 | 1 9 5 | 3 4 7 \n\
                    3 7 4 | 6 . 2 | 9 1 5 \n\
                    9 5 1 | 7 4 3 | 6 2 8 \n\
                    ------|-------|------\n\
                    5 1 9 | 3 2 6 | 8 7 4 \n\
                    2 4 8 | 9 5 7 | 1 3 6 \n\
                    7 6 3 | 4 1 8 | 2 5 9 \n";
    assert_eq!(ascii_grid(&grid), expected);
    assert_eq!(test_util::ascii_grid(&grid), expected);
    assert_eq!(ascii_square(&grid, &Square::new(3, 3)), "1 9 5 \n6 . 2 \n7 4 3 \n");
    let mut odd = Grid::new();
    odd.set_cell(0, &Cell::new_with_value(0x0085));
    assert!(ascii_grid(&odd).starts_with("133 . . | "));
}

#[test]
fn parse_is_tolerant() {
    let a = parse_from_ascii("53..7....\n6..195...\n.98....6.");
    let b = parse_from_ascii("5 3 0 | 0 7 0 | 0 0 0 xx\n6 . . | 1 9 5 | . . .\n------\n. 9 8 | . . . | . 6 .");
    assert_eq!(a, b);
    assert_eq!(a.get_cell(0).get_value(), 5);
    assert_eq!(a.get_cell(12).get_value(), 1);
    assert_eq!(a.get_cell(2).get_value(), 0x0580);
    let long = parse_from_ascii(&format!("{}123456789", FILLED));
    assert_eq!(long, filled_sudoku());
    assert_eq!(parse_from_ascii(""), Grid::new());
}

#[test]
fn plain_parse_sets_cells_as_they_stand() {
    let grid = test_util::parse_from_ascii("5 . 3 0");
    assert_eq!(grid.get_cell(0).get_value(), 5);
    assert_eq!(grid.get_cell(1).get_value(), 0xFF80);
    assert_eq!(grid.get_cell(2).get_value(), 3);
    assert_eq!(grid.get_cell(3).get_value(), 0xFF80);
    assert_eq!(grid.get_cell(4).get_value(), 0xFF80);
    assert_eq!(test_util::filled_sudoku(), filled_sudoku());
}

#[test]
fn hex_exact_text_and_round_trip() {
    let mut grid = Grid::new();
    grid.set_cell(0, &Cell::new_with_value(0x1a2b));
    grid.set_cell(80, &Cell::new_with_value(9));
    let hex = hex_grid(&grid);
    assert_eq!(hex.len(), 324);
    assert!(hex.starts_with("1a2bff80ff80"));
    assert!(hex.ends_with("ff800009"));
    assert_eq!(grid_from_hex(&hex), grid);
    assert_eq!(grid_from_hex(&hex.to_uppercase()), grid);
    let short = grid_from_hex("00050");
    assert_eq!(short.get_cell(0).get_value(), 5);
    assert_eq!(short.get_cell(1).get_value(), 0xFF80);
}

#[test]
fn one_character_forms() {
    let mut grid = filled_sudoku();
    grid.set_cell(1, &Cell::new());
    grid.set_cell(2, &Cell::new_with_value(0x008C));
    let text = hex_value_grid(&grid);
    assert_eq!(&text[0..4], "40<2");
    assert_eq!(text.len(), 81);
    let back = grid_from_hex_value(&text);
    assert_eq!(back.get_cell(0).get_value(), 4);
    assert_eq!(back.get_cell(1).get_value(), 0);
    assert_eq!(back.get_cell(2).get_value(), 12);

    let filled = filled_sudoku();
    assert_eq!(to_digits(&filled), FILLED);
    assert_eq!(from_digit(FILLED), filled);
    let mut open = filled;
    open.set_cell(5, &Cell::new());
    assert_eq!(&to_digits(&open)[0..9], "435260781");
    let placed = from_digit("400000000");
    assert_eq!(placed.get_cell(0).get_value(), 4);
    assert_eq!(placed.get_cell(1).get_value(), 0xFF80 & !0x0400);
    assert_eq!(placed.get_cell(80).get_value(), 0xFF80);
}

#[test]
fn hex_group_may_begin_with_a_plus_sign() {
    let grid = grid_from_hex("+1AF0005+0f0");
    assert_eq!(grid.get_cell(0).get_value(), 0x01AF);
    assert_eq!(grid.get_cell(1).get_value(), 0x0005);
    assert_eq!(grid.get_cell(2).get_value(), 0x00F0);
    assert_eq!(grid.get_cell(3).get_value(), 0xFF80);
    assert_eq!(grid, grid_from_hex("01af000500F0"));
}

#[test]
fn one_character_form_reads_any_character_from_zero_on() {
    let grid = grid_from_hex_value("0A9?z");
    assert_eq!(grid.get_cell(0).get_value(), 0);
    assert_eq!(grid.get_cell(1).get_value(), 17);
    assert_eq!(grid.get_cell(2).get_value(), 9);
    assert_eq!(grid.get_cell(3).get_value(), 15);
    assert_eq!(grid.get_cell(4).get_value(), 74);
    assert_eq!(grid.get_cell(5).get_value(), 0xFF80);
}

#[test]
fn hex_text_may_end_in_anything() {
    let grid = grid_from_hex("0005zz!");
    assert_eq!(grid.get_cell(0).get_value(), 5);
    assert_eq!(grid.get_cell(1).get_value(), 0xFF80);
    let full = hex_grid(&filled_sudoku());
    let long = format!("{}{}", full, "xyz, and more");
    assert_eq!(grid_from_hex(&long), filled_sudoku());
    assert_eq!(grid_from_hex("+-"), Grid::new());
}
