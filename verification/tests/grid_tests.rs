use std::mem::size_of_val;
use sudoku_solver_lib::grid::cell::Cell;
use sudoku_solver_lib::grid::cell_collection::CellCollection;
use sudoku_solver_lib::grid::column::Column;
use sudoku_solver_lib::grid::coords::Coord;
use sudoku_solver_lib::grid::grid::Grid;
use sudoku_solver_lib::grid::grid_mask::{
    get_influence_mask, get_set_possible_mask, get_set_possible_mask_for_value,
    get_unset_influence_mask, get_unset_possible_mask, get_unset_possible_mask_for_value,
    shares_area,
};
use sudoku_solver_lib::grid::mark::Mark;
use sudoku_solver_lib::grid::queries::{count_determine_value, count_determined, count_possible};
use sudoku_solver_lib::grid::row::Row;
use sudoku_solver_lib::grid::square::Square;
use sudoku_solver_lib::grid::utility::utility::filled_sudoku;

#[test]
fn output_gridsize_obj() {
    let grid = Grid::new();

    println!("Grid object size: {}", size_of_val(&grid));
}

#[test]
fn cell_same_at_index() {
    let grid = filled_sudoku();

    let index = 64;
    let coord = grid.get_coord(index);

    assert_eq!(grid.get_cell(index), grid.get_cell_at(coord));
}

#[test]
fn cell_get_set() {
    let mut grid = filled_sudoku();
    let index: usize = 64;
    let mut c = Cell::new_with_value(9);
    c.set_possible(Mark::N3);
    c.set_possible(Mark::N4);

    grid.set_cell(index, &c);
    let t = grid.get_cell(index);

    assert_eq!(t, &c);
}

#[test]
fn get_row() {
    for row_index in 0..9 {
        let grid = filled_sudoku();
        let row = Row::new(row_index);

        for col_index in 0..9 {
            let coord = row.get_coord(col_index);
            let cell = grid.get_cell_at(coord);

            let row_cell = grid.get_cell_at(coord);

            assert_eq!(cell, row_cell);
            assert_eq!(coord.get_row(), row_index);
        }
    }
}

#[test]
fn get_column() {
    for col_index in 0..9 {
        let grid = filled_sudoku();
        let column = Column::new(col_index);

        for row_index in 0..9 {
            let coord = column.get_coord(row_index);
            let cell = grid.get_cell_at(coord);

            let column_cell = grid.get_cell_at(coord);
            assert_eq!(cell, column_cell);
            assert_eq!(coord.get_col(), col_index);
        }
    }
}

#[test]
fn place() {
    let mut grid = Grid::new();

    let index = 64;
    let coord = grid.get_coord(index);

    println!("placing at: {:?} -> {}", coord, 9);
    grid.place_value_at(coord, 9);

    assert_eq!(grid.get_cell_at(coord).get_value(), 9);

    //Check row
    for col in 0..9 {
        let at = Coord::new(coord.get_row(), col);
        if at == coord {
            continue;
        }

        let c = grid.get_cell_at(at);
        assert_eq!(c.is_possible(Mark::N9), false);
    }

    //Check column
    for row in 0..9 {
        let at = Coord::new(row, coord.get_col());
        if at == coord {
            continue;
        }

        let c = grid.get_cell_at(at);
        assert_eq!(c.is_possible(Mark::N9), false);
    }

    //Check square
    let square = grid.get_square_at(coord);
    for c in CellCollection::iter(&square) {
        let at = square.get_coord(c);
        if at == coord {
            continue;
        }

        let c = grid.get_cell_at(at);
        assert_eq!(c.is_possible(Mark::N9), false);
    }
}

#[test]
fn place_touches_peers_only() {
    let mut grid = Grid::new();
    grid.place_value(40, 5);
    let mut peers = 0;
    for index in 0..81 {
        let word = grid.get_cell(index).get_value();
        if index == 40 {
            assert_eq!(word, 5);
        } else if shares_area(index, 40) {
            peers += 1;
            assert_eq!(word, 0xFF80 & !0x0800);
        } else {
            assert_eq!(word, 0xFF80);
        }
    }
    assert_eq!(peers, 20);
    assert_eq!(grid.count_determined(), 1);
}

#[test]
fn place_over_any_layout_gives_the_bare_digit() {
    let mut grid = Grid::new();
    grid.set_cell(10, &Cell::new_with_value(0xFFFF));
    grid.place_value(10, 3);
    assert_eq!(grid.get_cell(10).get_value(), 3);
}

#[test]
fn masks() {
    let coord = Coord::new(4, 4);
    let influence = get_influence_mask(coord);
    let unset = get_unset_influence_mask(coord, 2);
    for index in 0..81 {
        let near = index / 9 == 4 || index % 9 == 4 || (index / 27 == 1 && (index % 9) / 3 == 1);
        assert_eq!(influence.get_cell(index).get_value(), if near { 0xFFFF } else { 0 });
        let expected = if index == 40 {
            0x007F
        } else if near {
            !0x0100u16
        } else {
            0xFFFF
        };
        assert_eq!(unset.get_cell(index).get_value(), expected);
    }
    assert_eq!(get_unset_possible_mask(Mark::N1).get_cell(80).get_value(), 0xFF7F);
    assert_eq!(get_unset_possible_mask_for_value(9).get_cell(0).get_value(), 0x7FFF);
    assert_eq!(get_set_possible_mask(Mark::N1).get_cell(80).get_value(), 0x0080);
    assert_eq!(get_set_possible_mask_for_value(9).get_cell(0).get_value(), 0x8000);
}

#[test]
fn grid_candidates_and_areas() {
    let mut grid = Grid::new();
    assert_eq!(grid, Grid::default());
    assert_eq!(Grid::empty().get_cell(3).get_value(), 0);
    grid.unset_possible(5, Mark::N2);
    assert!(!grid.is_possible(5, Mark::N2));
    assert!(grid.is_possible(5, Mark::N3));
    grid.set_possible_at(Coord::from_index(5), Mark::N2);
    assert!(grid.is_possible_at(Coord::from_index(5), Mark::N2));
    grid.unset_possible_at(Coord::from_index(5), Mark::N2);
    assert!(!grid.is_possible_at(Coord::from_index(5), Mark::N2));
    grid.set_cell_at(Coord::from_index(6), &Cell::new_with_value(4));
    grid.set_possible(6, Mark::N1);
    assert_eq!(grid.get_cell(6).get_value(), 4);

    grid.mark_off_row(8, Mark::N7);
    assert_eq!(count_possible(&grid, Row::new(8), Mark::N7), 0);
    assert_eq!(count_possible(&grid, Row::new(7), Mark::N7), 9);
    grid.mark_off_column(0, Mark::N7);
    assert_eq!(count_possible(&grid, Column::new(0), Mark::N7), 0);
    grid.mark_off_square(&Square::new(3, 3), Mark::N7);
    assert_eq!(count_possible(&grid, Square::new(3, 3), Mark::N7), 0);
    assert_eq!(count_possible(&grid, Square::new(3, 6), Mark::N7), 9);

    grid.set_cell_area(&Row::new(2), &Cell::new_with_value(1));
    assert_eq!(count_determined(&grid, Row::new(2)), 9);
    assert_eq!(count_determine_value(&grid, Row::new(2), 1), 9);
    assert_eq!(count_determine_value(&grid, Column::new(4), 1), 1);

    let mut copy = Grid::empty();
    grid.clone_to(&mut copy);
    assert_eq!(copy, grid);
    assert_eq!(grid.iter_rows().len(), 9);
    assert_eq!(grid.iter_columns().len(), 9);
    assert_eq!(grid.iter_squares().len(), 9);
    assert_eq!(grid.get_square_at(Coord::new(5, 5)), Square::new(3, 3));
    assert_eq!(CellCollection::max(&grid), 81);
}
