use sudoku_solver_lib::grid::cell_collection::CellCollection;
use sudoku_solver_lib::grid::column::Column;
use sudoku_solver_lib::grid::coords::Coord;
use sudoku_solver_lib::grid::row::Row;
use sudoku_solver_lib::grid::square::Square;
use sudoku_solver_lib::grid::utility::utility::filled_sudoku;

#[test]
fn row_test_coords() {
    for row_index in 0..9 {
        let row = Row::new(row_index);

        for col_index in 0..9 {
            let coord = row.get_coord(col_index);
            assert_eq!(coord.get_row(), row_index);
            assert_eq!(coord.get_col(), col_index);
        }
    }
}

#[test]
fn test_row_iter_coords() {
    for row_index in 0..9 {
        let row = Row::new(row_index);

        for c in row.iter() {
            let coord = row.get_coord(c);
            assert_eq!(coord.get_row(), row_index, "coord: {:?}", coord);
        }
    }
}

#[test]
fn test_row_iter_cells() {
    for row_index in 0..9 {
        let row = Row::new(row_index);

        for index in row.iter() {
            let coord = row.get_coord(index);
            assert_eq!(
                coord.get_row(),
                row_index,
                "index: {}, coord: {:?}",
                index,
                coord
            );
        }
    }
}

#[test]
fn column_test_coords() {
    for col_index in 0..9 {
        let row = Column::new(col_index);

        for row_index in 0..9 {
            let coord = row.get_coord(row_index);
            assert_eq!(coord.get_row(), row_index);
            assert_eq!(coord.get_col(), col_index);
        }
    }
}

#[test]
fn test_column_iter_coords() {
    for c in 0..9 {
        let column = Column::new(c);

        for index in column.iter() {
            let coord = column.get_coord(index);
            assert_eq!(coord.get_col(), c);
        }
    }
}

#[test]
fn test_column_iter_cells() {
    for c in 0..9 {
        let column = Column::new(c);

        for index in column.iter() {
            let coord = column.get_coord(index);
            assert_eq!(coord.get_col(), c);
        }
    }
}

#[test]
fn test_iter_coords() {
    for (i, coord) in Square::iter_coords().into_iter().enumerate() {
        println!("{}: {:?} -> {}", i, coord, coord.get_index());
    }
}

#[test]
fn test_square_iter_coords() {
    let grid = filled_sudoku();

    for row in 0..9 {
        for col in 0..9 {
            let square = grid.get_square(row, col);

            for index in CellCollection::iter(&square) {
                let c = square.get_coord(index);
                assert!(square.is_coord_in_square(c));

                //is coord within the square
                assert!(c.get_row() >= square.row && c.get_row() < square.row + 3);
                assert!(c.get_col() >= square.col && c.get_col() < square.col + 3);
            }
        }
    }
}

#[test]
fn test_iter_square() {
    for sqr in Square::iter_squares() {
        assert_eq!(sqr.row % 3, 0);
        assert_eq!(sqr.col % 3, 0);
    }
}

#[test]
fn test_from_index() {
    for i in 0..9 {
        let square = Square::from_square_index(i);
        assert_eq!(square.row, i / 3 * 3);
        assert_eq!(square.col, i % 3 * 3);

        let j = square.to_square_index();
        assert_eq!(i, j);
    }
}

#[test]
fn area_sizes_and_lists() {
    assert_eq!(Row::max(), 9);
    assert_eq!(CellCollection::max(&Row::new(3)), 9);
    assert_eq!(CellCollection::max(&Column::new(3)), 9);
    assert_eq!(CellCollection::max(&Square::new(3, 3)), 9);
    assert_eq!(Row::iter_row().len(), 9);
    assert_eq!(Row::iter_row()[4].row_index(), 4);
    assert_eq!(Column::iter_col()[7].col_index(), 7);
    assert_eq!(Square::iter(), 0..9);
    assert_eq!(Square::iter_coords()[4], Coord::new(3, 3));
    assert_eq!(Square::iter_squares()[5], Square::new(3, 6));
    assert_eq!(Square::default(), Square::new(0, 0));
}

#[test]
fn square_geometry() {
    let square = Square::from(4, 7);
    assert_eq!(square, Square::new(3, 6));
    assert_eq!(Row::new(4).get_square(7), square);
    assert_eq!(Column::new(7).get_square(4), square);
    assert_eq!(square.get_coord_start(), Coord::new(3, 6));
    assert_eq!(square.get_coord_at(2, 1), Coord::new(5, 7));
    assert_eq!(square.get_coord(5), Coord::new(4, 8));
    assert_eq!(square.get_index(Coord::new(4, 8)), 5);
    assert!(square.is_row_in_square(5));
    assert!(!square.is_row_in_square(6));
    assert!(square.is_column_in_square(6));
    assert!(!square.is_column_in_square(5));
    assert_eq!(square.to_square_index(), 5);
    assert_eq!(square.iter_rows(), vec![Row::new(3), Row::new(4), Row::new(5)]);
    assert_eq!(
        square.iter_columns(),
        vec![Column::new(6), Column::new(7), Column::new(8)]
    );
}

#[test]
fn blocks_count_from_their_corner_wherever_it_lies() {
    assert_eq!(Square::new(9, 12).to_square_index(), 13);
    assert_eq!(Square::new(4, 7).to_square_index(), 5);
    let block = Square::new(1, 1);
    assert_eq!(block.get_index(Coord::new(4, 8)), 16);
    assert_eq!(block.get_index(Coord::new(2, 3)), 5);
    assert_eq!(block.get_coord_start(), Coord::new(1, 1));
    assert_eq!(block.get_coord_at(7, 7), Coord::new(8, 8));
    assert_eq!(Square::new(0, 8).get_coord_at(0, 3), Coord::new(1, 2));
    assert_eq!(
        Square::new(7, 20).iter_rows(),
        vec![Row::new(7), Row::new(8), Row::new(9)]
    );
    assert_eq!(
        Square::new(20, 7).iter_columns(),
        vec![Column::new(7), Column::new(8), Column::new(9)]
    );
}
