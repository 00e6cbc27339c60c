use sudoku_solver_lib::grid::coords::Coord;
use sudoku_solver_lib::grid::format::{get_index, get_index_from};

#[test]
fn test_coord() {
    let coord = Coord::new(1, 2);
    assert_eq!(coord.get_row(), 1);
    assert_eq!(coord.get_col(), 2);
}

#[test]
fn test_coord_from_index() {
    for row in 0..9 {
        for col in 0..9 {
            let index = Coord::new(row, col).get_index();
            let coord = Coord::from_index(index);
            assert_eq!(coord.get_row(), row);
            assert_eq!(coord.get_col(), col);
        }
    }
}

#[test]
fn coord_index_is_row_major() {
    assert_eq!(Coord::new(0, 0).get_index(), 0);
    assert_eq!(Coord::new(4, 1).get_index(), 37);
    assert_eq!(Coord::new(8, 8).get_index(), 80);
    assert_eq!(get_index_from(7, 3), 66);
    assert_eq!(get_index(Coord::new(7, 3)), 66);
    assert_eq!(Coord::from_index(64).get_row_col(), (7, 1));
}

#[test]
fn coord_offsets() {
    let coord = Coord::new(2, 3);
    assert_eq!(coord.offset_row(4), Coord::new(6, 3));
    assert_eq!(coord.offset_col(5), Coord::new(2, 8));
    assert_eq!(coord.offset(1, 2), Coord::new(3, 5));
}

#[test]
fn coordinates_go_by_the_index_that_row_and_column_give() {
    assert_eq!(Coord::new(0, 20), Coord::from_index(20));
    assert_eq!(Coord::new(0, 20).get_row(), 2);
    assert_eq!(Coord::new(0, 20).get_col(), 2);
    assert_eq!(Coord::new(8, 8).get_index(), 80);
    assert_eq!(Coord::new(1, 7).offset_col(3), Coord::new(2, 1));
    assert_eq!(Coord::new(1, 7).offset(2, 4), Coord::new(4, 2));
    assert_eq!(Coord::new(1, 7).offset_row(7), Coord::new(8, 7));
    assert_eq!(sudoku_solver_lib::grid::format::get_index_from(10, 3), 93);
    assert_eq!(sudoku_solver_lib::grid::format::get_index_from(8, 8), 80);
}
