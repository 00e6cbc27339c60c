use sudoku_solver_lib::grid::cell::Cell;
use sudoku_solver_lib::grid::column::Column;
use sudoku_solver_lib::grid::coords::Coord;
use sudoku_solver_lib::grid::flags::Flags16;
use sudoku_solver_lib::grid::mark::Mark;
use sudoku_solver_lib::grid::row::Row;
use sudoku_solver_lib::grid::slice::{Slice, SliceValue, SLICE_ACTUAL_SIZE, SLICE_SIZE};
use sudoku_solver_lib::grid::square::Square;
use sudoku_solver_lib::grid::utility::utility::filled_sudoku;
use sudoku_solver_lib::solvers::util::{get_square_col_neighbors, get_square_row_neighbors};

fn slice_example() -> Slice {
    let mut s = Slice::new();

    for i in 0..SLICE_ACTUAL_SIZE {
        let v = (i as u16) + 1;
        s.items[i] = Cell::new_with_value((v % 9) + 1);
    }

    s
}

#[test]
pub fn test_from() {
    let grid = filled_sudoku();

    let s = Slice::from(&grid, &Row::new(0));
    for i in 0..9 {
        assert_eq!(s.items[i], *grid.get_cell_at(Coord::new(0, i)));
    }

    let s = Slice::from(&grid, &Column::new(0));
    for i in 0..9 {
        assert_eq!(s.items[i], *grid.get_cell_at(Coord::new(i, 0)));
    }
}

#[test]
pub fn test_only_possible() {
    let mut s = slice_example();

    s.items[5] = Cell::new();
    s.items[6] = Cell::new();

    let s = s.only_possible();
    let count = s.count();

    assert_eq!(count, 2);
}

#[test]
pub fn test_only_possible_value() {
    let mut s = slice_example();

    s.items[5] = Cell::new();
    s.items[6] = Cell::new();

    let s = s.only_possible_value(Mark::N7);
    let count = s.count();

    assert_eq!(count, 2);
}

#[test]
pub fn test_only_determined() {
    let mut s = slice_example();

    s.items[5] = Cell::new();
    s.items[6] = Cell::new();

    let s = s.only_determined();
    let count = s.count();

    assert_eq!(count, 7);
}

#[test]
pub fn test_only_determined_value() {
    let mut s = slice_example();

    s.items[5] = Cell::new();
    s.items[6] = Cell::new();

    let s = s.only_determined_value(1);
    let count = s.count();

    assert_eq!(count, 1);
}

#[test]
pub fn slice_reductions() {
    let mut s = slice_example();
    s.items[5] = Cell::new_with_value(0x0180);
    s.items[7] = Cell::new_with_value(0x0100);
    assert_eq!(SLICE_SIZE, 16);
    assert_eq!(s.iter(), 0..16);
    assert_eq!(s.count(), 9);
    assert_eq!(s.count_empty(), 7);
    assert_eq!(s.count_determined(), 7);
    assert_eq!(s.count_determined_value(3), 1);
    assert_eq!(s.count_determined_value(7), 0);
    assert!(s.any_determined_value(3));
    assert!(s.is_determined(3));
    assert!(!s.is_determined(7));
    assert!(!s.is_fully_determined());
    assert_eq!(s.count_possible(Mark::N2), 2);
    assert_eq!(s.count_possible(Mark::N1), 1);
    assert_eq!(s.count_possible(Mark::N5), 0);
    assert!(s.any_possible(Mark::N1));
    assert!(!s.any_possible(Mark::N5));
    assert_eq!(s.first_possible(Mark::N2), 5);
    assert_eq!(s.first_possible(Mark::N5), 0);
    assert_eq!(s.search_count_possible(Mark::N2), (7, 2));
    assert_eq!(s.search_count_possible(Mark::N5), (0, 0));
    assert_eq!(s.or_all().get_value(), 0x018F);
    assert_eq!(s.get(5).get_value(), 0x0180);
    s.set(15, Cell::new_with_value(2));
    assert_eq!(s.get(15).get_value(), 2);
}

#[test]
pub fn slice_masks_and_operators() {
    let full = Slice::create_mask_full(Cell::new_with_value(0x00F0));
    let threes = Slice::create_mask_threes(
        Cell::new_with_value(0x0011),
        Cell::new_with_value(0x0022),
        Cell::new_with_value(0x0044),
    );
    let and = full & threes;
    let or = full | threes;
    for i in 0..16 {
        let t = if i < 3 {
            0x0011
        } else if i < 6 {
            0x0022
        } else if i < 9 {
            0x0044
        } else {
            0
        };
        assert_eq!(threes.items[i].get_value(), t);
        assert_eq!(and.items[i].get_value(), 0x00F0 & t);
        assert_eq!(or.items[i].get_value(), 0x00F0 | t);
    }
    assert!(and == and);
    assert!(and != or);
}

#[test]
pub fn slice_values() {
    let mut a = SliceValue::new();
    assert!(!a.any());
    assert!(!a.all());
    assert_eq!(a.iter(), 0..9);
    a.items[2] = 5;
    a.items[3] = 5;
    assert!(a.any());
    assert_eq!(a.count(), 2);
    assert_eq!(a.count_value(5), 2);
    assert_eq!(a.count_value(0), 7);
    let mut b = SliceValue::new();
    b.items = [2; 9];
    assert!(b.all());
    let c = a.or(&b);
    assert_eq!(c.items, [2, 2, 7, 7, 2, 2, 2, 2, 2]);
}

#[test]
pub fn flags() {
    let mut flags = Flags16::new();
    assert!(!flags.any());
    flags.set_bit(3);
    assert!(flags.any());
    assert!(flags.get_bit(3));
    assert!(!flags.get_bit(4));
    assert_eq!(flags.flags, 0x0200);
    let other = Flags16::from(Cell::new_with_value(0x0300));
    assert_eq!((Flags16 { flags: 0x0200 } | Flags16 { flags: 0x0300 }).flags, 0x0300);
    assert_eq!((Flags16 { flags: 0x0200 } & Flags16 { flags: 0x0300 }).flags, 0x0200);
    assert_eq!((Flags16 { flags: 0x0200 } ^ other).flags, 0x0100);
}

#[test]
pub fn square_neighbors() {
    assert_eq!(
        get_square_row_neighbors(&Square::new(3, 0)),
        Some([Square::new(3, 3), Square::new(3, 6)])
    );
    assert_eq!(
        get_square_row_neighbors(&Square::new(3, 3)),
        Some([Square::new(3, 0), Square::new(3, 6)])
    );
    assert_eq!(
        get_square_row_neighbors(&Square::new(3, 6)),
        Some([Square::new(3, 0), Square::new(3, 3)])
    );
    assert_eq!(get_square_row_neighbors(&Square::new(3, 4)), None);
    assert_eq!(
        get_square_col_neighbors(&Square::new(0, 6)),
        Some([Square::new(3, 6), Square::new(6, 6)])
    );
    assert_eq!(
        get_square_col_neighbors(&Square::new(6, 6)),
        Some([Square::new(0, 6), Square::new(3, 6)])
    );
    assert_eq!(get_square_col_neighbors(&Square::new(1, 6)), None);
}
