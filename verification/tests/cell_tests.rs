use sudoku_solver_lib::grid::cell::{Cell, CELL_VALUE_MASK};
use sudoku_solver_lib::grid::mark::Mark;

#[test]
pub fn test_print_objsize() {
    println!("Cell: {}", std::mem::size_of::<Cell>());
}

#[test]
pub fn test_possible_to_bit() {
    assert_eq!(Cell::possible_to_bit(1), 0b0000_0000_1000_0000);
    assert_eq!(Cell::possible_to_bit(2), 0b0000_0001_0000_0000);
    assert_eq!(Cell::possible_to_bit(3), 0b0000_0010_0000_0000);
    assert_eq!(Cell::possible_to_bit(4), 0b0000_0100_0000_0000);
    assert_eq!(Cell::possible_to_bit(5), 0b0000_1000_0000_0000);
    assert_eq!(Cell::possible_to_bit(6), 0b0001_0000_0000_0000);
    assert_eq!(Cell::possible_to_bit(7), 0b0010_0000_0000_0000);
    assert_eq!(Cell::possible_to_bit(8), 0b0100_0000_0000_0000);
    assert_eq!(Cell::possible_to_bit(9), 0b1000_0000_0000_0000);
}

#[test]
pub fn test_get_count() {
    let mut cell = Cell::new();

    assert_eq!(cell.possible_count(), 9);

    cell.unset_possible(Mark::N1);
    assert_eq!(cell.possible_count(), 8);

    cell.unset_possible(Mark::N2);
    assert_eq!(cell.possible_count(), 7);

    cell.unset_possible(Mark::N3);
    assert_eq!(cell.possible_count(), 6);

    cell.unset_possible(Mark::N4);
    assert_eq!(cell.possible_count(), 5);

    cell.unset_possible(Mark::N5);
    assert_eq!(cell.possible_count(), 4);

    cell.unset_possible(Mark::N6);
    assert_eq!(cell.possible_count(), 3);

    cell.unset_possible(Mark::N7);
    assert_eq!(cell.possible_count(), 2);

    cell.unset_possible(Mark::N8);
    assert_eq!(cell.possible_count(), 1);

    cell.unset_possible(Mark::N9);
    assert_eq!(cell.possible_count(), 0);
}

#[test]
pub fn test_iter_possible() {
    let cell = Cell::new();

    let mut iter = cell.iter_possible().into_iter();

    assert_eq!(iter.next(), Some(Mark::N1));
    assert_eq!(iter.next(), Some(Mark::N2));
    assert_eq!(iter.next(), Some(Mark::N3));
    assert_eq!(iter.next(), Some(Mark::N4));
    assert_eq!(iter.next(), Some(Mark::N5));
    assert_eq!(iter.next(), Some(Mark::N6));
    assert_eq!(iter.next(), Some(Mark::N7));
    assert_eq!(iter.next(), Some(Mark::N8));
    assert_eq!(iter.next(), Some(Mark::N9));
    assert_eq!(iter.next(), None);
}

#[test]
pub fn test_determined() {
    for i in 1..=9 {
        let cell = Cell::new_with_value(i);

        assert!(cell.is_determined());
        assert_eq!(cell.get_value(), i as u16);
    }
}

#[test]
pub fn test_not_determined() {
    let cell = Cell::new();

    assert!(!cell.is_determined());

    for i in 1..=9 {
        let mark = Mark::from_index(i - 1);
        assert!(cell.is_possible(mark));
        assert!(!cell.is_determined());
    }
}

#[test]
pub fn test_bit_or() {
    let c1 = Cell::new();
    let c2 = Cell::new_with_value(3);

    let c3 = c1 | c2;

    assert_eq!(c3.get_value() & (CELL_VALUE_MASK as u16), 3);
    assert!(c3.is_possible(Mark::N1), "1");
    assert!(c3.is_possible(Mark::N2), "2");
    assert!(c3.is_possible(Mark::N3), "3");
    assert!(c3.is_possible(Mark::N4), "4");
    assert!(c3.is_possible(Mark::N5), "5");
    assert!(c3.is_possible(Mark::N6), "6");
    assert!(c3.is_possible(Mark::N7), "7");
    assert!(c3.is_possible(Mark::N8), "8");
    assert!(c3.is_possible(Mark::N9), "9");
}

#[test]
pub fn test_bit_or2() {
    let mut c1 = Cell::new_empty();
    c1.set_possible(Mark::N1);
    let mut c2 = Cell::new_empty();
    c2.set_possible(Mark::N9);

    let c3 = c1 | c2;

    assert!(c3.is_possible(Mark::N1), "1");
    assert!(c3.is_possible(Mark::N9), "9");
}

#[test]
pub fn cell_words() {
    assert_eq!(Cell::new().get_value(), 0xFF80);
    assert_eq!(Cell::default().get_value(), 0xFF80);
    assert_eq!(Cell::new_empty().get_value(), 0);
    assert_eq!(Cell::mask().get_value(), 0xFFFF);
    assert_eq!(Cell::new_with_possible(Mark::N3).get_value(), 0x0200);
    assert_eq!(Cell::new_from_mark_as_value(Mark::N7).get_value(), 7);
    assert!(Cell::new_empty().is_empty());
    assert!(!Cell::new_empty().has_any());
    assert!(Cell::new().has_any());
    assert_eq!(Cell::new_with_value(5).value(), Some(5));
    assert_eq!(Cell::new().value(), None);
    assert!(Cell::new().is_possible_value(4));
    assert!(!Cell::new_with_value(4).is_possible_value(4));
}

#[test]
pub fn cell_projections_and_ops() {
    let cell = Cell::new_with_value(0x1285);
    assert_eq!(cell.only_possible().get_value(), 0x1280);
    assert_eq!(cell.only_determined().get_value(), 0x0005);
    assert_eq!((cell & Cell::new_with_value(0x00FF)).get_value(), 0x0085);
    assert_eq!((cell ^ Cell::new_with_value(0x0005)).get_value(), 0x1280);
    assert!(cell.iter_possible().is_empty());
    let open = Cell::new_with_value(0x1280);
    assert_eq!(open.iter_possible(), vec![Mark::N1, Mark::N3, Mark::N6]);
    let mut set = Cell::new_empty();
    set.set_value(9);
    assert_eq!(set.get_value(), 9);
}

#[test]
fn the_bit_of_zero_lies_below_the_candidates() {
    assert_eq!(Cell::possible_to_bit(0), 0x0040);
    assert_eq!(Cell::possible_to_bit(1), 0x0080);
    assert_eq!(Cell::possible_to_bit(9), 0x8000);
    assert!(Cell::new_with_value(0x0040).is_possible_value(0));
    assert!(!Cell::new().is_possible_value(0));
    assert!(Cell::new().is_possible_value(4));
}
