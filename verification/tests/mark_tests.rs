use sudoku_solver_lib::grid::mark::Mark;

#[test]
fn test_index() {
    for (index, mark) in Mark::iter().into_iter().enumerate() {
        let value = mark.to_index();
        let mark2 = Mark::from_index(value);

        assert_eq!(mark2, mark);
        assert_eq!(value, index as u16);
    }
}

#[test]
fn test_value_fixed() {
    assert_eq!(Mark::N1.to_value(), 1);
    assert_eq!(Mark::N2.to_value(), 2);
}

#[test]
fn test_value() {
    for (index, mark) in Mark::iter().into_iter().enumerate() {
        let value = mark.to_value();
        let mark2 = Mark::from_value(value);

        assert_eq!(value, index as u16 + 1, "from mark to value");
        assert_eq!(mark2, mark, "from mark to mark");
    }
}

#[test]
fn test_index_fixed() {
    assert_eq!(Mark::N1.to_index(), 0);
    assert_eq!(Mark::N2.to_index(), 1);
}

#[test]
fn test_index_value() {
    for index in 0..9 {
        let mark = Mark::from_index(index);
        let value = mark.to_index();

        assert_eq!(value, index);
    }
}

#[test]
fn test_iter() {
    let mut iter = Mark::iter().into_iter();

    assert_eq!(iter.next(), Some(Mark::N1));
    assert_eq!(iter.next(), Some(Mark::N2));
    assert_eq!(iter.next(), Some(Mark::N3));
    assert_eq!(iter.next(), Some(Mark::N4));
    assert_eq!(iter.next(), Some(Mark::N5));
    assert_eq!(iter.next(), Some(Mark::N6));
    assert_eq!(iter.next(), Some(Mark::N7));
    assert_eq!(iter.next(), Some(Mark::N8));
    assert_eq!(iter.next(), Some(Mark::N9));
    assert_eq!(iter.next(), None);
}

#[test]
fn mark_out_of_range_is_n1() {
    assert_eq!(Mark::from_value(0), Mark::N1);
    assert_eq!(Mark::from_value(10), Mark::N1);
    assert_eq!(Mark::from_index(9), Mark::N1);
    assert_eq!(Mark::from_index(u16::MAX), Mark::N1);
    assert_eq!(Mark::default(), Mark::N1);
}

#[test]
fn mark_data_is_candidate_bit() {
    let expected: [u16; 9] = [
        0x0080, 0x0100, 0x0200, 0x0400, 0x0800, 0x1000, 0x2000, 0x4000, 0x8000,
    ];
    for (index, mark) in Mark::iter().into_iter().enumerate() {
        assert_eq!(mark.to_data(), expected[index]);
        assert_eq!(mark.to_data(), 1u16 << (mark.to_value() + 6));
    }
}
