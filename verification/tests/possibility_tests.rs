use sudoku_solver_lib::grid::mark::Mark;
use sudoku_solver_lib::grid::possibility::Possibility;

#[test]
#[allow(non_snake_case)]
fn Possibility_all_off_works() {
    let mut p = Possibility::new();
    p.all_off();

    assert_eq!(p.value, 0);
    assert_eq!(p.get_count(), 0);
}

#[test]
#[allow(non_snake_case)]
fn Possibility_all_on_works() {
    let mut p = Possibility::new();
    p.all_off();
    p.all_on();

    assert_eq!(p.value, 0b00000001_11111111);
    assert_eq!(p.get_count(), 9);
}

#[test]
#[allow(non_snake_case)]
fn Possibility_set_works() {
    let mut p = Possibility::new();
    p.all_off();
    p.set(Mark::N1);
    p.set(Mark::N2);
    p.set(Mark::N3);

    assert_eq!(p.value, 0b00000000_00000111);
    assert_eq!(p.get_count(), 3);
}

#[test]
#[allow(non_snake_case)]
fn Possibility_set_each_field_works() {
    let mut p = Possibility::new();

    for m in Mark::iter().iter() {
        p.all_off();
        p.set(*m);

        assert_eq!(p.get_count(), 1);
        assert_eq!(p.get_state(*m), true);

        p.unset(*m);

        assert_eq!(p.get_count(), 0);
        assert_eq!(p.get_state(*m), false);
    }
}

#[test]
fn possibility_all_off_works() {
    let mut p = Possibility::new();
    p.all_off();

    assert_eq!(p.value, 0);
    assert_eq!(p.get_count(), 0);
}

#[test]
fn possibility_all_on_works() {
    let mut p = Possibility::new();
    p.all_off();
    p.all_on();

    assert_eq!(p.value, 0b00000001_11111111);
    assert_eq!(p.get_count(), 9);
}

#[test]
fn possibility_set_works() {
    let mut p = Possibility::new();
    p.all_off();
    p.set_possible(Mark::N1);
    p.set_possible(Mark::N2);
    p.set_possible(Mark::N3);

    assert_eq!(p.value, 0b00000000_00000111);
    assert_eq!(p.get_count(), 3);
}

#[test]
fn possibility_set_each_field_works() {
    let mut p = Possibility::new();

    for m in Mark::iter().iter() {
        p.all_off();
        p.set_possible(*m);

        assert_eq!(p.get_count(), 1);
        assert_eq!(p.is_possible(*m), true);

        p.unset_possible(*m);

        assert_eq!(p.get_count(), 0);
        assert_eq!(p.is_possible(*m), false);
    }
}

#[test]
fn iter_possible() {
    let mut p = Possibility::new();
    p.all_off();
    p.set_possible(Mark::N1);
    p.set_possible(Mark::N2);
    p.set_possible(Mark::N3);

    let mut iter = p.iter_possible().into_iter();
    assert_eq!(iter.next(), Some(Mark::N1));
    assert_eq!(iter.next(), Some(Mark::N2));
    assert_eq!(iter.next(), Some(Mark::N3));
    assert_eq!(iter.next(), None);
}

#[test]
fn possibility_rest() {
    assert!(Possibility::empty().is_empty());
    assert!(!Possibility::new().is_empty());
    assert_eq!(Possibility::default().get_value(), 0x01FF);
    assert_eq!(Possibility::from(Mark::N9).get_value(), 0x0100);
    assert_eq!(Possibility::from(Mark::N4).copy(), Possibility::from(Mark::N4));
    let mut p = Possibility::empty();
    p.set_possible_state(Mark::N5, true);
    assert_eq!(p.get_value(), 0x0010);
    p.set_state(Mark::N5, false);
    assert_eq!(p.get_value(), 0);
}
