use lattice_states::states::lattices::square_lattices::Periodicity;

#[test]
fn periodicity_tables_wrap_around() {
    let p = Periodicity::new(5);
    assert_eq!(p.prev(0), 4);
    assert_eq!(p.next(4), 0);
    assert_eq!(p.prev(3), 2);
    assert_eq!(p.next(3), 4);
}

#[test]
fn periodicity_prev_next_are_inverse() {
    for length in 1..8 {
        let p = Periodicity::new(length);
        for i in 0..length {
            assert_eq!(p.next(p.prev(i)), i);
            assert_eq!(p.prev(p.next(i)), i);
        }
    }
}

#[test]
fn periodicity_of_one_is_self_adjacent() {
    let p = Periodicity::new(1);
    assert_eq!(p.prev(0), 0);
    assert_eq!(p.next(0), 0);
}

#[test]
fn periodicity_of_two_has_equal_prev_and_next() {
    let p = Periodicity::new(2);
    assert_eq!(p.prev(0), 1);
    assert_eq!(p.next(0), 1);
    assert_eq!(p.prev(1), 0);
    assert_eq!(p.next(1), 0);
}
