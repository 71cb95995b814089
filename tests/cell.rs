use smart_pointers::cell::Cell;

#[test]
fn set_then_get_returns_new_value() {
    let mut cell = Cell::new(5);
    cell.set(10);
    assert_eq!(cell.get(), 10);
}

#[test]
fn get_returns_initial_value() {
    let cell = Cell::new(7u8);
    assert_eq!(cell.get(), 7);
    assert_eq!(cell.get(), 7);
}

#[test]
fn get_returns_most_recent_set() {
    let mut cell = Cell::new(1i64);
    cell.set(2);
    cell.set(-3);
    assert_eq!(cell.get(), -3);
    assert_eq!(cell.get(), -3);
    cell.set(4);
    assert_eq!(cell.get(), 4);
}

#[test]
fn set_largest_value() {
    let mut other = Cell::new(0usize);
    other.set(usize::MAX);
    assert_eq!(other.get(), usize::MAX);
}
