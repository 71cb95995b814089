use smart_pointers::refcell::{RefCell, ReferenceState};

#[test]
fn fresh_cell_is_unshared() {
    let rc = RefCell::new(1);
    assert_eq!(rc.state_tag(), ReferenceState::Unshared);
}

#[test]
fn shared_borrows_block_exclusive_until_released() {
    let mut rc = RefCell::new(1);
    let r1 = rc.borrow().unwrap();
    let r2 = rc.borrow().unwrap();
    assert!(rc.borrow_mut().is_none());
    r1.release(&mut rc);
    r2.release(&mut rc);
    assert!(rc.borrow_mut().is_some());
}

#[test]
fn second_exclusive_borrow_is_refused() {
    let mut rc = RefCell::new(String::from("a"));
    let m = rc.borrow_mut();
    assert!(m.is_some());
    assert_eq!(rc.state_tag(), ReferenceState::Exclusive);
    assert!(rc.borrow_mut().is_none());
    m.unwrap().release(&mut rc);
    assert_eq!(rc.state_tag(), ReferenceState::Unshared);
    assert!(rc.borrow_mut().is_some());
}

#[test]
fn shared_borrow_refused_while_exclusive() {
    let mut rc = RefCell::new(3u32);
    let m = rc.borrow_mut().unwrap();
    assert!(rc.borrow().is_none());
    assert_eq!(rc.state_tag(), ReferenceState::Exclusive);
    m.release(&mut rc);
    assert!(rc.borrow().is_some());
    assert_eq!(rc.state_tag(), ReferenceState::Shared(1));
}

#[test]
fn many_shared_borrows_coexist() {
    let mut rc = RefCell::new(0u8);
    let mut guards = Vec::new();
    for n in 1..=5usize {
        guards.push(rc.borrow().unwrap());
        assert_eq!(rc.state_tag(), ReferenceState::Shared(n));
        assert!(rc.borrow_mut().is_none());
    }
    assert_eq!(guards.len(), 5);
}

#[test]
fn releases_in_any_order_return_to_unshared() {
    let mut rc = RefCell::new(9);
    let a = rc.borrow().unwrap();
    let b = rc.borrow().unwrap();
    let c = rc.borrow().unwrap();
    b.release(&mut rc);
    assert_eq!(rc.state_tag(), ReferenceState::Shared(2));
    c.release(&mut rc);
    assert_eq!(rc.state_tag(), ReferenceState::Shared(1));
    assert!(rc.borrow_mut().is_none());
    a.release(&mut rc);
    assert_eq!(rc.state_tag(), ReferenceState::Unshared);
}

#[test]
fn guards_read_and_write_the_value() {
    let mut rc = RefCell::new(vec![1, 2]);
    let m = rc.borrow_mut().unwrap();
    m.deref_mut(&mut rc).push(3);
    assert_eq!(*m.deref(&rc), vec![1, 2, 3]);
    m.release(&mut rc);
    let r = rc.borrow().unwrap();
    assert_eq!(*r.deref(&rc), vec![1, 2, 3]);
    r.release(&mut rc);
    assert_eq!(rc.state_tag(), ReferenceState::Unshared);
}
