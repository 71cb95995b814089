use smart_pointers::rc::{release_handle, retain_handle, RcInner};

#[test]
fn new_block_counts_one_handle() {
    let inner = RcInner::new(42);
    assert_eq!(inner.ref_count.get(), 1);
    assert_eq!(inner.value, 42);
}

#[test]
fn clone_then_drop_both_frees_once() {
    let mut inner = RcInner::new("x");
    retain_handle(&mut inner.ref_count);
    assert_eq!(inner.ref_count.get(), 2);
    assert!(!release_handle(&mut inner.ref_count));
    assert_eq!(inner.ref_count.get(), 1);
    assert_eq!(inner.value, "x");
    assert!(release_handle(&mut inner.ref_count));
    assert_eq!(inner.ref_count.get(), 1);
}

#[test]
fn last_release_comes_after_every_clone() {
    let mut inner = RcInner::new(String::from("v"));
    for _ in 0..4 {
        retain_handle(&mut inner.ref_count);
    }
    assert_eq!(inner.ref_count.get(), 5);
    for left in (1..5usize).rev() {
        assert!(!release_handle(&mut inner.ref_count));
        assert_eq!(inner.ref_count.get(), left);
    }
    assert!(release_handle(&mut inner.ref_count));
}
