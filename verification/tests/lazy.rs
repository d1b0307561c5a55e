use kernel::lazy::{Lazy, Once};
use std::cell::Cell;

#[test]
fn once_starts_empty() {
    let o: Once<u32> = Once::new();
    assert!(!o.is_initialized());
    assert_eq!(o.get(), None);
}

#[test]
fn set_once_runs_initialiser_only_once() {
    let calls = Cell::new(0);
    let mut o: Once<u32> = Once::new();
    assert_eq!(*o.set_once(|| { calls.set(calls.get() + 1); 7 }), 7);
    assert_eq!(*o.set_once(|| { calls.set(calls.get() + 1); 9 }), 7);
    assert_eq!(calls.get(), 1);
    assert!(o.is_initialized());
    assert_eq!(o.get(), Some(&7));
    assert_eq!(*o.get_unchecked(), 7);
}

#[test]
fn get_mut_changes_value() {
    let mut o: Once<u32> = Once::new();
    assert!(o.get_mut().is_none());
    o.set_unchecked(3);
    *o.get_mut().unwrap() = 4;
    assert_eq!(o.get(), Some(&4));
}

#[test]
fn lazy_computes_on_first_force() {
    let calls = Cell::new(0);
    let mut l = Lazy::new(|| { calls.set(calls.get() + 1); String::from("idt") });
    assert_eq!(calls.get(), 0);
    assert_eq!(Lazy::force(&mut l).as_str(), "idt");
    assert_eq!(Lazy::force(&mut l).as_str(), "idt");
    assert_eq!(calls.get(), 1);
}

#[test]
fn get_unchecked_mut_changes_value() {
    let mut o: Once<Vec<u8>> = Once::new();
    o.set_unchecked(vec![1]);
    o.get_unchecked_mut().push(2);
    assert_eq!(o.get(), Some(&vec![1, 2]));
}

#[test]
fn lazy_initialiser_runs_once_over_many_forces() {
    let calls = Cell::new(0);
    let mut l = Lazy::new(|| { calls.set(calls.get() + 1); 5u8 });
    for _ in 0..50 {
        assert_eq!(*Lazy::force(&mut l), 5);
    }
    assert_eq!(calls.get(), 1);
}
