use std::cell::Cell;

use tikz_embed::tikz::Tikz;

#[test]
fn new_cache_is_empty() {
    let t = Tikz::new();
    assert!(t.lookup(0).is_none());
    assert!(!t.contains(42));
}

#[test]
fn insert_then_lookup_and_fetch() {
    let mut t = Tikz::new();
    t.insert(7, Ok(vec![1, 2, 3]));
    assert!(t.contains(7));
    assert_eq!(t.lookup(7), Some(&Ok(vec![1, 2, 3])));
    assert_eq!(t.fetch(7), &Ok(vec![1, 2, 3]));
    assert!(t.lookup(8).is_none());
}

#[test]
fn failures_are_cached_like_successes() {
    let mut t = Tikz::new();
    t.insert(5, Err(String::from("broken diagram")));
    assert_eq!(t.fetch(5), &Err(String::from("broken diagram")));
}

#[test]
fn get_or_compute_computes_once_and_stores() {
    let mut t = Tikz::new();
    let calls = Cell::new(0usize);
    let r = t.get_or_compute(9, || {
        calls.set(calls.get() + 1);
        Ok(vec![9, 9])
    });
    assert_eq!(r, &Ok(vec![9, 9]));
    assert_eq!(calls.get(), 1);
    assert_eq!(t.fetch(9), &Ok(vec![9, 9]));
}

#[test]
fn get_or_compute_never_invokes_compute_for_a_cached_fingerprint() {
    let mut t = Tikz::new();
    let r = t.get_or_compute(3, || Ok(vec![1]));
    assert_eq!(r, &Ok(vec![1]));
    let r2 = t.get_or_compute(3, || -> Result<Vec<u8>, String> {
        panic!("the second compute must not run")
    });
    assert_eq!(r2, &Ok(vec![1]));
}

#[test]
fn earlier_entries_survive_later_insertions() {
    let mut t = Tikz::new();
    t.insert(1, Ok(vec![1]));
    t.insert(2, Err(String::from("two")));
    t.insert(3, Ok(vec![3]));
    assert_eq!(t.fetch(1), &Ok(vec![1]));
    assert_eq!(t.fetch(2), &Err(String::from("two")));
    assert_eq!(t.fetch(3), &Ok(vec![3]));
}
