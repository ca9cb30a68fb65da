//! Freepage allocator tests: marking and fetching across window
//! boundaries, idempotent re-marking, and ascending fetch order.

use vchordrq::freepages::{fetch, mark};
use vchordrq::page::Store;

fn store_with_freepage_head() -> Store {
    let mut store = Store::new();
    let head = store.extend();
    assert_eq!(head, 0);
    store
}

#[test]
fn freepage_mark_fetch_across_windows() {
    let mut store = store_with_freepage_head();
    let pages = vec![100u32, 200, 35000, 35001, 65600];
    mark(&mut store, 0, &pages).unwrap();
    assert_eq!(fetch(&mut store, 0).unwrap(), Some(100));
    assert_eq!(fetch(&mut store, 0).unwrap(), Some(200));
    assert_eq!(fetch(&mut store, 0).unwrap(), Some(35000));
    assert_eq!(fetch(&mut store, 0).unwrap(), Some(35001));
    assert_eq!(fetch(&mut store, 0).unwrap(), Some(65600));
    assert_eq!(fetch(&mut store, 0).unwrap(), None);
    assert_eq!(fetch(&mut store, 0).unwrap(), None);
}

#[test]
fn freepage_mark_is_idempotent() {
    let mut store = store_with_freepage_head();
    let pages = vec![7u32, 9, 32768, 40000];
    mark(&mut store, 0, &pages).unwrap();
    mark(&mut store, 0, &pages).unwrap();
    assert_eq!(fetch(&mut store, 0).unwrap(), Some(7));
    assert_eq!(fetch(&mut store, 0).unwrap(), Some(9));
    assert_eq!(fetch(&mut store, 0).unwrap(), Some(32768));
    assert_eq!(fetch(&mut store, 0).unwrap(), Some(40000));
    assert_eq!(fetch(&mut store, 0).unwrap(), None);
}

#[test]
fn freepage_fetch_is_ascending() {
    let mut store = store_with_freepage_head();
    mark(&mut store, 0, &vec![500u32, 3, 70000, 12]).unwrap();
    let mut got = Vec::new();
    while let Some(p) = fetch(&mut store, 0).unwrap() {
        got.push(p);
    }
    assert_eq!(got, vec![3, 12, 500, 70000]);
    for w in got.windows(2) {
        assert!(w[0] < w[1]);
    }
}

#[test]
fn freepage_empty_chain_fetches_nothing() {
    let mut store = store_with_freepage_head();
    assert_eq!(fetch(&mut store, 0).unwrap(), None);
}

#[test]
fn freepage_duplicate_marks_collapse() {
    let mut store = store_with_freepage_head();
    mark(&mut store, 0, &vec![42u32, 42, 42]).unwrap();
    assert_eq!(fetch(&mut store, 0).unwrap(), Some(42));
    assert_eq!(fetch(&mut store, 0).unwrap(), None);
}
