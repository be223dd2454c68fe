use std::collections::VecDeque;
use undo_history::{EntryId, History};

fn ids(xs: &[usize]) -> Vec<EntryId> {
    xs.iter().map(|&x| EntryId(x)).collect()
}

#[test]
fn new_history_has_everything_in_past() {
    let h = History::new(ids(&[4, 7, 9]));
    assert_eq!(h.items, VecDeque::from(vec![EntryId(4), EntryId(7), EntryId(9)]));
    assert_eq!(h.index, 3);
}

#[test]
fn back_returns_none_exactly_at_start() {
    let mut empty = History::new(Vec::new());
    assert_eq!(empty.back(), None);

    let mut h = History::new(ids(&[1]));
    assert_eq!(h.back(), Some(EntryId(1)));
    assert_eq!(h.index, 0);
    assert_eq!(h.back(), None);
    assert_eq!(h.index, 0);
}

#[test]
fn forward_returns_none_exactly_at_end() {
    let mut h = History::new(ids(&[1]));
    assert_eq!(h.forward(), None);
    assert_eq!(h.back(), Some(EntryId(1)));
    assert_eq!(h.forward(), Some(EntryId(1)));
    assert_eq!(h.index, 1);
    assert_eq!(h.forward(), None);
}

#[test]
fn push_discards_future_and_returns_it() {
    let mut h = History::new(ids(&[1, 2]));
    assert_eq!(h.back(), Some(EntryId(2)));
    let removed = h.push(EntryId(3));
    assert_eq!(removed, ids(&[2]));
    assert_eq!(h.items, VecDeque::from(vec![EntryId(1), EntryId(3)]));
    assert_eq!(h.index, 2);
}

#[test]
fn push_leaves_no_future_to_redo() {
    let mut h = History::new(ids(&[1, 2, 3]));
    h.back();
    h.back();
    let removed = h.push(EntryId(8));
    assert_eq!(removed, ids(&[2, 3]));
    assert_eq!(h.forward(), None);
}

#[test]
fn loaded_history_with_saved_index_resumes_there() {
    let mut h = History {
        items: VecDeque::from(vec![EntryId(0), EntryId(1), EntryId(2)]),
        index: 2,
    };
    assert_eq!(h.forward(), Some(EntryId(2)));
    assert_eq!(h.index, 3);
    assert_eq!(h.forward(), None);
}

#[test]
fn remap_rewrites_every_handle() {
    let mut h = History::new(ids(&[0, 1, 2]));
    assert_eq!(h.back(), Some(EntryId(2)));
    h.remap(&|e: EntryId| EntryId(e.0 + 10));
    assert_eq!(h.items, VecDeque::from(vec![EntryId(10), EntryId(11), EntryId(12)]));
    assert_eq!(h.index, 2);
}
