use rs_raft::eraftpb::{Entry, Snapshot};
use rs_raft::log_unstable::Unstable;

fn entry(term: u64, index: u64) -> Entry {
    let mut e = Entry::new();
    e.set_term(term);
    e.set_index(index);
    e
}

fn snapshot(term: u64, index: u64) -> Snapshot {
    let mut s = Snapshot::new();
    s.metadata.term = term;
    s.metadata.index = index;
    s
}

fn unstable(entries: Vec<Entry>, offset: u64, snap: Option<Snapshot>) -> Unstable {
    let mut u = Unstable::new(offset, "t".to_string());
    u.entries = entries;
    u.snapshot = snap;
    u
}

fn terms(u: &Unstable) -> Vec<(u64, u64)> {
    u.entries.iter().map(|e| (e.index, e.term)).collect()
}

#[test]
fn new_is_empty() {
    let u = Unstable::new(5, "tag".to_string());
    assert_eq!(u.offset, 5);
    assert!(u.entries.is_empty());
    assert!(u.snapshot.is_none());
    assert_eq!(u.tag, "tag");
}

#[test]
fn maybe_first_index_cases() {
    assert_eq!(unstable(vec![entry(1, 5)], 5, None).maybe_first_index(), None);
    assert_eq!(unstable(vec![], 0, None).maybe_first_index(), None);
    assert_eq!(unstable(vec![entry(1, 5)], 5, Some(snapshot(1, 4))).maybe_first_index(), Some(5));
    assert_eq!(unstable(vec![], 5, Some(snapshot(1, 4))).maybe_first_index(), Some(5));
}

#[test]
fn maybe_last_index_cases() {
    assert_eq!(unstable(vec![entry(1, 5)], 5, None).maybe_last_index(), Some(5));
    assert_eq!(unstable(vec![entry(1, 5)], 5, Some(snapshot(1, 4))).maybe_last_index(), Some(5));
    assert_eq!(unstable(vec![], 5, Some(snapshot(1, 4))).maybe_last_index(), Some(4));
    assert_eq!(unstable(vec![], 0, None).maybe_last_index(), None);
}

#[test]
fn maybe_term_cases() {
    let u = unstable(vec![entry(1, 5)], 5, None);
    assert_eq!(u.maybe_term(5), Some(1));
    assert_eq!(u.maybe_term(6), None);
    assert_eq!(u.maybe_term(4), None);
    let s = unstable(vec![entry(1, 5)], 5, Some(snapshot(1, 4)));
    assert_eq!(s.maybe_term(5), Some(1));
    assert_eq!(s.maybe_term(6), None);
    assert_eq!(s.maybe_term(4), Some(1));
    assert_eq!(s.maybe_term(3), None);
    let t = unstable(vec![], 5, Some(snapshot(1, 4)));
    assert_eq!(t.maybe_term(5), None);
    assert_eq!(t.maybe_term(4), Some(1));
    assert_eq!(unstable(vec![], 0, None).maybe_term(5), None);
}

#[test]
fn restore_replaces_everything() {
    let mut u = unstable(vec![entry(1, 5)], 5, Some(snapshot(1, 4)));
    u.restore(snapshot(2, 6));
    assert_eq!(u.offset, 6);
    assert!(u.entries.is_empty());
    assert_eq!(u.snapshot.as_ref().unwrap().metadata.index, 6);
    assert_eq!(u.snapshot.as_ref().unwrap().metadata.term, 2);
}

#[test]
fn stable_to_cases() {
    let mut u = unstable(vec![], 0, None);
    u.stable_to(5, 1);
    assert_eq!((u.offset, u.entries.len()), (0, 0));
    let mut u = unstable(vec![entry(1, 5)], 5, None);
    u.stable_to(5, 1);
    assert_eq!((u.offset, u.entries.len()), (6, 0));
    let mut u = unstable(vec![entry(1, 5), entry(1, 6)], 5, None);
    u.stable_to(5, 1);
    assert_eq!((u.offset, terms(&u)), (6, vec![(6, 1)]));
    // term mismatch: nothing changes
    let mut u = unstable(vec![entry(2, 6)], 6, None);
    u.stable_to(6, 1);
    assert_eq!((u.offset, u.entries.len()), (6, 1));
    // an index of the snapshot is not stabilized here
    let mut u = unstable(vec![entry(1, 5)], 5, Some(snapshot(1, 4)));
    u.stable_to(4, 1);
    assert_eq!((u.offset, u.entries.len()), (5, 1));
    // index past the end
    let mut u = unstable(vec![entry(1, 5)], 5, None);
    u.stable_to(6, 1);
    assert_eq!((u.offset, u.entries.len()), (5, 1));
}

#[test]
fn stable_snapshot_to_cases() {
    let mut u = unstable(vec![], 5, Some(snapshot(1, 4)));
    u.stable_snapshot_to(3);
    assert!(u.snapshot.is_some());
    u.stable_snapshot_to(4);
    assert!(u.snapshot.is_none());
    u.stable_snapshot_to(4);
    assert!(u.snapshot.is_none());
}

#[test]
fn truncate_and_append_appends_at_end() {
    let mut u = unstable(vec![entry(1, 5)], 5, None);
    u.truncate_and_append(&[entry(1, 6), entry(1, 7)]);
    assert_eq!(u.offset, 5);
    assert_eq!(terms(&u), vec![(5, 1), (6, 1), (7, 1)]);
}

#[test]
fn truncate_and_append_replaces_all() {
    let mut u = unstable(vec![entry(1, 5)], 5, None);
    u.truncate_and_append(&[entry(2, 5), entry(2, 6)]);
    assert_eq!(u.offset, 5);
    assert_eq!(terms(&u), vec![(5, 2), (6, 2)]);
    let mut u = unstable(vec![entry(1, 5)], 5, None);
    u.truncate_and_append(&[entry(2, 4), entry(2, 5), entry(2, 6)]);
    assert_eq!(u.offset, 4);
    assert_eq!(terms(&u), vec![(4, 2), (5, 2), (6, 2)]);
}

#[test]
fn truncate_and_append_truncates_middle() {
    let mut u = unstable(vec![entry(1, 5), entry(1, 6), entry(1, 7)], 5, None);
    u.truncate_and_append(&[entry(2, 6)]);
    assert_eq!(u.offset, 5);
    assert_eq!(terms(&u), vec![(5, 1), (6, 2)]);
    let mut u = unstable(vec![entry(1, 5), entry(1, 6), entry(1, 7)], 5, None);
    u.truncate_and_append(&[entry(2, 7), entry(2, 8)]);
    assert_eq!(terms(&u), vec![(5, 1), (6, 1), (7, 2), (8, 2)]);
    // what was appended reads back
    assert_eq!(u.maybe_term(7), Some(2));
    assert_eq!(u.maybe_term(8), Some(2));
    assert_eq!(u.maybe_term(6), Some(1));
}

#[test]
fn slice_returns_range() {
    let u = unstable(vec![entry(1, 5), entry(2, 6), entry(3, 7)], 5, None);
    let s = u.slice(6, 8);
    assert_eq!(s.iter().map(|e| e.term).collect::<Vec<_>>(), vec![2, 3]);
    assert!(u.slice(5, 5).is_empty());
    u.must_check_out_of_bounds(5, 8);
}
