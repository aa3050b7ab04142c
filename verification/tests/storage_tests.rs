use rs_raft::eraftpb::{ConfState, Entry, HardState, Snapshot};
use rs_raft::storage::{MemStorage, Storage};
use rs_raft::{Error, StorageError};

fn entry(term: u64, index: u64) -> Entry {
    let mut e = Entry::new();
    e.set_term(term);
    e.set_index(index);
    e
}

/// A storage whose placeholder sits at index 3 and term 3, holding 4 and 5.
fn storage_3_to_5() -> MemStorage {
    let mut s = MemStorage::new();
    let mut snap = Snapshot::new();
    snap.metadata.index = 3;
    snap.metadata.term = 3;
    s.wl().apply_snapshot(snap).unwrap();
    s.wl().append(&[entry(4, 4), entry(5, 5)]).unwrap();
    s
}

fn is_err(r: &rs_raft::Result<u64>, want: StorageError) -> bool {
    matches!(r, Err(Error::Store(e)) if *e == want)
}

#[test]
fn new_storage_holds_placeholder() {
    let s = MemStorage::new();
    assert_eq!(s.first_index().unwrap(), 1);
    assert_eq!(s.last_index().unwrap(), 0);
    assert_eq!(s.term(0).unwrap(), 0);
    let st = s.initial_state().unwrap();
    assert!(st.hard_state == HardState::new());
    assert!(st.conf_state.nodes.is_empty());
}

#[test]
fn term_cases() {
    let s = storage_3_to_5();
    assert!(is_err(&s.term(2), StorageError::Compacted));
    assert_eq!(s.term(3).unwrap(), 3);
    assert_eq!(s.term(4).unwrap(), 4);
    assert_eq!(s.term(5).unwrap(), 5);
    assert!(is_err(&s.term(6), StorageError::Unavailable));
}

#[test]
fn first_and_last_index() {
    let s = storage_3_to_5();
    assert_eq!(s.first_index().unwrap(), 4);
    assert_eq!(s.last_index().unwrap(), 5);
}

#[test]
fn entries_cases() {
    let s = storage_3_to_5();
    assert!(matches!(s.entries(2, 6, u64::MAX), Err(Error::Store(StorageError::Compacted))));
    assert!(matches!(s.entries(3, 4, u64::MAX), Err(Error::Store(StorageError::Compacted))));
    let all = s.entries(4, 6, u64::MAX).unwrap();
    assert_eq!(all.iter().map(|e| e.term).collect::<Vec<_>>(), vec![4, 5]);
    let one = s.entries(4, 5, u64::MAX).unwrap();
    assert_eq!(one.len(), 1);
    // the size limit keeps at least one entry
    let limited = s.entries(4, 6, 0).unwrap();
    assert_eq!(limited.len(), 1);
    let limited = s.entries(4, 6, 8).unwrap();
    assert_eq!(limited.len(), 2);
    let empty = MemStorage::new();
    assert!(matches!(empty.entries(1, 1, u64::MAX), Err(Error::Store(StorageError::Unavailable))));
}

#[test]
fn compact_cases() {
    let mut s = storage_3_to_5();
    assert!(matches!(s.wl().compact(2), Err(Error::Store(StorageError::Compacted))));
    assert!(matches!(s.wl().compact(3), Err(Error::Store(StorageError::Compacted))));
    assert!(s.wl().compact(4).is_ok());
    assert_eq!(s.first_index().unwrap(), 5);
    assert_eq!(s.last_index().unwrap(), 5);
    assert_eq!(s.term(4).unwrap(), 4);
    assert_eq!(s.term(5).unwrap(), 5);
    assert!(is_err(&s.term(3), StorageError::Compacted));
    assert!(s.wl().compact(5).is_ok());
    assert_eq!(s.first_index().unwrap(), 6);
    assert_eq!(s.term(5).unwrap(), 5);
}

#[test]
fn append_cases() {
    // entries already held, or before the placeholder, are rewritten as they were
    let mut s = storage_3_to_5();
    s.wl().append(&[entry(3, 3), entry(4, 4), entry(5, 5)]).unwrap();
    assert_eq!(s.last_index().unwrap(), 5);
    assert_eq!(s.term(4).unwrap(), 4);
    // entries that start inside the log replace it from there on
    s.wl().append(&[entry(6, 5)]).unwrap();
    assert_eq!(s.last_index().unwrap(), 5);
    assert_eq!(s.term(4).unwrap(), 4);
    assert_eq!(s.term(5).unwrap(), 6);
    // entries right after the last one are added
    s.wl().append(&[entry(6, 6), entry(6, 7)]).unwrap();
    assert_eq!(s.last_index().unwrap(), 7);
    assert_eq!(s.term(6).unwrap(), 6);
    assert_eq!(s.term(7).unwrap(), 6);
    // entries overlapping the end replace the overlap and extend the log
    s.wl().append(&[entry(7, 7), entry(7, 8)]).unwrap();
    assert_eq!(s.last_index().unwrap(), 8);
    assert_eq!(s.term(6).unwrap(), 6);
    assert_eq!(s.term(7).unwrap(), 7);
    assert_eq!(s.term(8).unwrap(), 7);
    // an empty batch and one wholly before the log are ignored
    s.wl().append(&[]).unwrap();
    s.wl().append(&[entry(1, 1), entry(1, 2)]).unwrap();
    assert_eq!(s.last_index().unwrap(), 8);
    assert_eq!(s.first_index().unwrap(), 4);
    // a batch that starts before the placeholder but reaches past the end
    let mut t = storage_3_to_5();
    t.wl().append(&[entry(2, 2), entry(3, 3), entry(4, 4), entry(5, 5), entry(6, 6)]).unwrap();
    assert_eq!(t.last_index().unwrap(), 6);
    assert_eq!(t.first_index().unwrap(), 4);
    assert_eq!(t.term(3).unwrap(), 3);
    assert_eq!(t.term(6).unwrap(), 6);
}

#[test]
fn append_replaces_conflicting_entries() {
    let mut s = storage_3_to_5();
    s.wl().append(&[entry(3, 3), entry(6, 4), entry(6, 5)]).unwrap();
    assert_eq!(s.last_index().unwrap(), 5);
    assert_eq!(s.term(3).unwrap(), 3);
    assert_eq!(s.term(4).unwrap(), 6);
    assert_eq!(s.term(5).unwrap(), 6);
}

#[test]
fn append_inside_drops_the_rest() {
    let mut s = storage_3_to_5();
    s.wl().append(&[entry(7, 4)]).unwrap();
    assert_eq!(s.last_index().unwrap(), 4);
    assert_eq!(s.term(4).unwrap(), 7);
    assert!(is_err(&s.term(5), StorageError::Unavailable));
}

#[test]
fn create_snapshot_cases() {
    let mut s = storage_3_to_5();
    assert!(matches!(s.wl().create_snapshot(3, None, vec![]), Err(Error::Store(StorageError::SnapshotOutOfDate))));
    let cs = ConfState { nodes: vec![1, 2, 3], learners: vec![] };
    let snap = s.wl().create_snapshot(4, Some(cs), vec![7, 8]).unwrap();
    assert_eq!(snap.metadata.index, 4);
    assert_eq!(snap.metadata.term, 4);
    assert_eq!(snap.metadata.conf_state.nodes, vec![1, 2, 3]);
    assert_eq!(snap.data, vec![7, 8]);
    let got = s.snapshot().unwrap();
    assert_eq!(got.metadata.index, 4);
    let st = s.initial_state().unwrap();
    assert_eq!(st.conf_state.nodes, vec![1, 2, 3]);
    // the log itself is unchanged
    assert_eq!(s.first_index().unwrap(), 4);
    let snap = s.wl().create_snapshot(5, None, vec![]).unwrap();
    assert_eq!((snap.metadata.index, snap.metadata.term), (5, 5));
    assert_eq!(snap.metadata.conf_state.nodes, vec![1, 2, 3]);
}

#[test]
fn apply_snapshot_cases() {
    let mut s = storage_3_to_5();
    let mut old = Snapshot::new();
    old.metadata.index = 3;
    old.metadata.term = 3;
    assert!(matches!(s.wl().apply_snapshot(old), Err(Error::Store(StorageError::SnapshotOutOfDate))));
    let mut newer = Snapshot::new();
    newer.metadata.index = 10;
    newer.metadata.term = 8;
    assert!(s.wl().apply_snapshot(newer).is_ok());
    assert_eq!(s.first_index().unwrap(), 11);
    assert_eq!(s.last_index().unwrap(), 10);
    assert_eq!(s.term(10).unwrap(), 8);
    assert!(is_err(&s.term(9), StorageError::Compacted));
    assert!(is_err(&s.term(11), StorageError::Unavailable));
}

#[test]
fn set_hard_state_is_read_back() {
    let mut s = MemStorage::new();
    let mut hs = HardState::new();
    hs.set_term(2);
    hs.set_vote(1);
    hs.set_commit(0);
    s.wl().set_hard_state(hs);
    assert!(s.initial_state().unwrap().hard_state == hs);
}
