use rs_raft::eraftpb::{Entry, Snapshot};
use rs_raft::raft_log::{RaftLog, NO_LIMIT};
use rs_raft::storage::MemStorage;
use rs_raft::{Error, StorageError};

fn entry(term: u64, index: u64) -> Entry {
    let mut e = Entry::new();
    e.set_term(term);
    e.set_index(index);
    e
}

fn terms(v: &[Entry]) -> Vec<(u64, u64)> {
    v.iter().map(|e| (e.index, e.term)).collect()
}

/// Storage holding 1..=3 at terms 1, 2, 3.
fn stored_log() -> RaftLog<MemStorage> {
    let mut s = MemStorage::new();
    s.wl().append(&[entry(1, 1), entry(2, 2), entry(3, 3)]).unwrap();
    RaftLog::new(s, "log".to_string())
}

#[test]
fn new_log_positions() {
    let log = stored_log();
    assert_eq!(log.committed, 0);
    assert_eq!(log.applied, 0);
    assert_eq!(log.unstable.offset, 4);
    assert_eq!(log.first_index(), 1);
    assert_eq!(log.last_index(), 3);
    assert_eq!(log.last_term(), 3);
    assert!(log.unstable_entries().is_none());
    assert_eq!(log.tag, "log");
    assert_eq!(log.get_append(), 0);
}

#[test]
fn term_lookups() {
    let mut log = stored_log();
    log.append(&[entry(4, 4), entry(4, 5)]);
    assert_eq!(log.term(0).unwrap(), 0);
    assert_eq!(log.term(2).unwrap(), 2);
    assert_eq!(log.term(4).unwrap(), 4);
    assert_eq!(log.term(5).unwrap(), 4);
    // outside the log
    assert_eq!(log.term(6).unwrap(), 0);
    assert!(log.match_term(3, 3));
    assert!(!log.match_term(3, 4));
    assert!(log.match_term(0, 0));
}

#[test]
fn term_of_compacted_entry_is_an_error() {
    let mut s = MemStorage::new();
    s.wl().append(&[entry(1, 1), entry(2, 2), entry(3, 3)]).unwrap();
    let mut log = RaftLog::new(s, "log".to_string());
    log.mut_store().wl().compact(2).unwrap();
    assert!(matches!(log.term(1), Ok(0)));
    assert_eq!(log.term(2).unwrap(), 2);
    assert_eq!(log.first_index(), 3);
}

#[test]
fn append_returns_last_index() {
    let mut log = stored_log();
    assert_eq!(log.append(&[]), 3);
    assert_eq!(log.append(&[entry(4, 4)]), 4);
    assert_eq!(log.append(&[entry(5, 4), entry(5, 5)]), 5);
    assert_eq!(terms(log.unstable_entries().unwrap()), vec![(4, 5), (5, 5)]);
    assert_eq!(log.last_term(), 5);
}

#[test]
fn find_conflict_cases() {
    let log = stored_log();
    assert_eq!(log.find_conflict(&[]), 0);
    assert_eq!(log.find_conflict(&[entry(1, 1), entry(2, 2)]), 0);
    assert_eq!(log.find_conflict(&[entry(1, 1), entry(3, 2)]), 2);
    assert_eq!(log.find_conflict(&[entry(2, 3), entry(4, 4)]), 3);
    // new entries past the end conflict at the first new one
    assert_eq!(log.find_conflict(&[entry(3, 3), entry(4, 4), entry(4, 5)]), 4);
}

#[test]
fn maybe_append_rejects_mismatch() {
    let mut log = stored_log();
    assert_eq!(log.maybe_append(3, 2, 3, &[entry(4, 4)]), None);
    assert_eq!(log.last_index(), 3);
    assert_eq!(log.committed, 0);
}

#[test]
fn maybe_append_appends_and_commits() {
    let mut log = stored_log();
    assert_eq!(log.maybe_append(3, 3, 3, &[entry(4, 4), entry(4, 5)]), Some(5));
    assert_eq!(log.last_index(), 5);
    assert_eq!(log.term(5).unwrap(), 4);
    assert_eq!(log.committed, 3);
    // entries already held are kept; the commit index follows the leader's
    assert_eq!(log.maybe_append(3, 3, 5, &[entry(4, 4)]), Some(4));
    assert_eq!(log.last_index(), 5);
    assert_eq!(log.committed, 4);
    // a conflicting entry replaces the tail from its index on
    assert_eq!(log.maybe_append(4, 4, 4, &[entry(6, 5), entry(6, 6)]), Some(6));
    assert_eq!(log.term(5).unwrap(), 6);
    assert_eq!(log.term(6).unwrap(), 6);
    assert_eq!(log.committed, 4);
}

#[test]
fn commit_and_apply() {
    let mut log = stored_log();
    log.commit_to(2);
    assert_eq!(log.committed, 2);
    log.commit_to(1);
    assert_eq!(log.committed, 2);
    log.applied_to(0);
    assert_eq!(log.applied, 0);
    log.applied_to(2);
    assert_eq!(log.applied, 2);
    assert_eq!(log.get_append(), 2);
}

#[test]
fn stable_to_moves_entries_out_of_the_tail() {
    let mut log = stored_log();
    log.append(&[entry(4, 4), entry(4, 5)]);
    log.stable_to(4, 3);
    assert_eq!(log.unstable.offset, 4);
    log.stable_to(4, 4);
    assert_eq!(log.unstable.offset, 5);
    assert_eq!(terms(log.unstable_entries().unwrap()), vec![(5, 4)]);
    log.stable_snapshot_to(1);
    assert!(log.get_unstable().snapshot.is_none());
}

#[test]
fn slice_spans_storage_and_tail() {
    let mut log = stored_log();
    log.append(&[entry(4, 4), entry(4, 5)]);
    let all = log.slice(1, 6, NO_LIMIT).unwrap();
    assert_eq!(terms(&all), vec![(1, 1), (2, 2), (3, 3), (4, 4), (5, 4)]);
    let mid = log.slice(2, 5, NO_LIMIT).unwrap();
    assert_eq!(terms(&mid), vec![(2, 2), (3, 3), (4, 4)]);
    let tail = log.slice(4, 6, NO_LIMIT).unwrap();
    assert_eq!(terms(&tail), vec![(4, 4), (5, 4)]);
    assert!(log.slice(3, 3, NO_LIMIT).unwrap().is_empty());
    // a size limit of zero keeps one entry
    assert_eq!(log.slice(1, 6, 0).unwrap().len(), 1);
    // each entry takes 4 bytes: storage's limit stops at two, and that is all
    assert_eq!(terms(&log.slice(1, 6, 8).unwrap()), vec![(1, 1), (2, 2)]);
    assert_eq!(log.slice(1, 6, 12).unwrap().len(), 3);
    assert_eq!(log.slice(1, 6, 16).unwrap().len(), 4);
}

#[test]
fn slice_before_first_index_is_compacted() {
    let mut s = MemStorage::new();
    s.wl().append(&[entry(1, 1), entry(2, 2), entry(3, 3)]).unwrap();
    s.wl().compact(2).unwrap();
    let log = RaftLog::new(s, "log".to_string());
    assert!(matches!(log.slice(1, 3, NO_LIMIT), Err(Error::Store(StorageError::Compacted))));
    assert!(matches!(log.entries(1, NO_LIMIT), Err(Error::Store(StorageError::Compacted))));
}

#[test]
fn entries_from_index() {
    let mut log = stored_log();
    log.append(&[entry(4, 4)]);
    assert_eq!(terms(&log.entries(3, NO_LIMIT).unwrap()), vec![(3, 3), (4, 4)]);
    assert!(log.entries(5, NO_LIMIT).unwrap().is_empty());
}

#[test]
fn snapshot_in_tail_sets_first_index() {
    let mut log = stored_log();
    let mut snap = Snapshot::new();
    snap.metadata.index = 7;
    snap.metadata.term = 3;
    log.unstable.restore(snap);
    assert_eq!(log.first_index(), 8);
    assert_eq!(log.last_index(), 7);
}

#[test]
fn summary_text() {
    let mut log = stored_log();
    log.append(&[entry(4, 4), entry(4, 5)]);
    log.commit_to(3);
    log.applied_to(2);
    assert_eq!(
        log.to_string(),
        "committed:3, applied=2, unstable.offset=4, unstable.entries.len()=2"
    );
}

#[test]
fn slice_before_first_index_is_compacted_even_when_log_is_behind_snapshot() {
    let mut log = stored_log();
    let mut snap = Snapshot::new();
    snap.metadata.index = 10;
    snap.metadata.term = 1;
    log.unstable.restore(snap);
    log.append(&[entry(1, 5)]);
    assert_eq!(log.first_index(), 11);
    assert_eq!(log.last_index(), 5);
    assert!(matches!(log.slice(3, 4, NO_LIMIT), Err(Error::Store(StorageError::Compacted))));
}

#[test]
fn maybe_append_leaves_every_given_entry_matching() {
    let mut log = stored_log();
    let given = [entry(2, 3), entry(5, 4), entry(5, 5)];
    assert_eq!(log.maybe_append(2, 2, 0, &given), Some(5));
    for e in given.iter() {
        assert!(log.match_term(e.index, e.term));
    }
    assert_eq!(log.term(3).unwrap(), 2);
}

#[test]
fn find_conflict_is_first_mismatch() {
    let log = stored_log();
    assert_eq!(log.find_conflict(&[entry(1, 1), entry(2, 2), entry(3, 3)]), 0);
    assert_eq!(log.find_conflict(&[entry(1, 1), entry(5, 2), entry(5, 3)]), 2);
    assert_eq!(log.find_conflict(&[entry(1, 1), entry(2, 2), entry(3, 3), entry(3, 4)]), 4);
}

#[test]
fn slice_gives_consecutive_entries_with_the_logs_terms() {
    let mut log = stored_log();
    log.append(&[entry(4, 4), entry(4, 5)]);
    let v = log.slice(2, 6, NO_LIMIT).unwrap();
    assert_eq!(terms(&v), vec![(2, 2), (3, 3), (4, 4), (5, 4)]);
    for (k, e) in v.iter().enumerate() {
        assert_eq!(e.index, 2 + k as u64);
        assert_eq!(log.term(e.index).unwrap(), e.term);
    }
}

#[test]
fn slice_with_tiny_limit_still_reads_one_entry() {
    let mut log = stored_log();
    log.append(&[entry(4, 4), entry(4, 5)]);
    let v = log.slice(2, 6, 0).unwrap();
    assert_eq!(terms(&v), vec![(2, 2)]);
    let all = log.slice(1, 6, NO_LIMIT).unwrap();
    assert_eq!(all.len(), 5);
}
