use rs_raft::eraftpb::Entry;
use rs_raft::util::{limit_size, NO_LIMIT};

fn entry(term: u64, index: u64) -> Entry {
    let mut e = Entry::new();
    e.set_term(term);
    e.set_index(index);
    e
}

fn batch() -> Vec<Entry> {
    (1..=5).map(|i| entry(1, i)).collect()
}

#[test]
fn no_limit_keeps_all() {
    let mut es = batch();
    limit_size(&mut es, NO_LIMIT);
    assert_eq!(es.len(), 5);
}

#[test]
fn limit_zero_keeps_first() {
    let mut es = batch();
    limit_size(&mut es, 0);
    assert_eq!(es.len(), 1);
}

#[test]
fn limit_counts_running_size() {
    // each entry encodes in 4 bytes
    let mut es = batch();
    limit_size(&mut es, 8);
    assert_eq!(es.len(), 2);
    let mut es = batch();
    limit_size(&mut es, 11);
    assert_eq!(es.len(), 2);
    let mut es = batch();
    limit_size(&mut es, 12);
    assert_eq!(es.len(), 3);
    let mut es = batch();
    limit_size(&mut es, 20);
    assert_eq!(es.len(), 5);
    // the kept entries fit the limit
    assert!(es.iter().map(|e| e.compute_size() as u64).sum::<u64>() <= 20);
}

#[test]
fn single_entry_is_kept() {
    let mut es = vec![entry(1, 1)];
    limit_size(&mut es, 0);
    assert_eq!(es.len(), 1);
    let mut none: Vec<Entry> = vec![];
    limit_size(&mut none, 0);
    assert!(none.is_empty());
}

#[test]
fn empty_entries_do_not_count() {
    // a first entry of size zero leaves the size at zero, so the next is kept too
    let mut es = vec![Entry::new(), entry(1, 1), entry(1, 2)];
    limit_size(&mut es, 0);
    assert_eq!(es.len(), 2);
}
