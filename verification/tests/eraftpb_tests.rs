use rs_raft::eraftpb::{ConfState, Entry, EntryType, HardState, Message, Snapshot};

#[test]
fn hard_state_set_get_clean() {
    let mut hs = HardState::new();
    assert_eq!((hs.get_term(), hs.get_vote(), hs.get_commit()), (0, 0, 0));
    hs.set_term(3);
    hs.set_vote(7);
    hs.set_commit(11);
    assert_eq!((hs.get_term(), hs.get_vote(), hs.get_commit()), (3, 7, 11));
    hs.clean_vote();
    assert_eq!((hs.get_term(), hs.get_vote(), hs.get_commit()), (3, 0, 11));
    hs.clean_term();
    hs.clean_commit();
    assert!(hs == HardState::new());
}

#[test]
fn conf_state_nodes_and_learners() {
    let mut cs = ConfState::new();
    assert!(cs.get_nodes().is_empty());
    cs.set_nodes(vec![1, 2, 3]);
    cs.set_learners(vec![4]);
    assert_eq!(cs.get_nodes(), &[1, 2, 3]);
    assert_eq!(cs.get_learners(), &[4]);
    cs.mut_nodes().push(5);
    assert_eq!(cs.get_nodes(), &[1, 2, 3, 5]);
    cs.mut_learners().push(6);
    assert_eq!(cs.take_learners(), vec![4, 6]);
    assert!(cs.get_learners().is_empty());
    assert_eq!(cs.take_nodes(), vec![1, 2, 3, 5]);
    assert!(cs.get_nodes().is_empty());
    cs.set_nodes(vec![9]);
    cs.set_learners(vec![8]);
    cs.clear_nodes();
    cs.clear_learners();
    assert!(cs.get_nodes().is_empty() && cs.get_learners().is_empty());
    let c2 = ConfState { nodes: vec![1], learners: vec![2] }.clone();
    assert_eq!((c2.nodes, c2.learners), (vec![1], vec![2]));
}

fn entry(term: u64, index: u64) -> Entry {
    let mut e = Entry::new();
    e.set_term(term);
    e.set_index(index);
    e
}

#[test]
fn entry_encoded_sizes() {
    // all fields default: nothing is encoded
    assert_eq!(Entry::new().compute_size(), 0);
    // term and index: one tag byte and one value byte each
    assert_eq!(entry(1, 1).compute_size(), 4);
    // a term above 127 takes two varint bytes
    assert_eq!(entry(300, 0).compute_size(), 3);
    let mut e = Entry::new();
    e.data = vec![1, 2, 3];
    assert_eq!(e.compute_size(), 5);
    e.context = vec![9; 200];
    // context: tag, two length bytes, 200 bytes
    assert_eq!(e.compute_size(), 5 + 1 + 2 + 200);
    let mut f = Entry::new();
    f.sync_log = true;
    assert_eq!(f.compute_size(), 2);
    f.entry_type = EntryType::EntryConfChange;
    assert_eq!(f.compute_size(), 4);
    let g = entry(u64::MAX, 1);
    assert_eq!(g.compute_size(), 1 + 10 + 1 + 1);
}

#[test]
fn entry_clone_keeps_fields() {
    let mut e = entry(2, 5);
    e.data = vec![7];
    let c = e.clone();
    assert_eq!((c.get_term(), c.get_index(), c.data.clone()), (2, 5, vec![7]));
    assert_eq!(c.get_entry_type(), EntryType::EntryNormal);
}

#[test]
fn snapshot_and_message_defaults() {
    let s = Snapshot::new();
    assert_eq!((s.metadata.index, s.metadata.term), (0, 0));
    let c = s.clone();
    assert!(c.data.is_empty());
    let mut m = Message::new();
    m.from = 3;
    m.to = 4;
    m.context = vec![1];
    assert_eq!((m.get_from(), m.get_to()), (3, 4));
    assert_eq!(m.get_context(), &[1]);
    assert!(m.get_entries().is_empty());
}
