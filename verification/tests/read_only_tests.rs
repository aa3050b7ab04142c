use rs_raft::eraftpb::{Entry, Message};
use rs_raft::read_only::{ReadOnly, ReadOnlyOption, ReadState};

fn request(ctx: &[u8]) -> Message {
    let mut m = Message::new();
    let mut e = Entry::new();
    e.data = ctx.to_vec();
    m.entries = vec![e];
    m
}

fn ack(ctx: &[u8], from: u64, to: u64) -> Message {
    let mut m = Message::new();
    m.context = ctx.to_vec();
    m.from = from;
    m.to = to;
    m
}

#[test]
fn add_request_queues_once() {
    let mut ro = ReadOnly::new(ReadOnlyOption::Safe);
    assert_eq!(ro.pending_read_count(), 0);
    assert!(ro.last_pending_request_ctx().is_none());
    ro.add_request(5, request(b"a"));
    ro.add_request(6, request(b"b"));
    ro.add_request(7, request(b"a"));
    assert_eq!(ro.pending_read_count(), 2);
    assert_eq!(ro.last_pending_request_ctx(), Some(b"b".to_vec()));
    assert_eq!(ro.pending_read_index.get(&b"a".to_vec()).unwrap().index, 5);
}

#[test]
fn recv_ack_collects_acks_with_self() {
    let mut ro = ReadOnly::new(ReadOnlyOption::Safe);
    ro.add_request(5, request(b"a"));
    let acks = ro.recv_ack(&ack(b"a", 2, 1));
    let mut v: Vec<u64> = acks.into_iter().collect();
    v.sort();
    assert_eq!(v, vec![1, 2]);
    let acks = ro.recv_ack(&ack(b"a", 3, 1));
    assert_eq!(acks.len(), 3);
    // the node itself is not recorded as an ack
    assert_eq!(ro.pending_read_index.get(&b"a".to_vec()).unwrap().acks.len(), 2);
    assert!(ro.recv_ack(&ack(b"zz", 2, 1)).is_empty());
}

#[test]
fn advance_takes_reads_up_to_context() {
    let mut ro = ReadOnly::new(ReadOnlyOption::LeaseBase);
    ro.add_request(5, request(b"a"));
    ro.add_request(6, request(b"b"));
    ro.add_request(7, request(b"c"));
    assert!(ro.advance(&ack(b"x", 0, 0)).is_empty());
    assert_eq!(ro.pending_read_count(), 3);
    let done = ro.advance(&ack(b"b", 0, 0));
    assert_eq!(done.iter().map(|s| s.index).collect::<Vec<_>>(), vec![5, 6]);
    assert_eq!(ro.pending_read_count(), 1);
    assert_eq!(ro.last_pending_request_ctx(), Some(b"c".to_vec()));
    assert!(!ro.pending_read_index.contains_key(&b"a".to_vec()));
    let done = ro.advance(&ack(b"c", 0, 0));
    assert_eq!(done.len(), 1);
    assert_eq!(ro.pending_read_count(), 0);
    assert_eq!(ro.option, ReadOnlyOption::LeaseBase);
}

#[test]
fn read_state_holds_index_and_context() {
    let rs = ReadState { index: 3, request_ctx: vec![1, 2] };
    assert_eq!(rs.index, 3);
    assert_eq!(rs.request_ctx, vec![1, 2]);
}

#[test]
fn default_read_only_and_clone() {
    let mut ro = ReadOnly::default();
    assert_eq!(ro.option, ReadOnlyOption::Safe);
    assert_eq!(ro.pending_read_count(), 0);
    ro.add_request(5, request(b"a"));
    let copy = ro.clone();
    assert_eq!(copy.pending_read_count(), 1);
    assert_eq!(copy.pending_read_index.get(&b"a".to_vec()).unwrap().index, 5);
    let rs = ReadState::default();
    assert_eq!(rs.index, 0);
    assert!(rs.request_ctx.is_empty());
}
