use fxhash::FxHashSet;
use rs_raft::progress::{CandidacyStatus, Inflights, Progress, ProgressSet, ProgressState};
use rs_raft::Error;

fn drain(ins: &Inflights, expect_len: usize) -> bool {
    ins.full() == (expect_len == ins.cap())
}

#[test]
fn inflights_add_until_full() {
    let mut ins = Inflights::new(10);
    assert_eq!(ins.cap(), 10);
    assert!(!ins.full());
    for i in 0..10 {
        ins.add(i);
    }
    assert!(ins.full());
    assert!(drain(&ins, 10));
}

#[test]
fn inflights_free_to_frees_prefix() {
    let mut ins = Inflights::new(10);
    for i in 0..10 {
        ins.add(i);
    }
    ins.free_to(4);
    // five freed: room for exactly five more
    for i in 10..15 {
        assert!(!ins.full());
        ins.add(i);
    }
    assert!(ins.full());
    // wrapped around: freeing up to 8 leaves 9..15, six items
    ins.free_to(8);
    for i in 15..19 {
        ins.add(i);
    }
    assert!(ins.full());
    // freeing below the oldest frees nothing
    ins.free_to(2);
    assert!(ins.full());
    // freeing up to the newest empties the window
    ins.free_to(18);
    for i in 0..10 {
        assert!(!ins.full());
        ins.add(100 + i);
    }
    assert!(ins.full());
}

#[test]
fn inflights_free_stops_at_first_larger() {
    let mut ins = Inflights::new(4);
    ins.add(5);
    ins.add(9);
    ins.add(3);
    ins.free_to(6);
    // 5 is freed, 9 stops the scan, 3 stays behind it
    ins.add(1);
    ins.add(2);
    assert!(ins.full());
}

#[test]
fn inflights_free_first_one() {
    let mut ins = Inflights::new(10);
    for i in 0..10 {
        ins.add(i);
    }
    ins.free_first_one();
    ins.add(10);
    assert!(ins.full());
}

#[test]
fn inflights_reset_empties() {
    let mut ins = Inflights::new(3);
    ins.add(1);
    ins.add(2);
    ins.reset();
    ins.add(7);
    ins.add(8);
    ins.add(9);
    assert!(ins.full());
    assert_eq!(ins.cap(), 3);
}

#[test]
fn inflights_zero_capacity_is_full() {
    let ins = Inflights::new(0);
    assert!(ins.full());
}

#[test]
fn progress_new_starts_at_next_idx() {
    let p = Progress::new(5, 10);
    assert_eq!(p.matched, 0);
    assert_eq!(p.next_idx, 5);
    assert_eq!(p.state, ProgressState::Probe);
    assert!(!p.paused);
    assert_eq!(p.ins.cap(), 10);
    assert_eq!(ProgressState::default(), ProgressState::Probe);
}

#[test]
fn progress_become_states() {
    let mut p = Progress::new(0, 10);
    p.matched = 1;
    p.next_idx = 5;
    p.paused = true;
    p.become_replicate();
    assert_eq!(p.state, ProgressState::Replicate);
    assert_eq!(p.next_idx, 2);
    assert!(!p.paused);
    p.ins.add(3);
    p.become_snapshot(10);
    assert_eq!(p.state, ProgressState::Snapshot);
    assert_eq!(p.next_idx, 10);
    assert!(!p.ins.full());
    p.pending_snapshot = 10;
    p.become_probe();
    assert_eq!(p.state, ProgressState::Probe);
    assert_eq!(p.next_idx, 11);
    assert_eq!(p.pending_snapshot, 0);
    p.matched = 20;
    p.become_probe();
    assert_eq!(p.next_idx, 21);
}

#[test]
fn progress_maybe_update() {
    let mut p = Progress::new(0, 10);
    p.matched = 3;
    p.next_idx = 5;
    p.paused = true;
    assert!(!p.maybe_update(2));
    assert_eq!((p.matched, p.next_idx, p.paused), (3, 5, true));
    assert!(p.maybe_update(4));
    assert_eq!((p.matched, p.next_idx, p.paused), (4, 5, false));
    assert!(p.maybe_update(6));
    assert_eq!((p.matched, p.next_idx), (6, 7));
    p.optimistic_update(9);
    assert_eq!(p.next_idx, 10);
}

#[test]
fn progress_maybe_decr_to() {
    // replicate: a rejection at or below the match is stale
    let mut p = Progress::new(0, 10);
    p.state = ProgressState::Replicate;
    p.matched = 5;
    p.next_idx = 10;
    assert!(!p.maybe_decr_to(5, 5));
    assert_eq!(p.next_idx, 10);
    assert!(p.maybe_decr_to(9, 9));
    assert_eq!(p.next_idx, 6);
    // probe: only a rejection of next_idx - 1 counts
    let mut q = Progress::new(0, 10);
    q.next_idx = 10;
    q.paused = true;
    assert!(!q.maybe_decr_to(5, 5));
    assert_eq!(q.next_idx, 10);
    assert!(q.maybe_decr_to(9, 3));
    assert_eq!(q.next_idx, 4);
    assert!(!q.paused);
    assert!(q.maybe_decr_to(3, 20));
    assert_eq!(q.next_idx, 3);
    q.next_idx = 1;
    assert!(q.maybe_decr_to(0, 0));
    assert_eq!(q.next_idx, 1);
    q.next_idx = 0;
    assert!(!q.maybe_decr_to(0, 0));
}

#[test]
fn progress_is_paused() {
    let mut p = Progress::new(0, 1);
    assert!(!p.is_paused());
    p.pause();
    assert!(p.is_paused());
    p.resume();
    assert!(!p.is_paused());
    p.state = ProgressState::Replicate;
    assert!(!p.is_paused());
    p.ins.add(1);
    assert!(p.is_paused());
    p.state = ProgressState::Snapshot;
    assert!(p.is_paused());
}

#[test]
fn progress_snapshot_abort_and_failure() {
    let mut p = Progress::new(0, 1);
    p.become_snapshot(10);
    p.pending_snapshot = 10;
    p.matched = 9;
    assert!(!p.maybe_snapshot_abort());
    p.matched = 10;
    assert!(p.maybe_snapshot_abort());
    p.snapshot_failure();
    assert_eq!(p.pending_snapshot, 0);
}

fn with_matched(m: u64) -> Progress {
    let mut p = Progress::new(0, 4);
    p.matched = m;
    p
}

#[test]
fn progress_set_insert_and_remove() {
    let mut prs = ProgressSet::new();
    assert!(prs.insert_voter(1, with_matched(0)).is_ok());
    assert!(prs.insert_learner(2, with_matched(0)).is_ok());
    match prs.insert_voter(1, with_matched(0)) {
        Err(Error::Exists(1, g)) => assert_eq!(g, "voters"),
        _ => panic!("expected exists"),
    }
    match prs.insert_voter(2, with_matched(0)) {
        Err(Error::Exists(2, g)) => assert_eq!(g, "learners"),
        _ => panic!("expected exists"),
    }
    match prs.insert_learner(1, with_matched(0)) {
        Err(Error::Exists(1, g)) => assert_eq!(g, "votes"),
        _ => panic!("expected exists"),
    }
    assert!(prs.voter_ids().contains(&1));
    assert!(prs.learner_ids().contains(&2));
    assert!(prs.get(1).is_some());
    assert!(prs.get(3).is_none());
    let removed = prs.remove(1);
    assert!(removed.is_some());
    assert!(prs.get(1).is_none());
    assert!(!prs.voter_ids().contains(&1));
    assert!(prs.remove(1).is_none());
}

#[test]
fn progress_set_promote_learner() {
    let mut prs = ProgressSet::with_capacity(2, 1);
    prs.insert_voter(1, with_matched(0)).unwrap();
    match prs.promote_learner(1) {
        Err(Error::NotExists(1, g)) => assert_eq!(g, "learners"),
        _ => panic!("expected not-exists"),
    }
    prs.insert_learner(2, with_matched(0)).unwrap();
    match prs.promote_learner(2) {
        Err(Error::NotExists(2, g)) => assert_eq!(g, "voters"),
        _ => panic!("expected not-exists"),
    }
    assert!(!prs.learner_ids().contains(&2));
    assert!(!prs.voter_ids().contains(&2));
    assert!(prs.get(2).is_some());
}

#[test]
fn progress_set_get_mut_changes_in_place() {
    let mut prs = ProgressSet::new();
    prs.insert_voter(1, with_matched(0)).unwrap();
    prs.get_mut(1).unwrap().matched = 42;
    assert_eq!(prs.get(1).unwrap().matched, 42);
    assert!(prs.get_mut(9).is_none());
}

#[test]
fn progress_set_maximal_committed_index() {
    let mut prs = ProgressSet::new();
    prs.insert_voter(1, with_matched(5)).unwrap();
    assert_eq!(prs.maximal_committed_index(), 5);
    prs.insert_voter(2, with_matched(3)).unwrap();
    prs.insert_voter(3, with_matched(9)).unwrap();
    // sorted descending 9, 5, 3: the middle one
    assert_eq!(prs.maximal_committed_index(), 5);
    prs.insert_voter(4, with_matched(9)).unwrap();
    // 9, 9, 5, 3: index 2
    assert_eq!(prs.maximal_committed_index(), 5);
    prs.insert_voter(5, with_matched(7)).unwrap();
    // 9, 9, 7, 5, 3
    assert_eq!(prs.maximal_committed_index(), 7);
    // learners do not count
    prs.insert_learner(6, with_matched(100)).unwrap();
    assert_eq!(prs.maximal_committed_index(), 7);
}

#[test]
fn progress_set_has_quorum() {
    let mut prs = ProgressSet::new();
    for id in 1..=5 {
        prs.insert_voter(id, with_matched(0)).unwrap();
    }
    let mut q: FxHashSet<u64> = FxHashSet::default();
    q.insert(1);
    q.insert(2);
    assert!(!prs.has_quorum(&q));
    q.insert(3);
    assert!(prs.has_quorum(&q));
}

#[test]
fn progress_set_candidacy_status() {
    let mut prs = ProgressSet::new();
    for id in 1..=3 {
        prs.insert_voter(id, with_matched(0)).unwrap();
    }
    assert_eq!(prs.candidacy_status(1, &[(1, true), (2, true)]), CandidacyStatus::Elected);
    assert_eq!(prs.candidacy_status(1, &[(1, true)]), CandidacyStatus::Ineligible);
    assert_eq!(prs.candidacy_status(1, &[(1, true), (2, false), (3, false)]), CandidacyStatus::Eligible);
    assert_eq!(prs.candidacy_status(1, &[(2, false)]), CandidacyStatus::Ineligible);
    assert_eq!(prs.candidacy_status(1, &[]), CandidacyStatus::Ineligible);
}

#[test]
fn progress_set_quorum_recently_active() {
    let mut prs = ProgressSet::new();
    for id in 1..=5 {
        prs.insert_voter(id, with_matched(0)).unwrap();
    }
    prs.insert_learner(6, with_matched(0)).unwrap();
    prs.get_mut(2).unwrap().recent_active = true;
    prs.get_mut(6).unwrap().recent_active = true;
    prs.get_mut(1).unwrap().recent_active = true;
    // self (1) and 2: two of five
    assert!(!prs.quorum_recently_active(1));
    // flags were cleared, except that of the node itself
    assert!(prs.get(1).unwrap().recent_active);
    assert!(!prs.get(2).unwrap().recent_active);
    assert!(!prs.get(6).unwrap().recent_active);
    prs.get_mut(2).unwrap().recent_active = true;
    prs.get_mut(3).unwrap().recent_active = true;
    assert!(prs.quorum_recently_active(1));
    assert!(!prs.get(3).unwrap().recent_active);
}

#[test]
fn progress_set_listings() {
    let mut prs = ProgressSet::new();
    prs.insert_voter(1, with_matched(1)).unwrap();
    prs.insert_voter(2, with_matched(2)).unwrap();
    prs.insert_learner(3, with_matched(3)).unwrap();
    let mut v: Vec<(u64, u64)> = prs.voters().iter().map(|(id, p)| (*id, p.matched)).collect();
    v.sort();
    assert_eq!(v, vec![(1, 1), (2, 2)]);
    let l: Vec<(u64, u64)> = prs.learners().iter().map(|(id, p)| (*id, p.matched)).collect();
    assert_eq!(l, vec![(3, 3)]);
    assert_eq!(prs.iter().len(), 3);
}

#[test]
fn majorities_of_five_intersect() {
    // every pair of three-voter subsets of five voters shares a voter
    let voters = [1u64, 2, 3, 4, 5];
    let mut subsets = vec![];
    for a in 0..5 {
        for b in a + 1..5 {
            for c in b + 1..5 {
                subsets.push([voters[a], voters[b], voters[c]]);
            }
        }
    }
    for s in &subsets {
        for t in &subsets {
            assert!(s.iter().any(|x| t.contains(x)));
        }
    }
}

#[test]
fn progress_set_default_and_clone() {
    let mut ps = ProgressSet::default();
    assert!(ps.voter_ids().is_empty());
    let mut p = Progress::new(3, 10);
    p.matched = 2;
    ps.insert_voter(1, p).unwrap();
    ps.insert_learner(2, Progress::new(3, 10)).unwrap();
    let copy = ps.clone();
    assert_eq!(copy.voter_ids(), ps.voter_ids());
    assert_eq!(copy.learner_ids(), ps.learner_ids());
    assert_eq!(copy.get(1).unwrap().matched, 2);
    assert_eq!(copy.get(1).unwrap().next_idx, 3);
}

#[test]
fn inflights_first_slot_after_freeing_all() {
    let mut ins = Inflights::new(3);
    ins.add(1);
    ins.add(2);
    ins.free_to(2);
    assert!(!ins.full());
    ins.add(3);
    ins.free_first_one();
    ins.add(4);
    ins.add(5);
    ins.add(6);
    assert!(ins.full());
}
