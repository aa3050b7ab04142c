//! What a leader knows of each follower's log: how far it matches, what to
//! send next, and the window of appends still in flight.
use vstd::prelude::*;
use fxhash::{FxHashMap, FxHashSet};
use crate::errors::Error;
use crate::fx::{
    fx_map_get, fx_map_get_mut, fx_map_insert, fx_map_contains_key, fx_map_new, fx_map_progress,
    fx_map_remove, fx_map_with_capacity, fx_set_contains, fx_set_ids, fx_set_insert, fx_set_len,
    fx_set_new, fx_set_remove, fx_set_to_vec, fx_set_with_capacity, fx_map_entries, fx_map_clone,
    fx_set_clone,
};

verus! {

/// The number of votes that make a majority of `total` voters.
pub open spec fn majority_spec(total: nat) -> nat {
    total / 2 + 1
}

/// A majority is the least number of voters that is more than half of
/// them: any count at least this is more than half, and one less is not.
pub proof fn law_majority_is_least_quorum(total: nat)
    ensures
        2 * majority_spec(total) > total,
        2 * (majority_spec(total) - 1) <= total,
        forall|c: nat| #[trigger] (2 * c) > total <==> c >= majority_spec(total),
{
}

fn majority(total: usize) -> (r: usize)
    ensures
        r == majority_spec(total as nat),
{
    (total / 2) + 1
}

/// How the leader replicates to a follower.
#[derive(Debug, Clone, Copy, PartialEq, Eq, Structural)]
pub enum ProgressState {
    /// The leader sends one append at a time and waits for the answer.
    Probe,
    /// The leader streams appends optimistically.
    Replicate,
    /// The follower is being sent a snapshot.
    Snapshot,
}

impl Default for ProgressState {
    fn default() -> (r: ProgressState)
        ensures
            r == ProgressState::Probe,
    {
        ProgressState::Probe
    }
}

/// The position of the `k`-th item of a ring of capacity `cap` whose first
/// item sits at `start`.
pub open spec fn ring_slot(start: int, k: int, cap: int) -> int {
    if start + k < cap {
        start + k
    } else {
        start + k - cap
    }
}

/// The number of leading items of `s` that are at most `to`.
pub open spec fn leading_at_most(s: Seq<u64>, to: u64) -> nat
    decreases s.len(),
{
    if s.len() == 0 {
        0
    } else if s[0] <= to {
        1 + leading_at_most(s.drop_first(), to)
    } else {
        0
    }
}

/// Freeing up to an index no lower than any in flight empties the window.
pub proof fn law_free_to_at_least_all(s: Seq<u64>, to: u64)
    requires
        forall|i: int| 0 <= i < s.len() ==> s[i] <= to,
    ensures
        leading_at_most(s, to) == s.len(),
        s.skip(leading_at_most(s, to) as int) == Seq::<u64>::empty(),
    decreases s.len(),
{
    if s.len() > 0 {
        assert forall|i: int| 0 <= i < s.drop_first().len() implies s.drop_first()[i] <= to by {
            assert(s.drop_first()[i] == s[i + 1]);
        }
        law_free_to_at_least_all(s.drop_first(), to);
    }
    assert(s.skip(s.len() as int) =~= Seq::<u64>::empty());
}

/// Freeing up to an index lower than the oldest in flight frees nothing.
pub proof fn law_free_to_below_first(s: Seq<u64>, to: u64)
    requires
        s.len() > 0,
        to < s[0],
    ensures
        s.skip(leading_at_most(s, to) as int) == s,
{
    assert(s.skip(0) =~= s);
}

/// The largest capacity that `Vec::with_capacity` accepts for `u64` items:
/// `isize::MAX` bytes.
pub open spec fn max_inflights_capacity() -> nat {
    (isize::MAX as nat) / 8
}

/// A bounded FIFO window of the indices of appends sent but not yet
/// acknowledged, kept in a ring buffer.
#[derive(Debug, Clone)]
pub struct Inflights {
    start: usize,
    count: usize,
    buffer: Vec<u64>,
    cap: usize,
}

impl View for Inflights {
    type V = Seq<u64>;

    /// The indices in flight, oldest first.
    closed spec fn view(&self) -> Seq<u64> {
        Seq::new(
            self.count as nat,
            |i: int| self.buffer@[ring_slot(self.start as int, i, self.cap as int)],
        )
    }
}

impl Inflights {
    /// The ring is consistent: every item in flight sits in a filled slot.
    pub closed spec fn wf(&self) -> bool {
        &&& self.cap <= max_inflights_capacity()
        &&& self.buffer@.len() <= self.cap
        &&& self.count <= self.cap
        &&& (self.cap == 0 ==> self.start == 0)
        &&& (self.cap > 0 ==> self.start < self.cap)
        &&& (self.buffer@.len() < self.cap ==> self.start + self.count <= self.buffer@.len())
    }

    /// The most indices that can be in flight at once.
    pub closed spec fn capacity(&self) -> nat {
        self.cap as nat
    }

    /// The slot of the ring where the oldest item sits, or would sit.
    pub closed spec fn first_slot(&self) -> nat {
        self.start as nat
    }

    /// The slot where the oldest item sits, or would sit, is filled.
    pub open spec fn first_slot_filled(&self) -> bool {
        self.first_slot() < self.buffer_used()
    }

    /// While indices are in flight, the oldest one sits in a filled slot.
    pub proof fn lemma_nonempty_first_slot_filled(&self)
        requires
            self.wf(),
            self@.len() > 0,
        ensures
            self.first_slot_filled(),
    {
    }

    /// The first slot lies within the ring, and the ring within its
    /// capacity.
    pub proof fn lemma_first_slot_in_ring(&self)
        requires
            self.wf(),
        ensures
            self.capacity() == 0 ==> self.first_slot() == 0,
            self.capacity() > 0 ==> self.first_slot() < self.capacity(),
            self.buffer_used() <= self.capacity(),
            self.capacity() <= max_inflights_capacity(),
    {
    }

    /// A window never holds more than its capacity.
    pub proof fn law_len_within_capacity(&self)
        requires
            self.wf(),
        ensures
            self@.len() <= self.capacity(),
    {
    }

    proof fn lemma_slot_in_bounds(&self, k: int)
        requires
            self.wf(),
            0 <= k < self.count,
        ensures
            0 <= ring_slot(self.start as int, k, self.cap as int) < self.buffer@.len(),
    {
    }

    /// An empty window for at most `cap` indices.
    pub fn new(cap: usize) -> (r: Inflights)
        requires
            cap <= max_inflights_capacity(),
        ensures
            r.wf(),
            r@ == Seq::<u64>::empty(),
            r.capacity() == cap,
            r.first_slot() == 0,
            r.buffer_used() == 0,
    {
        let r = Inflights { start: 0, count: 0, buffer: Vec::with_capacity(cap), cap };
        assert(r@ =~= Seq::<u64>::empty());
        r
    }

    /// Whether the window holds as many indices as it can.
    pub fn full(&self) -> (r: bool)
        requires
            self.wf(),
        ensures
            r == (self@.len() == self.capacity()),
    {
        self.count == self.cap
    }

    /// The most indices that can be in flight at once.
    pub fn cap(&self) -> (r: usize)
        ensures
            r == self.capacity(),
    {
        self.cap
    }

    /// Puts `inflight` at the end of the window.
    pub fn add(&mut self, inflight: u64)
        requires
            old(self).wf(),
            old(self)@.len() < old(self).capacity(),
        ensures
            final(self).wf(),
            final(self)@ == old(self)@.push(inflight),
            final(self).capacity() == old(self).capacity(),
            final(self).first_slot() == old(self).first_slot(),
            final(self).buffer_used() == if ring_slot(
                old(self).first_slot() as int,
                old(self)@.len() as int,
                old(self).capacity() as int,
            ) == old(self).buffer_used() {
                old(self).buffer_used() + 1
            } else {
                old(self).buffer_used()
            },
            final(self).first_slot_filled(),
    {
        let ghost old_view = self@;
        let mut next = self.start + self.count;
        if next >= self.cap {
            next = next - self.cap;
        }
        assert(next == ring_slot(self.start as int, self.count as int, self.cap as int));
        if next == self.buffer.len() {
            self.buffer.push(inflight);
        } else {
            self.buffer.set(next, inflight);
        }
        self.count = self.count + 1;
        assert forall|i: int| 0 <= i < old_view.len() implies #[trigger] self@[i] == old_view[i] by {
            assert(ring_slot(self.start as int, i, self.cap as int) != next);
        }
        assert(self@ =~= old_view.push(inflight));
    }

    proof fn lemma_ring_slot_mod(start: int, k: int, cap: int)
        requires
            0 <= start < cap,
            0 <= k <= cap,
        ensures
            ring_slot(start, k, cap) == (start + k) % cap,
    {
        if start + k < cap {
            vstd::arithmetic::div_mod::lemma_small_mod((start + k) as nat, cap as nat);
        } else {
            vstd::arithmetic::div_mod::lemma_small_mod((start + k - cap) as nat, cap as nat);
            vstd::arithmetic::div_mod::lemma_mod_sub_multiples_vanish(start + k, cap);
        }
    }

    proof fn lemma_leading_prefix(s: Seq<u64>, to: u64, i: int)
        requires
            0 <= i <= s.len(),
            forall|j: int| 0 <= j < i ==> s[j] <= to,
        ensures
            leading_at_most(s, to) == i + leading_at_most(s.skip(i), to),
        decreases i,
    {
        if i > 0 {
            Self::lemma_leading_prefix(s.drop_first(), to, i - 1);
            assert(s.drop_first().skip(i - 1) =~= s.skip(i));
        } else {
            assert(s.skip(0) =~= s);
        }
    }

    /// Frees the leading indices that are at most `to`: the window keeps
    /// what follows the first index above `to`.
    pub fn free_to(&mut self, to: u64)
        requires
            old(self).wf(),
        ensures
            final(self).wf(),
            final(self)@ == old(self)@.skip(leading_at_most(old(self)@, to) as int),
            final(self).capacity() == old(self).capacity(),
            final(self).buffer_used() == old(self).buffer_used(),
            final(self).first_slot() == if old(self)@.len() == 0 {
                old(self).first_slot()
            } else {
                (old(self).first_slot() + leading_at_most(old(self)@, to)) % old(self).capacity()
            },
            leading_at_most(old(self)@, to) == 0 ==> final(self).first_slot() == old(self).first_slot(),
    {
        let ghost v = self@;
        if self.count == 0 {
            proof {
                assert(v.skip(0) =~= v);
            }
            return;
        }
        proof {
            self.lemma_slot_in_bounds(0);
        }
        if to < self.buffer[self.start] {
            proof {
                assert(v[0] > to);
                assert(v.skip(0) =~= v);
                Self::lemma_ring_slot_mod(self.start as int, 0, self.cap as int);
            }
            return;
        }
        let mut i: usize = 0;
        let mut idx: usize = self.start;
        while i < self.count
            invariant_except_break
                self.wf(),
                v == self@,
                0 <= i <= self.count,
                idx == ring_slot(self.start as int, i as int, self.cap as int),
                0 <= idx < self.cap,
                forall|j: int| 0 <= j < i ==> v[j] <= to,
            ensures
                self.wf(),
                v == self@,
                0 <= i <= self.count,
                idx == ring_slot(self.start as int, i as int, self.cap as int),
                0 <= idx < self.cap,
                forall|j: int| 0 <= j < i ==> v[j] <= to,
                i < self.count ==> v[i as int] > to,
            decreases self.count - i,
        {
            proof {
                self.lemma_slot_in_bounds(i as int);
            }
            if to < self.buffer[idx] {
                break;
            }
            idx = idx + 1;
            if idx >= self.cap {
                idx = idx - self.cap;
            }
            i = i + 1;
        }
        proof {
            Self::lemma_leading_prefix(v, to, i as int);
            Self::lemma_ring_slot_mod(self.start as int, i as int, self.cap as int);
            if i < self.count {
                assert(v.skip(i as int)[0] == v[i as int]);
            }
        }
        let ghost old_start = self.start;
        self.count = self.count - i;
        self.start = idx;
        proof {
            assert forall|j: int| 0 <= j < self.count implies #[trigger] self@[j] == v.skip(i as int)[j] by {
                assert(ring_slot(idx as int, j, self.cap as int)
                    == ring_slot(old_start as int, i + j, self.cap as int));
            }
            assert(self@ =~= v.skip(i as int));
        }
    }

    /// Frees the oldest index, and with it the following ones that are no
    /// greater.
    pub fn free_first_one(&mut self)
        requires
            old(self).wf(),
            old(self).first_slot_filled(),
        ensures
            final(self).wf(),
            old(self)@.len() > 0 ==> final(self)@ == old(self)@.skip(
                leading_at_most(old(self)@, old(self)@[0]) as int,
            ),
            old(self)@.len() == 0 ==> final(self)@ == old(self)@,
            final(self).capacity() == old(self).capacity(),
            final(self).buffer_used() == old(self).buffer_used(),
            final(self).first_slot() == if old(self)@.len() == 0 {
                old(self).first_slot()
            } else {
                (old(self).first_slot() + leading_at_most(old(self)@, old(self)@[0])) % old(self).capacity()
            },
    {
        let ghost v = self@;
        let start = self.buffer[self.start];
        proof {
            if v.len() > 0 {
                assert(v[0] == start);
            }
        }
        self.free_to(start);
        proof {
            if v.len() == 0 {
                assert(v.skip(0) =~= v);
            }
        }
    }

    /// Empties the window.
    pub fn reset(&mut self)
        requires
            old(self).wf(),
        ensures
            final(self).wf(),
            final(self)@ == Seq::<u64>::empty(),
            final(self).capacity() == old(self).capacity(),
            final(self).first_slot() == 0,
            final(self).buffer_used() == old(self).buffer_used(),
    {
        self.count = 0;
        self.start = 0;
        assert(self@ =~= Seq::<u64>::empty());
    }

    /// How many slots of the ring have ever been filled.
    pub closed spec fn buffer_used(&self) -> nat {
        self.buffer@.len()
    }
}


/// What the leader knows of one follower's log.
#[derive(Debug, Clone)]
pub struct Progress {
    /// The highest index known to match the leader's log.
    pub matched: u64,
    /// The index of the next entry to send.
    pub next_idx: u64,
    pub state: ProgressState,
    /// In the probe state: whether the leader waits for an answer.
    pub paused: bool,
    /// In the snapshot state: the index of the snapshot being sent.
    pub pending_snapshot: u64,
    /// Whether the follower was heard from since the last check.
    pub recent_active: bool,
    /// The appends in flight to the follower.
    pub ins: Inflights,
}

impl Progress {
    /// A fresh progress in the probe state that sends next from `next_idx`;
    /// the window holds at most `ins_size` appends.
    pub fn new(next_idx: u64, ins_size: usize) -> (r: Progress)
        requires
            ins_size <= max_inflights_capacity(),
        ensures
            r.matched == 0,
            r.next_idx == next_idx,
            r.state == ProgressState::Probe,
            !r.paused,
            r.pending_snapshot == 0,
            !r.recent_active,
            r.ins.wf(),
            r.ins@ == Seq::<u64>::empty(),
            r.ins.capacity() == ins_size,
    {
        Progress {
            matched: 0,
            next_idx,
            state: ProgressState::Probe,
            paused: false,
            pending_snapshot: 0,
            recent_active: false,
            ins: Inflights::new(ins_size),
        }
    }

    /// Enters `state`: unpaused, no pending snapshot, nothing in flight.
    pub fn reset_state(&mut self, state: ProgressState)
        requires
            old(self).ins.wf(),
        ensures
            final(self).state == state,
            !final(self).paused,
            final(self).pending_snapshot == 0,
            final(self).ins.wf(),
            final(self).ins@ == Seq::<u64>::empty(),
            final(self).ins.capacity() == old(self).ins.capacity(),
            final(self).ins.first_slot() == 0,
            final(self).ins.buffer_used() == old(self).ins.buffer_used(),
            final(self).matched == old(self).matched,
            final(self).next_idx == old(self).next_idx,
            final(self).recent_active == old(self).recent_active,
    {
        self.paused = false;
        self.pending_snapshot = 0;
        self.state = state;
        self.ins.reset();
    }

    /// Starts over at `next_idx`, as when a node becomes leader.
    pub(crate) fn reset(&mut self, next_idx: u64)
        requires
            old(self).ins.wf(),
            old(self).ins.capacity() != 0,
        ensures
            final(self).matched == 0,
            final(self).next_idx == next_idx,
            final(self).state == ProgressState::Probe,
            !final(self).paused,
            final(self).pending_snapshot == 0,
            !final(self).recent_active,
            final(self).ins.wf(),
            final(self).ins@ == Seq::<u64>::empty(),
            final(self).ins.capacity() == old(self).ins.capacity(),
            final(self).ins.first_slot() == 0,
            final(self).ins.buffer_used() == old(self).ins.buffer_used(),
    {
        self.matched = 0;
        self.next_idx = next_idx;
        self.state = ProgressState::default();
        self.paused = false;
        self.pending_snapshot = 0;
        self.recent_active = false;
        self.ins.reset();
    }

    /// Goes back to probing, from the entry after the match (or after the
    /// snapshot that was being sent, whichever is later).
    pub fn become_probe(&mut self)
        requires
            old(self).ins.wf(),
            old(self).matched < u64::MAX,
            old(self).state == ProgressState::Snapshot ==> old(self).pending_snapshot < u64::MAX,
        ensures
            final(self).state == ProgressState::Probe,
            final(self).next_idx == if old(self).state == ProgressState::Snapshot {
                if old(self).matched >= old(self).pending_snapshot {
                    old(self).matched + 1
                } else {
                    old(self).pending_snapshot + 1
                }
            } else {
                old(self).matched + 1
            },
            !final(self).paused,
            final(self).pending_snapshot == 0,
            final(self).ins.wf(),
            final(self).ins@ == Seq::<u64>::empty(),
            final(self).ins.capacity() == old(self).ins.capacity(),
            final(self).ins.first_slot() == 0,
            final(self).ins.buffer_used() == old(self).ins.buffer_used(),
            final(self).matched == old(self).matched,
            final(self).recent_active == old(self).recent_active,
    {
        if self.state == ProgressState::Snapshot {
            let pending_snapshot = self.pending_snapshot;
            self.reset_state(ProgressState::Probe);
            let a = self.matched + 1;
            let b = pending_snapshot + 1;
            self.next_idx = if a >= b { a } else { b };
        } else {
            self.reset_state(ProgressState::Probe);
            self.next_idx = self.matched + 1;
        }
    }

    /// Starts streaming appends from the entry after the match.
    pub fn become_replicate(&mut self)
        requires
            old(self).ins.wf(),
            old(self).matched < u64::MAX,
        ensures
            final(self).state == ProgressState::Replicate,
            final(self).next_idx == old(self).matched + 1,
            !final(self).paused,
            final(self).pending_snapshot == 0,
            final(self).ins.wf(),
            final(self).ins@ == Seq::<u64>::empty(),
            final(self).ins.capacity() == old(self).ins.capacity(),
            final(self).ins.first_slot() == 0,
            final(self).ins.buffer_used() == old(self).ins.buffer_used(),
            final(self).matched == old(self).matched,
            final(self).recent_active == old(self).recent_active,
    {
        self.reset_state(ProgressState::Replicate);
        self.next_idx = self.matched + 1;
    }

    /// Starts sending the snapshot at `snapshot_idx`.
    pub fn become_snapshot(&mut self, snapshot_idx: u64)
        requires
            old(self).ins.wf(),
        ensures
            final(self).state == ProgressState::Snapshot,
            final(self).next_idx == snapshot_idx,
            !final(self).paused,
            final(self).pending_snapshot == 0,
            final(self).ins.wf(),
            final(self).ins@ == Seq::<u64>::empty(),
            final(self).ins.capacity() == old(self).ins.capacity(),
            final(self).ins.first_slot() == 0,
            final(self).ins.buffer_used() == old(self).ins.buffer_used(),
            final(self).matched == old(self).matched,
            final(self).recent_active == old(self).recent_active,
    {
        self.reset_state(ProgressState::Snapshot);
        self.next_idx = snapshot_idx;
    }

    /// Forgets the snapshot that failed to reach the follower.
    pub fn snapshot_failure(&mut self)
        ensures
            final(self).pending_snapshot == 0,
            final(self).matched == old(self).matched,
            final(self).next_idx == old(self).next_idx,
            final(self).state == old(self).state,
            final(self).paused == old(self).paused,
            final(self).recent_active == old(self).recent_active,
            final(self).ins == old(self).ins,
    {
        self.pending_snapshot = 0;
    }

    /// Whether the snapshot being sent is no longer needed: the follower
    /// already matches up to it.
    pub fn maybe_snapshot_abort(&self) -> (r: bool)
        ensures
            r == (self.state == ProgressState::Snapshot && self.matched >= self.pending_snapshot),
    {
        self.state == ProgressState::Snapshot && self.matched >= self.pending_snapshot
    }

    /// Records that the follower matches up to `n`; returns whether that
    /// raised the match.
    pub fn maybe_update(&mut self, n: u64) -> (r: bool)
        requires
            n < u64::MAX,
        ensures
            r == (old(self).matched < n),
            final(self).matched == if r { n } else { old(self).matched },
            final(self).paused == if r { false } else { old(self).paused },
            final(self).next_idx == if old(self).next_idx < n + 1 { (n + 1) as u64 } else { old(self).next_idx },
            final(self).state == old(self).state,
            final(self).pending_snapshot == old(self).pending_snapshot,
            final(self).recent_active == old(self).recent_active,
            final(self).ins == old(self).ins,
    {
        let need_update = self.matched < n;
        if need_update {
            self.matched = n;
            self.resume();
        }
        if self.next_idx < n + 1 {
            self.next_idx = n + 1;
        }
        need_update
    }

    /// Sets the next index past `n` before the follower answers.
    pub fn optimistic_update(&mut self, n: u64)
        requires
            n < u64::MAX,
        ensures
            final(self).next_idx == n + 1,
            final(self).matched == old(self).matched,
            final(self).state == old(self).state,
            final(self).paused == old(self).paused,
            final(self).pending_snapshot == old(self).pending_snapshot,
            final(self).recent_active == old(self).recent_active,
            final(self).ins == old(self).ins,
    {
        self.next_idx = n + 1;
    }

    /// Handles a rejected append at index `rejected`, the follower's last
    /// index being `last`: steps the next index back and returns true, or
    /// returns false when the rejection is stale.
    pub fn maybe_decr_to(&mut self, rejected: u64, last: u64) -> (r: bool)
        requires
            old(self).state == ProgressState::Replicate && rejected > old(self).matched
                ==> old(self).matched < u64::MAX,
            old(self).state != ProgressState::Replicate && old(self).next_idx != 0
                && old(self).next_idx - 1 == rejected ==> last < u64::MAX,
        ensures
            r == if old(self).state == ProgressState::Replicate {
                rejected > old(self).matched
            } else {
                old(self).next_idx != 0 && old(self).next_idx - 1 == rejected
            },
            final(self).next_idx == if !r {
                old(self).next_idx
            } else if old(self).state == ProgressState::Replicate {
                (old(self).matched + 1) as u64
            } else if rejected <= last + 1 {
                if rejected < 1 { 1 } else { rejected }
            } else {
                (last + 1) as u64
            },
            final(self).paused == if r && old(self).state != ProgressState::Replicate {
                false
            } else {
                old(self).paused
            },
            final(self).matched == old(self).matched,
            final(self).state == old(self).state,
            final(self).pending_snapshot == old(self).pending_snapshot,
            final(self).recent_active == old(self).recent_active,
            final(self).ins == old(self).ins,
    {
        if self.state == ProgressState::Replicate {
            if rejected <= self.matched {
                return false;
            }
            self.next_idx = self.matched + 1;
            return true;
        }
        if self.next_idx == 0 || self.next_idx - 1 != rejected {
            return false;
        }
        let bound = last + 1;
        self.next_idx = if rejected <= bound { rejected } else { bound };
        if self.next_idx < 1 {
            self.next_idx = 1;
        }
        self.resume();
        true
    }

    /// Whether the leader must hold back appends to the follower.
    pub fn is_paused(&self) -> (r: bool)
        requires
            self.ins.wf(),
        ensures
            r == match self.state {
                ProgressState::Probe => self.paused,
                ProgressState::Replicate => self.ins@.len() == self.ins.capacity(),
                ProgressState::Snapshot => true,
            },
    {
        match self.state {
            ProgressState::Probe => self.paused,
            ProgressState::Replicate => self.ins.full(),
            ProgressState::Snapshot => true,
        }
    }

    pub fn resume(&mut self)
        ensures
            !final(self).paused,
            final(self).matched == old(self).matched,
            final(self).next_idx == old(self).next_idx,
            final(self).state == old(self).state,
            final(self).pending_snapshot == old(self).pending_snapshot,
            final(self).recent_active == old(self).recent_active,
            final(self).ins == old(self).ins,
    {
        self.paused = false;
    }

    pub fn pause(&mut self)
        ensures
            final(self).paused,
            final(self).matched == old(self).matched,
            final(self).next_idx == old(self).next_idx,
            final(self).state == old(self).state,
            final(self).pending_snapshot == old(self).pending_snapshot,
            final(self).recent_active == old(self).recent_active,
            final(self).ins == old(self).ins,
    {
        self.paused = true;
    }
}


/// The number of items of `s` that satisfy `f`.
pub open spec fn count_where(s: Seq<u64>, f: spec_fn(u64) -> bool) -> nat
    decreases s.len(),
{
    if s.len() == 0 {
        0
    } else {
        count_where(s.drop_last(), f) + if f(s.last()) {
            1nat
        } else {
            0nat
        }
    }
}

proof fn lemma_count_where_set(s: Seq<u64>, f: spec_fn(u64) -> bool)
    requires
        s.no_duplicates(),
    ensures
        s.to_set().filter(f).finite(),
        count_where(s, f) == s.to_set().filter(f).len(),
    decreases s.len(),
{
    if s.len() == 0 {
        assert(s.to_set().filter(f) =~= Set::<u64>::empty());
    } else {
        let t = s.drop_last();
        let x = s.last();
        assert(t.no_duplicates()) by {
            assert forall|i: int, j: int| 0 <= i < t.len() && 0 <= j < t.len() && i != j implies t[i] != t[j] by {
                assert(t[i] == s[i] && t[j] == s[j]);
            }
        }
        lemma_count_where_set(t, f);
        assert(s =~= t.push(x));
        assert(s.to_set() =~= t.to_set().insert(x)) by {
            assert forall|y: u64| s.to_set().contains(y) <==> t.to_set().insert(x).contains(y) by {
                if s.contains(y) {
                    let i = choose|i: int| 0 <= i < s.len() && s[i] == y;
                    if i < t.len() {
                        assert(t[i] == y);
                    }
                }
                if t.contains(y) {
                    let i = choose|i: int| 0 <= i < t.len() && t[i] == y;
                    assert(s[i] == y);
                }
            }
        }
        assert(!t.to_set().contains(x)) by {
            if t.contains(x) {
                let i = choose|i: int| 0 <= i < t.len() && t[i] == x;
                assert(s[i] == s[s.len() - 1]);
            }
        }
        if f(x) {
            assert(s.to_set().filter(f) =~= t.to_set().filter(f).insert(x));
        } else {
            assert(s.to_set().filter(f) =~= t.to_set().filter(f));
        }
    }
}

proof fn lemma_count_where_ext(s: Seq<u64>, f: spec_fn(u64) -> bool, g: spec_fn(u64) -> bool)
    requires
        forall|i: int| 0 <= i < s.len() ==> f(#[trigger] s[i]) == g(s[i]),
    ensures
        count_where(s, f) == count_where(s, g),
    decreases s.len(),
{
    if s.len() > 0 {
        let t = s.drop_last();
        assert forall|i: int| 0 <= i < t.len() implies f(#[trigger] t[i]) == g(t[i]) by {
            assert(t[i] == s[i]);
        }
        lemma_count_where_ext(t, f, g);
    }
}

proof fn lemma_count_where_le(s: Seq<u64>, f: spec_fn(u64) -> bool)
    ensures
        count_where(s, f) <= s.len(),
        (forall|i: int| 0 <= i < s.len() ==> f(#[trigger] s[i])) ==> count_where(s, f) == s.len(),
        count_where(s, f) > 0 ==> exists|i: int| 0 <= i < s.len() && f(#[trigger] s[i]),
    decreases s.len(),
{
    if s.len() > 0 {
        let t = s.drop_last();
        lemma_count_where_le(t, f);
        if forall|i: int| 0 <= i < s.len() ==> f(#[trigger] s[i]) {
            assert forall|i: int| 0 <= i < t.len() implies f(#[trigger] t[i]) by {
                assert(t[i] == s[i]);
            }
        }
        if count_where(t, f) > 0 {
            let i = choose|i: int| 0 <= i < t.len() && f(#[trigger] t[i]);
            assert(s[i] == t[i]);
        }
        if f(s.last()) {
            assert(f(s[s.len() - 1]));
        }
    }
}

/// Among the items of `s` that satisfy `f`, one whose value `v` is least.
proof fn lemma_least_where(s: Seq<u64>, v: spec_fn(u64) -> u64, f: spec_fn(u64) -> bool) -> (j: int)
    requires
        exists|i: int| 0 <= i < s.len() && f(#[trigger] s[i]),
    ensures
        0 <= j < s.len(),
        f(s[j]),
        forall|i: int| 0 <= i < s.len() && f(#[trigger] s[i]) ==> v(s[j]) <= v(s[i]),
    decreases s.len(),
{
    let t = s.drop_last();
    let last = s.len() - 1;
    if exists|i: int| 0 <= i < t.len() && f(#[trigger] t[i]) {
        let k = lemma_least_where(t, v, f);
        assert(t[k] == s[k]);
        assert forall|i: int| 0 <= i < s.len() && f(#[trigger] s[i]) implies v(s[k]) <= v(s[i]) || (
        i == last && v(s[i]) < v(s[k])) by {
            if i < last {
                assert(t[i] == s[i]);
            }
        }
        if f(s[last]) && v(s[last]) < v(s[k]) {
            last
        } else {
            k
        }
    } else {
        assert forall|i: int| 0 <= i < s.len() && f(#[trigger] s[i]) implies i == last by {
            if i < last {
                assert(t[i] == s[i]);
            }
        }
        last
    }
}

/// The number of votes in `votes` that grant.
pub open spec fn granted_count(votes: Seq<(u64, bool)>) -> nat
    decreases votes.len(),
{
    if votes.len() == 0 {
        0
    } else {
        granted_count(votes.drop_last()) + if votes.last().1 {
            1nat
        } else {
            0nat
        }
    }
}

/// Any two majorities of the same voters share a voter: this is why a
/// leader elected, or an entry committed, by a majority is seen by every
/// other majority.
pub proof fn law_majorities_intersect(voters: Set<u64>, a: Set<u64>, b: Set<u64>)
    requires
        voters.finite(),
        a.subset_of(voters),
        b.subset_of(voters),
        a.len() >= majority_spec(voters.len()),
        b.len() >= majority_spec(voters.len()),
    ensures
        exists|id: u64| a.contains(id) && b.contains(id),
{
    vstd::set_lib::lemma_len_subset(a, voters);
    vstd::set_lib::lemma_len_subset(b, voters);
    vstd::set_lib::lemma_set_subset_finite(voters, a);
    vstd::set_lib::lemma_set_subset_finite(voters, b);
    vstd::set_lib::lemma_len_union(a, b);
    vstd::set_lib::lemma_len_subset(a + b, voters);
    vstd::set_lib::lemma_len_intersect(a, b);
    if a.intersect(b).len() == 0 {
        vstd::set_lib::lemma_set_intersect_union_lens(a, b);
        assert(false);
    }
    assert(a.intersect(b).len() > 0);
    let id = a.intersect(b).choose();
    assert(a.intersect(b).contains(id));
}

/// How many of `ids` have matched at least `c` in `m`.
pub open spec fn count_matched_ge(ids: Seq<u64>, m: Map<u64, Progress>, c: u64) -> nat {
    count_where(ids, |id: u64| m[id].matched >= c)
}

/// Whether `id` counts as heard from, `perspective_of` always counting.
pub open spec fn heard_from(m: Map<u64, Progress>, perspective_of: u64, id: u64) -> bool {
    id == perspective_of || m[id].recent_active
}

/// The progress of `id` after an activity check from `perspective_of`.
pub open spec fn after_activity_check(
    voters: Set<u64>,
    m: Map<u64, Progress>,
    perspective_of: u64,
    id: u64,
) -> Progress {
    if voters.contains(id) && id == perspective_of {
        m[id]
    } else {
        cleared(m[id])
    }
}

/// The outcome of an election for the candidate.
#[derive(Debug, Clone, Copy, PartialEq, Eq, Structural)]
pub enum CandidacyStatus {
    /// A majority voted for the candidate.
    Elected,
    /// Exactly a majority's worth of votes rejected the candidate.
    Eligible,
    /// Neither.
    Ineligible,
}

#[derive(Debug)]
struct Configuration {
    voters: FxHashSet<u64>,
    learners: FxHashSet<u64>,
}

/// The progress of every member of the cluster, and which members vote.
#[derive(Debug)]
pub struct ProgressSet {
    progress: FxHashMap<u64, Progress>,
    configuration: Configuration,
}

/// The progress `p` after its activity flag is cleared.
pub open spec fn cleared(p: Progress) -> Progress {
    Progress { recent_active: false, ..p }
}

impl Clone for ProgressSet {
    /// The same voters and learners, each progress cloned.
    fn clone(&self) -> (r: ProgressSet)
        ensures
            r.voter_set() == self.voter_set(),
            r.learner_set() == self.learner_set(),
            r.progress_map().dom() == self.progress_map().dom(),
            forall|id: u64| #[trigger] self.progress_map().contains_key(id) ==> cloned::<Progress>(
                self.progress_map()[id],
                r.progress_map()[id],
            ),
            self.wf() ==> r.wf(),
    {
        ProgressSet {
            progress: fx_map_clone(&self.progress),
            configuration: Configuration {
                voters: fx_set_clone(&self.configuration.voters),
                learners: fx_set_clone(&self.configuration.learners),
            },
        }
    }
}

impl Default for ProgressSet {
    /// An empty set.
    fn default() -> (r: ProgressSet)
        ensures
            r.wf(),
            r.voter_set() == Set::<u64>::empty(),
            r.learner_set() == Set::<u64>::empty(),
            r.progress_map() == Map::<u64, Progress>::empty(),
    {
        ProgressSet::new()
    }
}

impl ProgressSet {
    /// The ids of the voters.
    pub closed spec fn voter_set(&self) -> Set<u64> {
        fx_set_ids(self.configuration.voters)
    }

    /// The ids of the learners.
    pub closed spec fn learner_set(&self) -> Set<u64> {
        fx_set_ids(self.configuration.learners)
    }

    /// The progress of each member, by id.
    pub closed spec fn progress_map(&self) -> Map<u64, Progress> {
        fx_map_progress(self.progress)
    }

    /// Each member is a voter or a learner but not both, and has a progress.
    pub open spec fn wf(&self) -> bool {
        &&& self.voter_set().finite()
        &&& self.learner_set().finite()
        &&& self.voter_set().disjoint(self.learner_set())
        &&& self.voter_set() + self.learner_set() == self.progress_map().dom()
    }

    /// How many voters match the leader's log at least up to `idx`.
    pub open spec fn voters_matched_at_least(&self, idx: u64) -> nat {
        self.voter_set().filter(|id: u64| self.progress_map()[id].matched >= idx).len()
    }

    /// How many voters match the leader's log beyond `idx`.
    pub open spec fn voters_matched_above(&self, idx: u64) -> nat {
        self.voter_set().filter(|id: u64| self.progress_map()[id].matched > idx).len()
    }

    /// An empty set.
    pub fn new() -> (r: ProgressSet)
        ensures
            r.wf(),
            r.voter_set() == Set::<u64>::empty(),
            r.learner_set() == Set::<u64>::empty(),
            r.progress_map() == Map::<u64, Progress>::empty(),
    {
        let r = ProgressSet {
            progress: fx_map_new(),
            configuration: Configuration { voters: fx_set_new(), learners: fx_set_new() },
        };
        assert(r.voter_set() + r.learner_set() =~= r.progress_map().dom());
        assert(r.progress_map() =~= Map::<u64, Progress>::empty());
        r
    }

    /// An empty set with room reserved for `voters` voters and `learners`
    /// learners.
    pub fn with_capacity(voters: usize, learners: usize) -> (r: ProgressSet)
        requires
            voters + learners <= usize::MAX,
        ensures
            r.wf(),
            r.voter_set() == Set::<u64>::empty(),
            r.learner_set() == Set::<u64>::empty(),
            r.progress_map() == Map::<u64, Progress>::empty(),
    {
        let r = ProgressSet {
            progress: fx_map_with_capacity(voters + learners),
            configuration: Configuration {
                voters: fx_set_with_capacity(voters),
                learners: fx_set_with_capacity(learners),
            },
        };
        assert(r.voter_set() + r.learner_set() =~= r.progress_map().dom());
        assert(r.progress_map() =~= Map::<u64, Progress>::empty());
        r
    }

    /// The members whose ids are in `ids`, with their progress.
    fn entries_in<'a>(&'a self, ids: &FxHashSet<u64>) -> (r: Vec<(u64, &'a Progress)>)
        ensures
            r@.map_values(|e: (u64, &Progress)| e.0).no_duplicates(),
            r@.map_values(|e: (u64, &Progress)| e.0).to_set() == self.progress_map().dom().intersect(
                fx_set_ids(*ids),
            ),
            forall|i: int| 0 <= i < r@.len() ==> *(#[trigger] r@[i]).1 == self.progress_map()[r@[i].0],
    {
        let all = fx_map_entries(&self.progress);
        let ghost keys = all@.map_values(|e: (u64, &Progress)| e.0);
        let mut r: Vec<(u64, &Progress)> = Vec::new();
        let mut i: usize = 0;
        while i < all.len()
            invariant
                i <= all@.len(),
                keys == all@.map_values(|e: (u64, &Progress)| e.0),
                keys.no_duplicates(),
                keys.to_set() == self.progress_map().dom(),
                forall|k: int| 0 <= k < all@.len() ==> *(#[trigger] all@[k]).1 == self.progress_map()[all@[k].0],
                forall|k: int| 0 <= k < r@.len() ==> *(#[trigger] r@[k]).1 == self.progress_map()[r@[k].0],
                forall|k: int| 0 <= k < r@.len() ==> #[trigger] keys.take(i as int).contains(r@[k].0)
                    && fx_set_ids(*ids).contains(r@[k].0),
                forall|k: int| 0 <= k < i && fx_set_ids(*ids).contains(#[trigger] keys[k])
                    ==> r@.map_values(|e: (u64, &Progress)| e.0).contains(keys[k]),
                r@.map_values(|e: (u64, &Progress)| e.0).no_duplicates(),
            decreases all@.len() - i,
        {
            let e = all[i];
            proof {
                assert(keys[i as int] == e.0);
            }
            let ghost before = r@;
            let ghost bk = before.map_values(|e: (u64, &Progress)| e.0);
            let inset = fx_set_contains(ids, e.0);
            if inset {
                proof {
                    assert(!bk.contains(e.0)) by {
                        if bk.contains(e.0) {
                            let k = choose|k: int| 0 <= k < bk.len() && bk[k] == e.0;
                            assert(keys.take(i as int).contains(before[k].0));
                            let j = choose|j: int| 0 <= j < i && keys.take(i as int)[j] == before[k].0;
                            assert(keys[j] == keys[i as int]);
                        }
                    }
                }
                r.push(e);
                proof {
                    assert(r@.map_values(|e: (u64, &Progress)| e.0) =~= bk.push(e.0));
                }
            }
            proof {
                let rk = r@.map_values(|e: (u64, &Progress)| e.0);
                assert(inset ==> r@ == before.push(e));
                assert(!inset ==> r@ == before);
                assert forall|k: int| 0 <= k < r@.len() implies #[trigger] keys.take(i + 1).contains(r@[k].0)
                    && fx_set_ids(*ids).contains(r@[k].0) by {
                    if k < before.len() {
                        assert(r@[k] == before[k]);
                        assert(keys.take(i as int).contains(before[k].0));
                        let j = choose|j: int| 0 <= j < i && keys.take(i as int)[j] == before[k].0;
                        assert(keys.take(i + 1)[j] == before[k].0);
                    } else {
                        assert(r@[k] == e);
                        assert(keys.take(i + 1)[i as int] == e.0);
                    }
                }
                assert forall|k: int| 0 <= k < i + 1 && fx_set_ids(*ids).contains(#[trigger] keys[k])
                    implies rk.contains(keys[k]) by {
                    if k < i {
                        assert(bk.contains(keys[k]));
                        let j = choose|j: int| 0 <= j < bk.len() && bk[j] == keys[k];
                        assert(rk[j] == bk[j]);
                    } else {
                        assert(rk[rk.len() - 1] == e.0);
                    }
                }
            }
            i = i + 1;
        }
        proof {
            let rk = r@.map_values(|e: (u64, &Progress)| e.0);
            assert forall|id: u64| #[trigger] rk.to_set().contains(id)
                <==> self.progress_map().dom().intersect(fx_set_ids(*ids)).contains(id) by {
                if rk.contains(id) {
                    let k = choose|k: int| 0 <= k < rk.len() && rk[k] == id;
                    assert(keys.take(i as int).contains(r@[k].0));
                    let j = choose|j: int| 0 <= j < i && keys.take(i as int)[j] == r@[k].0;
                    assert(keys.to_set().contains(keys[j]));
                }
                if self.progress_map().dom().intersect(fx_set_ids(*ids)).contains(id) {
                    assert(keys.to_set().contains(id));
                    let j = choose|j: int| 0 <= j < keys.len() && keys[j] == id;
                }
            }
            assert(r@.map_values(|e: (u64, &Progress)| e.0).to_set() =~= self.progress_map().dom().intersect(
                fx_set_ids(*ids),
            ));
        }
        r
    }

    /// The voters, each once with its progress, in the map's order.
    pub fn voters(&self) -> (r: Vec<(u64, &Progress)>)
        requires
            self.wf(),
        ensures
            r@.map_values(|e: (u64, &Progress)| e.0).no_duplicates(),
            r@.map_values(|e: (u64, &Progress)| e.0).to_set() == self.voter_set(),
            forall|i: int| 0 <= i < r@.len() ==> *(#[trigger] r@[i]).1 == self.progress_map()[r@[i].0],
    {
        let r = self.entries_in(&self.configuration.voters);
        assert(self.progress_map().dom().intersect(self.voter_set()) =~= self.voter_set());
        r
    }

    /// The learners, each once with its progress, in the map's order.
    pub fn learners(&self) -> (r: Vec<(u64, &Progress)>)
        requires
            self.wf(),
        ensures
            r@.map_values(|e: (u64, &Progress)| e.0).no_duplicates(),
            r@.map_values(|e: (u64, &Progress)| e.0).to_set() == self.learner_set(),
            forall|i: int| 0 <= i < r@.len() ==> *(#[trigger] r@[i]).1 == self.progress_map()[r@[i].0],
    {
        let r = self.entries_in(&self.configuration.learners);
        assert(self.progress_map().dom().intersect(self.learner_set()) =~= self.learner_set());
        r
    }

    /// Every member, once, with its progress, in the map's order.
    pub fn iter(&self) -> (r: Vec<(u64, &Progress)>)
        ensures
            r@.map_values(|e: (u64, &Progress)| e.0).no_duplicates(),
            r@.map_values(|e: (u64, &Progress)| e.0).to_set() == self.progress_map().dom(),
            forall|i: int| 0 <= i < r@.len() ==> *(#[trigger] r@[i]).1 == self.progress_map()[r@[i].0],
    {
        fx_map_entries(&self.progress)
    }

    /// Holds when each member is a voter or a learner but not both, and has
    /// a progress; the library calls it only on such sets.
    fn assert_progress_and_configuration_consistent(&self)
        requires
            self.wf(),
    {
    }

    /// The ids of the voters.
    pub fn voter_ids(&self) -> (r: &FxHashSet<u64>)
        ensures
            fx_set_ids(*r) == self.voter_set(),
    {
        &self.configuration.voters
    }

    /// The ids of the learners.
    pub fn learner_ids(&self) -> (r: &FxHashSet<u64>)
        ensures
            fx_set_ids(*r) == self.learner_set(),
    {
        &self.configuration.learners
    }

    /// The progress of `id`, if it is a member.
    pub fn get(&self, id: u64) -> (r: Option<&Progress>)
        ensures
            match r {
                Some(p) => self.progress_map().contains_key(id) && *p == self.progress_map()[id],
                None => !self.progress_map().contains_key(id),
            },
    {
        fx_map_get(&self.progress, id)
    }

    /// The progress of `id`, if it is a member, to be changed in place.
    pub fn get_mut(&mut self, id: u64) -> (r: Option<&mut Progress>)
        ensures
            final(self).voter_set() == old(self).voter_set(),
            final(self).learner_set() == old(self).learner_set(),
            match r {
                Some(p) => {
                    &&& old(self).progress_map().contains_key(id)
                    &&& *p == old(self).progress_map()[id]
                    &&& final(self).progress_map() == old(self).progress_map().insert(id, *final(p))
                },
                None => {
                    &&& !old(self).progress_map().contains_key(id)
                    &&& final(self).progress_map() == old(self).progress_map()
                },
            },
    {
        fx_map_get_mut(&mut self.progress, id)
    }

    /// Adds `id` as a voter with `progress`, unless it is a member already.
    pub fn insert_voter(&mut self, id: u64, progress: Progress) -> (r: core::result::Result<(), Error>)
        requires
            old(self).wf(),
        ensures
            final(self).wf(),
            old(self).progress_map().contains_key(id) ==> {
                &&& r matches Err(Error::Exists(i, g)) && i == id && g@ == if old(self).learner_set().contains(id) {
                    "learners"@
                } else {
                    "voters"@
                }
                &&& *final(self) == *old(self)
            },
            !old(self).progress_map().contains_key(id) ==> {
                &&& r is Ok
                &&& final(self).voter_set() == old(self).voter_set().insert(id)
                &&& final(self).learner_set() == old(self).learner_set()
                &&& final(self).progress_map() == old(self).progress_map().insert(id, progress)
            },
    {
        if fx_map_contains_key(&self.progress, id) {
            if fx_set_contains(&self.configuration.learners, id) {
                return Err(Error::Exists(id, "learners"));
            }
            return Err(Error::Exists(id, "voters"));
        }
        fx_set_insert(&mut self.configuration.voters, id);
        fx_map_insert(&mut self.progress, id, progress);
        assert(self.voter_set() + self.learner_set() =~= self.progress_map().dom());
        self.assert_progress_and_configuration_consistent();
        Ok(())
    }

    /// Adds `id` as a learner with `progress`, unless it is a member already.
    pub fn insert_learner(&mut self, id: u64, progress: Progress) -> (r: core::result::Result<(), Error>)
        requires
            old(self).wf(),
        ensures
            final(self).wf(),
            old(self).progress_map().contains_key(id) ==> {
                &&& r matches Err(Error::Exists(i, g)) && i == id && g@ == if old(self).learner_set().contains(id) {
                    "learners"@
                } else {
                    "votes"@
                }
                &&& *final(self) == *old(self)
            },
            !old(self).progress_map().contains_key(id) ==> {
                &&& r is Ok
                &&& final(self).voter_set() == old(self).voter_set()
                &&& final(self).learner_set() == old(self).learner_set().insert(id)
                &&& final(self).progress_map() == old(self).progress_map().insert(id, progress)
            },
    {
        if fx_map_contains_key(&self.progress, id) {
            if fx_set_contains(&self.configuration.learners, id) {
                return Err(Error::Exists(id, "learners"));
            }
            return Err(Error::Exists(id, "votes"));
        }
        fx_set_insert(&mut self.configuration.learners, id);
        fx_map_insert(&mut self.progress, id, progress);
        assert(self.voter_set() + self.learner_set() =~= self.progress_map().dom());
        self.assert_progress_and_configuration_consistent();
        Ok(())
    }

    /// Removes `id` from the cluster; returns its progress.
    pub fn remove(&mut self, id: u64) -> (r: Option<Progress>)
        requires
            old(self).wf(),
        ensures
            final(self).wf(),
            final(self).voter_set() == old(self).voter_set().remove(id),
            final(self).learner_set() == old(self).learner_set().remove(id),
            final(self).progress_map() == old(self).progress_map().remove(id),
            r == if old(self).progress_map().contains_key(id) {
                Some(old(self).progress_map()[id])
            } else {
                None
            },
    {
        fx_set_remove(&mut self.configuration.voters, id);
        fx_set_remove(&mut self.configuration.learners, id);
        let removed = fx_map_remove(&mut self.progress, id);
        assert(self.voter_set() + self.learner_set() =~= self.progress_map().dom());
        self.assert_progress_and_configuration_consistent();
        removed
    }

    /// Takes `id` out of the learners, then out of the voters; fails with
    /// the first group it is not in. A learner thus leaves the learners and
    /// the call fails on the voters, its progress staying in the map.
    pub fn promote_learner(&mut self, id: u64) -> (r: core::result::Result<(), Error>)
        requires
            old(self).wf(),
        ensures
            final(self).voter_set() == old(self).voter_set(),
            final(self).progress_map() == old(self).progress_map(),
            !old(self).learner_set().contains(id) ==> {
                &&& r matches Err(Error::NotExists(i, g)) && i == id && g@ == "learners"@
                &&& final(self).learner_set() == old(self).learner_set()
                &&& final(self).wf()
            },
            old(self).learner_set().contains(id) ==> {
                &&& r matches Err(Error::NotExists(i, g)) && i == id && g@ == "voters"@
                &&& final(self).learner_set() == old(self).learner_set().remove(id)
            },
    {
        if !fx_set_remove(&mut self.configuration.learners, id) {
            return Err(Error::NotExists(id, "learners"));
        }
        if !fx_set_remove(&mut self.configuration.voters, id) {
            return Err(Error::NotExists(id, "voters"));
        }
        Ok(())
    }

    /// How many of `ids` have matched at least `c`.
    fn count_at_least(&self, ids: &Vec<u64>, c: u64) -> (r: usize)
        requires
            forall|i: int| 0 <= i < ids@.len() ==> self.progress_map().contains_key(#[trigger] ids@[i]),
        ensures
            r == count_where(ids@, |id: u64| self.progress_map()[id].matched >= c),
    {
        let mut cnt: usize = 0;
        let mut j: usize = 0;
        while j < ids.len()
            invariant
                j <= ids@.len(),
                forall|i: int| 0 <= i < ids@.len() ==> self.progress_map().contains_key(#[trigger] ids@[i]),
                cnt == count_where(ids@.take(j as int), |id: u64| self.progress_map()[id].matched >= c),
                cnt <= j,
            decreases ids@.len() - j,
        {
            let id = ids[j];
            proof {
                assert(ids@.take(j + 1).drop_last() =~= ids@.take(j as int));
                assert(ids@.take(j + 1).last() == id);
                assert(self.progress_map().contains_key(ids@[j as int]));
            }
            match fx_map_get(&self.progress, id) {
                Some(p) => {
                    if p.matched >= c {
                        cnt = cnt + 1;
                    }
                },
                None => {},
            }
            j = j + 1;
        }
        proof {
            assert(ids@.take(j as int) =~= ids@);
        }
        cnt
    }

    /// The highest index that a majority of the voters match: at least a
    /// majority match up to it, and fewer than a majority beyond it.
    pub fn maximal_committed_index(&self) -> (r: u64)
        requires
            self.wf(),
            self.voter_set().len() > 0,
        ensures
            exists|id: u64| self.voter_set().contains(id) && self.progress_map()[id].matched == r,
            self.voters_matched_at_least(r) >= majority_spec(self.voter_set().len()),
            self.voters_matched_above(r) < majority_spec(self.voter_set().len()),
            2 * self.voters_matched_at_least(r) > self.voter_set().len(),
            2 * self.voters_matched_above(r) <= self.voter_set().len(),
    {
        proof {
            law_majority_is_least_quorum(self.voter_set().len());
        }
        let ids = fx_set_to_vec(&self.configuration.voters);
        let ghost m = self.progress_map();
        proof {
            lemma_count_where_set(ids@, |id: u64| true);
            assert(ids@.to_set().filter(|id: u64| true) =~= ids@.to_set());
            lemma_count_where_le(ids@, |id: u64| true);
            assert forall|i: int| 0 <= i < ids@.len() implies m.contains_key(#[trigger] ids@[i]) by {
                assert(ids@.to_set().contains(ids@[i]));
            }
        }
        let n = ids.len();
        let q = majority(n);
        let mut best: u64 = 0;
        let mut found = false;
        let mut i: usize = 0;
        while i < n
            invariant
                n == ids@.len(),
                i <= n,
                q == majority_spec(n as nat),
                m == self.progress_map(),
                forall|k: int| 0 <= k < ids@.len() ==> m.contains_key(#[trigger] ids@[k]),
                found ==> exists|j: int| 0 <= j < i && m[#[trigger] ids@[j]].matched == best,
                found ==> count_matched_ge(ids@, m, best) >= q,
                forall|j: int| 0 <= j < i && count_matched_ge(ids@, m, m[#[trigger] ids@[j]].matched) >= q
                    ==> found && m[ids@[j]].matched <= best,
            decreases n - i,
        {
            let id = ids[i];
            let c = match fx_map_get(&self.progress, id) {
                Some(p) => p.matched,
                None => 0,
            };
            proof {
                assert(m.contains_key(ids@[i as int]));
                assert(c == m[ids@[i as int]].matched);
            }
            let cnt = self.count_at_least(&ids, c);
            if cnt >= q && (!found || c > best) {
                best = c;
                found = true;
            }
            i = i + 1;
        }
        proof {
            let j0 = lemma_least_where(ids@, |id: u64| m[id].matched, |id: u64| true);
            let v0 = m[ids@[j0]].matched;
            assert forall|k: int| 0 <= k < ids@.len() implies (|id: u64| m[id].matched >= v0)(
                #[trigger] ids@[k],
            ) by {}
            lemma_count_where_le(ids@, |id: u64| m[id].matched >= v0);
            assert(count_matched_ge(ids@, m, v0) >= q);
            assert(found);
            let gt = |id: u64| m[id].matched > best;
            if count_where(ids@, gt) >= q {
                lemma_count_where_le(ids@, gt);
                let j = lemma_least_where(ids@, |id: u64| m[id].matched, gt);
                let vj = m[ids@[j]].matched;
                lemma_count_where_ext(ids@, gt, |id: u64| m[id].matched >= vj);
                assert(count_matched_ge(ids@, m, vj) >= q);
                assert(false);
            }
            lemma_count_where_set(ids@, |id: u64| m[id].matched >= best);
            lemma_count_where_set(ids@, gt);
            assert(self.voter_set().filter(|id: u64| self.progress_map()[id].matched >= best)
                =~= ids@.to_set().filter(|id: u64| m[id].matched >= best));
            assert(self.voter_set().filter(|id: u64| self.progress_map()[id].matched > best)
                =~= ids@.to_set().filter(gt));
            let j = choose|j: int| 0 <= j < n && m[#[trigger] ids@[j]].matched == best;
            assert(ids@.to_set().contains(ids@[j]));
        }
        best
    }

    /// Counts the voters heard from since the last check (`perspective_of`
    /// counting as heard from), then clears every member's activity flag
    /// except the one of `perspective_of` as a voter; returns whether the
    /// count is a majority of the voters.
    pub fn quorum_recently_active(&mut self, perspective_of: u64) -> (r: bool)
        requires
            old(self).wf(),
        ensures
            final(self).wf(),
            final(self).voter_set() == old(self).voter_set(),
            final(self).learner_set() == old(self).learner_set(),
            final(self).progress_map().dom() == old(self).progress_map().dom(),
            forall|id: u64| #[trigger] old(self).progress_map().contains_key(id) ==> final(self).progress_map()[id]
                == if old(self).voter_set().contains(id) && id == perspective_of {
                old(self).progress_map()[id]
            } else {
                cleared(old(self).progress_map()[id])
            },
            r == (old(self).voter_set().filter(
                |id: u64| id == perspective_of || old(self).progress_map()[id].recent_active,
            ).len() >= majority_spec(old(self).voter_set().len())),
            r == (2 * old(self).voter_set().filter(
                |id: u64| id == perspective_of || old(self).progress_map()[id].recent_active,
            ).len() > old(self).voter_set().len()),
    {
        proof {
            law_majority_is_least_quorum(self.voter_set().len());
        }
        let ghost m0 = self.progress_map();
        let ghost voters0 = self.voter_set();
        let voters = fx_set_to_vec(&self.configuration.voters);
        let learners = fx_set_to_vec(&self.configuration.learners);
        proof {
            assert forall|k: int| 0 <= k < voters@.len() implies voters0.contains(#[trigger] voters@[k]) by {
                assert(voters@.to_set().contains(voters@[k]));
            }
            assert forall|k: int| 0 <= k < learners@.len() implies self.learner_set().contains(#[trigger] learners@[k]) by {
                assert(learners@.to_set().contains(learners@[k]));
            }
        }
        let mut active: usize = 0;
        let mut i: usize = 0;
        while i < voters.len()
            invariant
                i <= voters@.len(),
                voters@.no_duplicates(),
                voters@.to_set() == voters0,
                forall|k: int| 0 <= k < voters@.len() ==> voters0.contains(#[trigger] voters@[k]),
                self.wf(),
                self.voter_set() == voters0,
                self.learner_set() == old(self).learner_set(),
                self.progress_map().dom() == m0.dom(),
                voters0 == old(self).voter_set(),
                m0 == old(self).progress_map(),
                forall|k: int| 0 <= k < i ==> self.progress_map()[#[trigger] voters@[k]] == after_activity_check(voters0, m0, perspective_of, voters@[k]),
                forall|id: u64| m0.contains_key(id) && !voters@.take(i as int).contains(id) ==> #[trigger] self.progress_map()[id] == m0[id],
                active == count_where(voters@.take(i as int), |x: u64| heard_from(m0, perspective_of, x)),
                active <= i,
            decreases voters@.len() - i,
        {
            let id = voters[i];
            proof {
                assert(voters@.take(i + 1).drop_last() =~= voters@.take(i as int));
                assert(voters@.take(i + 1).last() == id);
                assert(!voters@.take(i as int).contains(id)) by {
                    if voters@.take(i as int).contains(id) {
                        let k = choose|k: int| 0 <= k < i && voters@.take(i as int)[k] == id;
                        assert(voters@[k] == voters@[i as int]);
                    }
                }
                assert(self.progress_map()[id] == m0[id]);
            }
            if id == perspective_of {
                active = active + 1;
            } else {
                match fx_map_get_mut(&mut self.progress, id) {
                    Some(p) => {
                        if p.recent_active {
                            active = active + 1;
                        }
                        p.recent_active = false;
                    },
                    None => {},
                }
            }
            proof {
                assert forall|k: int| 0 <= k < i + 1 implies self.progress_map()[#[trigger] voters@[k]] == after_activity_check(voters0, m0, perspective_of, voters@[k]) by {
                    if k < i {
                        assert(voters@[k] != id);
                    }
                }
                assert forall|x: u64| m0.contains_key(x) && !voters@.take(i + 1).contains(x) implies #[trigger] self.progress_map()[x] == m0[x] by {
                    if voters@.take(i as int).contains(x) {
                        let k = choose|k: int| 0 <= k < i && voters@.take(i as int)[k] == x;
                        assert(voters@.take(i + 1)[k] == x);
                    }
                    assert(x != id) by {
                        assert(voters@.take(i + 1)[i as int] == id);
                    }
                }
                assert(self.voter_set() + self.learner_set() =~= self.progress_map().dom());
            }
            i = i + 1;
        }
        let mut j: usize = 0;
        while j < learners.len()
            invariant
                j <= learners@.len(),
                learners@.no_duplicates(),
                learners@.to_set() == old(self).learner_set(),
                forall|k: int| 0 <= k < learners@.len() ==> old(self).learner_set().contains(#[trigger] learners@[k]),
                self.wf(),
                self.voter_set() == voters0,
                self.learner_set() == old(self).learner_set(),
                self.progress_map().dom() == m0.dom(),
                voters0 == old(self).voter_set(),
                m0 == old(self).progress_map(),
                voters0.disjoint(old(self).learner_set()),
                forall|k: int| 0 <= k < j ==> self.progress_map()[#[trigger] learners@[k]] == after_activity_check(voters0, m0, perspective_of, learners@[k]),
                forall|id: u64| m0.contains_key(id) && !old(self).learner_set().contains(id) ==> #[trigger] self.progress_map()[id] == after_activity_check(voters0, m0, perspective_of, id),
                forall|id: u64| old(self).learner_set().contains(id) && !learners@.take(j as int).contains(id) ==> #[trigger] self.progress_map()[id] == m0[id],
            decreases learners@.len() - j,
        {
            let id = learners[j];
            proof {
                assert(!learners@.take(j as int).contains(id)) by {
                    if learners@.take(j as int).contains(id) {
                        let k = choose|k: int| 0 <= k < j && learners@.take(j as int)[k] == id;
                        assert(learners@[k] == learners@[j as int]);
                    }
                }
                assert(old(self).learner_set().contains(id));
                assert(!voters0.contains(id));
            }
            match fx_map_get_mut(&mut self.progress, id) {
                Some(p) => {
                    p.recent_active = false;
                },
                None => {},
            }
            proof {
                assert forall|k: int| 0 <= k < j + 1 implies self.progress_map()[#[trigger] learners@[k]] == after_activity_check(voters0, m0, perspective_of, learners@[k]) by {
                    if k < j {
                        assert(learners@[k] != id);
                    }
                }
                assert forall|x: u64| old(self).learner_set().contains(x) && !learners@.take(j + 1).contains(x) implies #[trigger] self.progress_map()[x] == m0[x] by {
                    if learners@.take(j as int).contains(x) {
                        let k = choose|k: int| 0 <= k < j && learners@.take(j as int)[k] == x;
                        assert(learners@.take(j + 1)[k] == x);
                    }
                    assert(x != id) by {
                        assert(learners@.take(j + 1)[j as int] == id);
                    }
                }
                assert(self.voter_set() + self.learner_set() =~= self.progress_map().dom());
            }
            j = j + 1;
        }
        proof {
            assert(voters@.take(i as int) =~= voters@);
            assert(learners@.take(j as int) =~= learners@);
            assert forall|id: u64| #[trigger] m0.contains_key(id) implies self.progress_map()[id] == after_activity_check(voters0, m0, perspective_of, id) by {
                if voters0.contains(id) {
                    assert(voters@.to_set().contains(id));
                    let k = choose|k: int| 0 <= k < voters@.len() && voters@[k] == id;
                } else if old(self).learner_set().contains(id) {
                    assert(learners@.to_set().contains(id));
                    let k = choose|k: int| 0 <= k < learners@.len() && learners@[k] == id;
                }
            }
            lemma_count_where_set(voters@, |x: u64| heard_from(m0, perspective_of, x));
            lemma_count_where_set(voters@, |id: u64| true);
            assert(voters@.to_set().filter(|id: u64| true) =~= voters@.to_set());
            lemma_count_where_le(voters@, |id: u64| true);
            assert(old(self).voter_set().filter(
                |id: u64| id == perspective_of || old(self).progress_map()[id].recent_active,
            ) =~= voters@.to_set().filter(|x: u64| heard_from(m0, perspective_of, x)));
        }
        let n = voters.len();
        active >= majority(n)
    }

    /// Whether the ids of `potential_quorum` are a majority of the voters
    /// in number.
    pub fn has_quorum(&self, potential_quorum: &FxHashSet<u64>) -> (r: bool)
        ensures
            r == (fx_set_ids(*potential_quorum).len() >= majority_spec(self.voter_set().len())),
            r == (2 * fx_set_ids(*potential_quorum).len() > self.voter_set().len()),
    {
        let n = fx_set_len(&self.configuration.voters);
        fx_set_len(potential_quorum) >= majority(n)
    }

    /// The outcome for candidate `id` given `votes`, a vote per voter
    /// heard from: elected with a majority of grants; eligible when exactly
    /// a majority's worth rejected; else ineligible.
    pub fn candidacy_status(&self, id: u64, votes: &[(u64, bool)]) -> (r: CandidacyStatus)
        ensures
            ({
                let accepted = granted_count(votes@);
                let quorum = majority_spec(self.voter_set().len());
                r == if accepted >= quorum {
                    CandidacyStatus::Elected
                } else if votes@.len() - accepted == quorum {
                    CandidacyStatus::Eligible
                } else {
                    CandidacyStatus::Ineligible
                }
            }),
            (r == CandidacyStatus::Elected) == (2 * granted_count(votes@) > self.voter_set().len()),
    {
        proof {
            law_majority_is_least_quorum(self.voter_set().len());
        }
        let mut accepted: usize = 0;
        let mut total: usize = 0;
        while total < votes.len()
            invariant
                total <= votes@.len(),
                accepted == granted_count(votes@.take(total as int)),
                accepted <= total,
            decreases votes@.len() - total,
        {
            proof {
                assert(votes@.take(total + 1).drop_last() =~= votes@.take(total as int));
            }
            if votes[total].1 {
                accepted = accepted + 1;
            }
            total = total + 1;
        }
        proof {
            assert(votes@.take(total as int) =~= votes@);
        }
        let n = fx_set_len(&self.configuration.voters);
        let quorum = majority(n);
        let rejected = total - accepted;
        if accepted >= quorum {
            CandidacyStatus::Elected
        } else if rejected == quorum {
            CandidacyStatus::Eligible
        } else {
            CandidacyStatus::Ineligible
        }
    }
}

} // verus!
