//! Read-only requests: how they are served, and the reads that are ready.
use vstd::prelude::*;
use std::collections::VecDeque;
use fxhash::{FxHashMap, FxHashSet};
use crate::eraft_demo::Message;
use crate::fx::{
    fx_reads, fx_reads_contains_key, fx_reads_get_mut, fx_reads_insert, fx_reads_new,
    fx_reads_remove, fx_reads_clone, fx_set_clone, fx_set_ids, fx_set_insert, fx_set_new,
};

verus! {

/// How read-only requests are served.
#[derive(Debug, Clone, Copy, PartialEq, Eq, Structural)]
pub enum ReadOnlyOption {
    /// Each read is confirmed by a quorum of heartbeats.
    Safe,
    /// Reads rely on the leader's lease.
    LeaseBase,
}

impl Default for ReadOnlyOption {
    fn default() -> (r: ReadOnlyOption)
        ensures
            r == ReadOnlyOption::Safe,
    {
        ReadOnlyOption::Safe
    }
}

/// A read request that can be served once the log is applied up to `index`.
#[derive(Debug, Clone)]
pub struct ReadState {
    pub index: u64,
    pub request_ctx: Vec<u8>,
}

impl Default for ReadState {
    /// A read at index zero with an empty context.
    fn default() -> (r: ReadState)
        ensures
            r.index == 0,
            r.request_ctx@ == Seq::<u8>::empty(),
    {
        ReadState { index: 0, request_ctx: Vec::new() }
    }
}


/// A read request waiting for heartbeat acknowledgements.
pub struct ReadIndexStatus {
    pub req: Message,
    /// The commit index when the request arrived.
    pub index: u64,
    /// The nodes that acknowledged.
    pub acks: FxHashSet<u64>,
}

impl Clone for ReadIndexStatus {
    /// The same request, index and acknowledgements.
    fn clone(&self) -> (r: ReadIndexStatus)
        ensures
            cloned::<Message>(self.req, r.req),
            r.index == self.index,
            fx_set_ids(r.acks) == fx_set_ids(self.acks),
    {
        ReadIndexStatus { req: self.req.clone(), index: self.index, acks: fx_set_clone(&self.acks) }
    }
}

impl Default for ReadIndexStatus {
    /// A default request at index zero with no acknowledgements.
    fn default() -> (r: ReadIndexStatus)
        ensures
            r.req.msg_type == crate::eraft_demo::MessageType::MsgHup,
            r.req.entries@ == Seq::<crate::eraft_demo::Entry>::empty(),
            r.req.context@ == Seq::<u8>::empty(),
            r.index == 0,
            fx_set_ids(r.acks) == Set::<u64>::empty(),
    {
        ReadIndexStatus { req: Message::new(), index: 0, acks: fx_set_new() }
    }
}

/// The read requests awaiting confirmation, in arrival order.
pub struct ReadOnly {
    pub option: ReadOnlyOption,
    pub pending_read_index: FxHashMap<Vec<u8>, ReadIndexStatus>,
    pub read_index_queue: VecDeque<Vec<u8>>,
}

/// Whether two byte strings are equal.
fn bytes_eq(a: &[u8], b: &[u8]) -> (r: bool)
    ensures
        r == (a@ == b@),
{
    if a.len() != b.len() {
        return false;
    }
    let mut i: usize = 0;
    while i < a.len()
        invariant
            i <= a@.len(),
            a@.len() == b@.len(),
            forall|k: int| 0 <= k < i ==> a@[k] == b@[k],
        decreases a@.len() - i,
    {
        if a[i] != b[i] {
            return false;
        }
        i = i + 1;
    }
    assert(a@ =~= b@);
    true
}

/// Copies a byte string.
fn bytes_to_vec(a: &[u8]) -> (r: Vec<u8>)
    ensures
        r@ == a@,
{
    let mut v: Vec<u8> = Vec::new();
    let mut i: usize = 0;
    while i < a.len()
        invariant
            i <= a@.len(),
            v@ == a@.take(i as int),
        decreases a@.len() - i,
    {
        v.push(a[i]);
        proof {
            assert(a@.take(i + 1) =~= a@.take(i as int).push(a@[i as int]));
        }
        i = i + 1;
    }
    assert(a@.take(i as int) =~= a@);
    v
}

impl Clone for ReadOnly {
    /// The same option and queue, each pending read cloned.
    fn clone(&self) -> (r: ReadOnly)
        ensures
            r.option == self.option,
            r.queue_view() == self.queue_view(),
            r.pending_view().dom() == self.pending_view().dom(),
            forall|ctx: Seq<u8>| #[trigger] self.pending_view().contains_key(ctx) ==> cloned::<
                ReadIndexStatus,
            >(self.pending_view()[ctx], r.pending_view()[ctx]),
            self.wf() ==> r.wf(),
    {
        let queue = self.read_index_queue.clone();
        proof {
            assert forall|i: int| 0 <= i < queue@.len() implies #[trigger] queue@[i]@ == self.read_index_queue@[i]@ by {
                assert(cloned::<Vec<u8>>(self.read_index_queue@[i], queue@[i]));
            }
        }
        let r = ReadOnly {
            option: self.option,
            pending_read_index: fx_reads_clone(&self.pending_read_index),
            read_index_queue: queue,
        };
        assert(r.queue_view() =~= self.queue_view());
        r
    }
}

impl Default for ReadOnly {
    /// Safe reads, with nothing pending.
    fn default() -> (r: ReadOnly)
        ensures
            r.option == ReadOnlyOption::Safe,
            r.wf(),
            r.queue_view() == Seq::<Seq<u8>>::empty(),
            r.pending_view().dom() == Set::<Seq<u8>>::empty(),
    {
        ReadOnly::new(ReadOnlyOption::Safe)
    }
}

impl ReadOnly {
    /// The contexts in the queue, as byte sequences, oldest first.
    pub open spec fn queue_view(&self) -> Seq<Seq<u8>> {
        self.read_index_queue@.map_values(|v: Vec<u8>| v@)
    }

    /// The pending reads, by context.
    pub open spec fn pending_view(&self) -> Map<Seq<u8>, ReadIndexStatus> {
        fx_reads(self.pending_read_index)
    }

    /// Each pending read is queued once, and the queue holds nothing else.
    pub open spec fn wf(&self) -> bool {
        &&& self.queue_view().no_duplicates()
        &&& self.queue_view().to_set() == self.pending_view().dom()
    }

    /// The position of the first queued context equal to `ctx`, if any.
    pub open spec fn position_of(&self, ctx: Seq<u8>) -> Option<int> {
        if exists|i: int| 0 <= i < self.queue_view().len() && self.queue_view()[i] == ctx {
            Some(choose|i: int| 0 <= i < self.queue_view().len() && self.queue_view()[i] == ctx)
        } else {
            None
        }
    }

    /// No pending reads.
    pub fn new(option: ReadOnlyOption) -> (r: ReadOnly)
        ensures
            r.option == option,
            r.wf(),
            r.queue_view() == Seq::<Seq<u8>>::empty(),
            r.pending_view().dom() == Set::<Seq<u8>>::empty(),
    {
        let r = ReadOnly {
            option,
            pending_read_index: fx_reads_new(),
            read_index_queue: VecDeque::new(),
        };
        assert(r.queue_view() =~= Seq::<Seq<u8>>::empty());
        assert(r.queue_view().to_set() =~= Set::<Seq<u8>>::empty());
        r
    }

    /// Queues the read request `msg`, made at commit index `index`, under
    /// the data of its first entry; a request already pending is ignored.
    pub fn add_request(&mut self, index: u64, msg: Message)
        requires
            old(self).wf(),
            msg.entries@.len() > 0,
        ensures
            final(self).wf(),
            final(self).option == old(self).option,
            ({
                let key = msg.entries@[0].data@;
                if old(self).pending_view().contains_key(key) {
                    &&& final(self).queue_view() == old(self).queue_view()
                    &&& final(self).pending_view() == old(self).pending_view()
                } else {
                    &&& final(self).queue_view() == old(self).queue_view().push(key)
                    &&& final(self).pending_view().dom() == old(self).pending_view().dom().insert(key)
                    &&& forall|k: Seq<u8>| k != key && #[trigger] old(self).pending_view().contains_key(k)
                        ==> final(self).pending_view()[k] == old(self).pending_view()[k]
                    &&& final(self).pending_view()[key].req == msg
                    &&& final(self).pending_view()[key].index == index
                    &&& fx_set_ids(final(self).pending_view()[key].acks) == Set::<u64>::empty()
                }
            }),
    {
        let key: &[u8] = msg.entries[0].data.as_slice();
        if fx_reads_contains_key(&self.pending_read_index, key) {
            return;
        }
        let ctx = bytes_to_vec(key);
        let ctx2 = bytes_to_vec(key);
        let ghost kv = ctx@;
        let status = ReadIndexStatus { req: msg, index, acks: fx_set_new() };
        fx_reads_insert(&mut self.pending_read_index, ctx, status);
        let ghost q0 = self.queue_view();
        self.read_index_queue.push_back(ctx2);
        proof {
            assert(self.queue_view() =~= q0.push(kv));
            assert(!q0.contains(kv)) by {
                if q0.contains(kv) {
                    assert(q0.to_set().contains(kv));
                }
            }
            q0.lemma_push_to_set_commute(kv);
        }
    }

    /// Records `msg.from`'s acknowledgement of the read with context
    /// `msg.context`; returns its acknowledgements together with `msg.to`
    /// (the node itself), or none when no such read is pending.
    pub fn recv_ack(&mut self, msg: &Message) -> (r: FxHashSet<u64>)
        ensures
            final(self).queue_view() == old(self).queue_view(),
            final(self).option == old(self).option,
            final(self).pending_view().dom() == old(self).pending_view().dom(),
            !old(self).pending_view().contains_key(msg.context@) ==> {
                &&& fx_set_ids(r) == Set::<u64>::empty()
                &&& final(self).pending_view() == old(self).pending_view()
            },
            old(self).pending_view().contains_key(msg.context@) ==> {
                let s = old(self).pending_view()[msg.context@];
                let acks = fx_set_ids(s.acks).insert(msg.from);
                &&& fx_set_ids(final(self).pending_view()[msg.context@].acks) == acks
                &&& final(self).pending_view()[msg.context@].req == s.req
                &&& final(self).pending_view()[msg.context@].index == s.index
                &&& forall|k: Seq<u8>| k != msg.context@ && #[trigger] old(self).pending_view().contains_key(k)
                    ==> final(self).pending_view()[k] == old(self).pending_view()[k]
                &&& fx_set_ids(r) == acks.insert(msg.to)
            },
    {
        match fx_reads_get_mut(&mut self.pending_read_index, msg.context.as_slice()) {
            None => fx_set_new(),
            Some(read_status) => {
                fx_set_insert(&mut read_status.acks, msg.from);
                let mut with_self = fx_set_clone(&read_status.acks);
                fx_set_insert(&mut with_self, msg.to);
                with_self
            },
        }
    }

    /// Takes out, in order, the queued reads up to and including the one
    /// with context `m.context`; none when it is not queued.
    pub fn advance(&mut self, m: &Message) -> (r: Vec<ReadIndexStatus>)
        requires
            old(self).wf(),
        ensures
            final(self).wf(),
            final(self).option == old(self).option,
            match old(self).position_of(m.context@) {
                None => {
                    &&& r@ == Seq::<ReadIndexStatus>::empty()
                    &&& final(self).queue_view() == old(self).queue_view()
                    &&& final(self).pending_view() == old(self).pending_view()
                },
                Some(i) => {
                    &&& r@.len() == i + 1
                    &&& forall|k: int| 0 <= k <= i ==> #[trigger] r@[k] == old(self).pending_view()[old(
                        self,
                    ).queue_view()[k]]
                    &&& final(self).queue_view() == old(self).queue_view().skip(i + 1)
                    &&& final(self).pending_view() == old(self).pending_view().remove_keys(
                        old(self).queue_view().take(i + 1).to_set(),
                    )
                },
            },
    {
        let mut rss: Vec<ReadIndexStatus> = Vec::new();
        let ctx = m.context.as_slice();
        let n = self.read_index_queue.len();
        let ghost q0 = self.queue_view();
        let ghost p0 = self.pending_view();
        let mut pos: usize = 0;
        let mut found = false;
        while pos < n
            invariant_except_break
                n == q0.len(),
                q0 == self.queue_view(),
                pos <= n,
                !found,
                forall|k: int| 0 <= k < pos ==> q0[k] != ctx@,
            ensures
                n == q0.len(),
                q0 == self.queue_view(),
                pos <= n,
                forall|k: int| 0 <= k < pos ==> q0[k] != ctx@,
                found ==> pos < n && q0[pos as int] == ctx@,
                !found ==> pos == n,
            decreases n - pos,
        {
            let x = &self.read_index_queue[pos];
            proof {
                assert(q0[pos as int] == x@);
            }
            if bytes_eq(x.as_slice(), ctx) {
                found = true;
                break;
            }
            pos = pos + 1;
        }
        if !found {
            proof {
                assert(old(self).position_of(m.context@) is None);
            }
            return rss;
        }
        proof {
            assert(old(self).position_of(m.context@) == Some(pos as int)) by {
                let c = choose|i: int| 0 <= i < q0.len() && q0[i] == ctx@;
                if c < pos {
                } else if c > pos {
                    assert(q0[c] == q0[pos as int]);
                }
            }
        }
        let mut taken: usize = 0;
        while taken <= pos
            invariant
                pos < n,
                n == q0.len(),
                taken <= pos + 1,
                q0.no_duplicates(),
                q0.to_set() == p0.dom(),
                self.queue_view() == q0.skip(taken as int),
                self.pending_view() == p0.remove_keys(q0.take(taken as int).to_set()),
                rss@.len() == taken,
                forall|k: int| 0 <= k < taken ==> #[trigger] rss@[k] == p0[q0[k]],
                self.option == old(self).option,
            decreases pos + 1 - taken,
        {
            let ghost qv = self.read_index_queue@;
            proof {
                assert(q0.skip(taken as int).len() > 0);
                assert(self.queue_view()[0] == qv[0]@);
            }
            let front = self.read_index_queue.pop_front();
            match front {
                Some(rs) => {
                    proof {
                        assert(q0.skip(taken as int)[0] == q0[taken as int]);
                        assert(rs@ == q0[taken as int]);
                        assert(q0.to_set().contains(q0[taken as int]));
                        assert(!q0.take(taken as int).to_set().contains(q0[taken as int])) by {
                            if q0.take(taken as int).contains(q0[taken as int]) {
                                let k = choose|k: int| 0 <= k < taken && q0.take(taken as int)[k] == q0[taken as int];
                                assert(q0[k] == q0[taken as int]);
                            }
                        }
                    }
                    let status = fx_reads_remove(&mut self.pending_read_index, rs.as_slice());
                    match status {
                        Some(s) => {
                            rss.push(s);
                        },
                        None => {},
                    }
                    proof {
                        assert forall|k: int| 0 <= k < self.queue_view().len() implies self.queue_view()[k]
                            == q0.skip(taken + 1)[k] by {
                            assert(self.read_index_queue@[k] == qv[k + 1]);
                            assert(self.queue_view()[k] == self.read_index_queue@[k]@);
                            assert(q0.skip(taken as int)[k + 1] == qv[k + 1]@);
                        }
                        assert(self.queue_view() =~= q0.skip(taken + 1));
                        assert(q0.take(taken + 1).to_set() =~= q0.take(taken as int).to_set().insert(q0[taken as int])) by {
                            assert(q0.take(taken + 1) =~= q0.take(taken as int).push(q0[taken as int]));
                            q0.take(taken as int).lemma_push_to_set_commute(q0[taken as int]);
                        }
                        assert(self.pending_view() =~= p0.remove_keys(q0.take(taken + 1).to_set()));
                    }
                },
                None => {},
            }
            taken = taken + 1;
        }
        proof {
            let q1 = q0.skip(pos + 1);
            let qt = q0.take(pos + 1);
            assert(q1.no_duplicates());
            assert forall|x: Seq<u8>| #[trigger] q1.to_set().contains(x) <==> self.pending_view().contains_key(x) by {
                if q1.contains(x) {
                    let k = choose|k: int| 0 <= k < q1.len() && q1[k] == x;
                    assert(q0[pos + 1 + k] == x);
                    assert(q0.to_set().contains(x));
                    if qt.contains(x) {
                        let j = choose|j: int| 0 <= j < qt.len() && qt[j] == x;
                        assert(q0[j] == q0[pos + 1 + k]);
                    }
                }
                if self.pending_view().contains_key(x) {
                    assert(q0.to_set().contains(x));
                    let k = choose|k: int| 0 <= k < q0.len() && q0[k] == x;
                    if k <= pos {
                        assert(qt[k] == x);
                    } else {
                        assert(q1[k - pos - 1] == x);
                    }
                }
            }
            assert(q1.to_set() =~= self.pending_view().dom());
        }
        rss
    }

    /// The context of the newest pending read, if any.
    pub fn last_pending_request_ctx(&self) -> (r: Option<Vec<u8>>)
        ensures
            match r {
                Some(v) => self.queue_view().len() > 0 && v@ == self.queue_view().last(),
                None => self.queue_view().len() == 0,
            },
    {
        let n = self.read_index_queue.len();
        if n == 0 {
            return None;
        }
        let last = &self.read_index_queue[n - 1];
        proof {
            assert(self.queue_view()[n - 1] == last@);
        }
        Some(bytes_to_vec(last.as_slice()))
    }

    /// How many reads are pending.
    pub fn pending_read_count(&self) -> (r: usize)
        ensures
            r == self.queue_view().len(),
    {
        self.read_index_queue.len()
    }
}

} // verus!
