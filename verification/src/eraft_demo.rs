//! The messages that the library keeps and exchanges: log entries, the
//! persistent hard state, the cluster membership and snapshots.
use vstd::prelude::*;

verus! {

/// The kind of a log entry.
#[derive(Debug, Clone, Copy, PartialEq, Eq, Structural)]
pub enum EntryType {
    EntryNormal,
    EntryConfChange,
}

/// What an entry holds, with its byte fields as sequences.
pub struct EntryView {
    pub entry_type: EntryType,
    pub term: u64,
    pub index: u64,
    pub data: Seq<u8>,
    pub context: Seq<u8>,
    pub sync_log: bool,
}

/// A log entry.
pub struct Entry {
    pub entry_type: EntryType,
    pub term: u64,
    pub index: u64,
    pub data: Vec<u8>,
    pub context: Vec<u8>,
    pub sync_log: bool,
}

impl View for Entry {
    type V = EntryView;

    open spec fn view(&self) -> EntryView {
        EntryView {
            entry_type: self.entry_type,
            term: self.term,
            index: self.index,
            data: self.data@,
            context: self.context@,
            sync_log: self.sync_log,
        }
    }
}

impl Clone for Entry {
    fn clone(&self) -> (r: Entry)
        ensures
            r@ == self@,
    {
        let data = self.data.clone();
        let context = self.context.clone();
        proof {
            assert(data@ =~= self.data@);
            assert(context@ =~= self.context@);
        }
        Entry {
            entry_type: self.entry_type,
            term: self.term,
            index: self.index,
            data,
            context,
            sync_log: self.sync_log,
        }
    }
}

/// The views of a sequence of entries.
pub open spec fn entry_views(s: Seq<Entry>) -> Seq<EntryView> {
    s.map_values(|e: Entry| e@)
}

/// The number of bytes of the base-128 varint encoding of `v`.
pub open spec fn varint_len(v: nat) -> nat
    decreases v,
{
    if v < 128 {
        1
    } else {
        1 + varint_len(v / 128)
    }
}

/// The number of bytes of the tag of field `field` in the wire format.
pub open spec fn tag_len(field: nat) -> nat {
    varint_len(field * 8 + 1)
}

/// `128` to the power `k`.
pub open spec fn pow128(k: nat) -> nat
    decreases k,
{
    if k == 0 {
        1
    } else {
        128 * pow128((k - 1) as nat)
    }
}

proof fn lemma_varint_len_bound(v: nat, k: nat)
    requires
        k >= 1,
        v < pow128(k),
    ensures
        varint_len(v) <= k,
    decreases k,
{
    if v >= 128 {
        let p = pow128((k - 1) as nat);
        assert(k >= 2) by {
            if k == 1 {
                assert(pow128(1) == 128 * pow128(0));
            }
        }
        assert(v / 128 < p) by (nonlinear_arith)
            requires
                v < 128 * p,
        ;
        lemma_varint_len_bound(v / 128, (k - 1) as nat);
    }
}

/// A varint of a 64-bit value takes at most ten bytes.
pub proof fn lemma_varint_len_u64(v: u64)
    ensures
        1 <= varint_len(v as nat) <= 10,
{
    reveal_with_fuel(pow128, 11);
    assert(pow128(10) == 0x4000_0000_0000_0000_00u128 as nat);
    lemma_varint_len_bound(v as nat, 10);
}

/// The size of a varint-encoded `uint64` field, as generated code computes it.
///
/// Calls `protobuf::rt::value_size` with the varint wire type. Its source
/// adds `tag_size(field)`, the varint length of `(field << 3) | 1`, and
/// `compute_raw_varint64_size(value)`, the number of 7-bit groups of `value`;
/// the contract states that sum. `Tag::make` asserts that the field number
/// lies in `1..=0x1fffffff`, which `requires` keeps.
#[verifier::external_body]
fn pb_value_size(field: u32, value: u64) -> (r: u32)
    requires
        0 < field <= 0x1fff_ffff,
    ensures
        r == tag_len(field as nat) + varint_len(value as nat),
{
    protobuf::rt::value_size(field, value, protobuf::wire_format::WireType::WireTypeVarint)
}

/// The size of a length-delimited `bytes` field, as generated code computes it.
///
/// Calls `protobuf::rt::bytes_size`, whose source adds the tag size, the
/// varint length of the byte count and the byte count. `requires` keeps the
/// field number valid and the sum within `u32`.
#[verifier::external_body]
fn pb_bytes_size(field: u32, bytes: &[u8]) -> (r: u32)
    requires
        0 < field <= 0x1fff_ffff,
        bytes@.len() + 16 <= u32::MAX,
    ensures
        r == tag_len(field as nat) + varint_len(bytes@.len()) + bytes@.len(),
{
    protobuf::rt::bytes_size(field, bytes)
}

/// The size of the wire encoding of an entry: each field that differs from
/// its default adds its tag and its encoded value.
pub open spec fn entry_encoded_size(e: EntryView) -> nat {
    (if e.entry_type == EntryType::EntryNormal { 0nat } else { tag_len(1) + varint_len(1) })
        + (if e.term == 0 { 0nat } else { tag_len(2) + varint_len(e.term as nat) })
        + (if e.index == 0 { 0nat } else { tag_len(3) + varint_len(e.index as nat) })
        + (if e.data.len() == 0 { 0nat } else { tag_len(4) + varint_len(e.data.len()) + e.data.len() })
        + (if e.context.len() == 0 { 0nat } else { tag_len(6) + varint_len(e.context.len()) + e.context.len() })
        + (if e.sync_log { 2nat } else { 0nat })
}

/// The byte fields of an entry are small enough that its size fits `u32`.
pub open spec fn entry_size_fits(e: EntryView) -> bool {
    e.data.len() + e.context.len() <= 0xffff_0000
}

impl Entry {
    /// An entry with every field at its default.
    pub fn new() -> (r: Entry)
        ensures
            r@ == (EntryView {
                entry_type: EntryType::EntryNormal,
                term: 0,
                index: 0,
                data: Seq::empty(),
                context: Seq::empty(),
                sync_log: false,
            }),
    {
        Entry {
            entry_type: EntryType::EntryNormal,
            term: 0,
            index: 0,
            data: Vec::new(),
            context: Vec::new(),
            sync_log: false,
        }
    }

    pub fn get_term(&self) -> (r: u64)
        ensures
            r == self.term,
    {
        self.term
    }

    pub fn set_term(&mut self, v: u64)
        ensures
            final(self)@ == (EntryView { term: v, ..old(self)@ }),
    {
        self.term = v;
    }

    pub fn get_index(&self) -> (r: u64)
        ensures
            r == self.index,
    {
        self.index
    }

    pub fn set_index(&mut self, v: u64)
        ensures
            final(self)@ == (EntryView { index: v, ..old(self)@ }),
    {
        self.index = v;
    }

    pub fn get_entry_type(&self) -> (r: EntryType)
        ensures
            r == self.entry_type,
    {
        self.entry_type
    }

    /// The size of the entry's wire encoding.
    pub fn compute_size(&self) -> (r: u32)
        requires
            entry_size_fits(self@),
        ensures
            r == entry_encoded_size(self@),
    {
        proof {
            lemma_varint_len_u64(1);
            lemma_varint_len_u64(9);
            lemma_varint_len_u64(17);
            lemma_varint_len_u64(25);
            lemma_varint_len_u64(33);
            lemma_varint_len_u64(49);
            lemma_varint_len_u64(self.term);
            lemma_varint_len_u64(self.index);
            lemma_varint_len_u64(self.data@.len() as u64);
            lemma_varint_len_u64(self.context@.len() as u64);
        }
        let mut my_size: u32 = 0;
        if self.entry_type != EntryType::EntryNormal {
            my_size = my_size + pb_value_size(1, 1);
        }
        if self.term != 0 {
            my_size = my_size + pb_value_size(2, self.term);
        }
        if self.index != 0 {
            my_size = my_size + pb_value_size(3, self.index);
        }
        if self.data.len() != 0 {
            my_size = my_size + pb_bytes_size(4, self.data.as_slice());
        }
        if self.context.len() != 0 {
            my_size = my_size + pb_bytes_size(6, self.context.as_slice());
        }
        if self.sync_log {
            my_size = my_size + 2;
        }
        my_size
    }
}


/// The state that a node keeps on stable storage: its term, its vote and
/// its commit index.
#[derive(Debug, Clone, Copy, PartialEq, Eq, Structural)]
pub struct HardState {
    pub term: u64,
    pub vote: u64,
    pub commit: u64,
}

impl HardState {
    /// A hard state with every field zero.
    pub fn new() -> (r: HardState)
        ensures
            r == (HardState { term: 0, vote: 0, commit: 0 }),
    {
        HardState { term: 0, vote: 0, commit: 0 }
    }

    pub fn clean_term(&mut self)
        ensures
            *final(self) == (HardState { term: 0, ..*old(self) }),
    {
        self.term = 0;
    }

    pub fn set_term(&mut self, new_term: u64)
        ensures
            *final(self) == (HardState { term: new_term, ..*old(self) }),
    {
        self.term = new_term;
    }

    pub fn get_term(&self) -> (r: u64)
        ensures
            r == self.term,
    {
        self.term
    }

    pub fn clean_vote(&mut self)
        ensures
            *final(self) == (HardState { vote: 0, ..*old(self) }),
    {
        self.vote = 0;
    }

    pub fn set_vote(&mut self, new_vote: u64)
        ensures
            *final(self) == (HardState { vote: new_vote, ..*old(self) }),
    {
        self.vote = new_vote;
    }

    pub fn get_vote(&self) -> (r: u64)
        ensures
            r == self.vote,
    {
        self.vote
    }

    pub fn clean_commit(&mut self)
        ensures
            *final(self) == (HardState { commit: 0, ..*old(self) }),
    {
        self.commit = 0;
    }

    pub fn set_commit(&mut self, new_commit: u64)
        ensures
            *final(self) == (HardState { commit: new_commit, ..*old(self) }),
    {
        self.commit = new_commit;
    }

    pub fn get_commit(&self) -> (r: u64)
        ensures
            r == self.commit,
    {
        self.commit
    }
}

/// The voters and the learners of the cluster.
pub struct ConfState {
    pub nodes: Vec<u64>,
    pub learners: Vec<u64>,
}

/// The ids of a membership, as sequences.
pub struct ConfStateView {
    pub nodes: Seq<u64>,
    pub learners: Seq<u64>,
}

impl View for ConfState {
    type V = ConfStateView;

    open spec fn view(&self) -> ConfStateView {
        ConfStateView { nodes: self.nodes@, learners: self.learners@ }
    }
}

impl Clone for ConfState {
    fn clone(&self) -> (r: ConfState)
        ensures
            r@ == self@,
    {
        let nodes = self.nodes.clone();
        let learners = self.learners.clone();
        proof {
            assert(nodes@ =~= self.nodes@);
            assert(learners@ =~= self.learners@);
        }
        ConfState { nodes, learners }
    }
}

impl ConfState {
    /// A membership with no voters and no learners.
    pub fn new() -> (r: ConfState)
        ensures
            r.nodes@ == Seq::<u64>::empty(),
            r.learners@ == Seq::<u64>::empty(),
    {
        ConfState { nodes: Vec::new(), learners: Vec::new() }
    }

    pub fn clear_nodes(&mut self)
        ensures
            final(self).nodes@ == Seq::<u64>::empty(),
            final(self).learners == old(self).learners,
    {
        self.nodes.clear();
    }

    pub fn set_nodes(&mut self, new_nodes: Vec<u64>)
        ensures
            final(self).nodes == new_nodes,
            final(self).learners == old(self).learners,
    {
        self.nodes = new_nodes;
    }

    pub fn mut_nodes(&mut self) -> (r: &mut Vec<u64>)
        ensures
            *r == old(self).nodes,
            final(self).nodes == *final(r),
            final(self).learners == old(self).learners,
    {
        &mut self.nodes
    }

    pub fn take_nodes(&mut self) -> (r: Vec<u64>)
        ensures
            r == old(self).nodes,
            final(self).nodes@ == Seq::<u64>::empty(),
            final(self).learners == old(self).learners,
    {
        let mut taken = Vec::new();
        core::mem::swap(&mut self.nodes, &mut taken);
        taken
    }

    pub fn get_nodes(&self) -> (r: &[u64])
        ensures
            r@ == self.nodes@,
    {
        self.nodes.as_slice()
    }

    pub fn clear_learners(&mut self)
        ensures
            final(self).learners@ == Seq::<u64>::empty(),
            final(self).nodes == old(self).nodes,
    {
        self.learners.clear();
    }

    pub fn set_learners(&mut self, new_learner: Vec<u64>)
        ensures
            final(self).learners == new_learner,
            final(self).nodes == old(self).nodes,
    {
        self.learners = new_learner;
    }

    pub fn mut_learners(&mut self) -> (r: &mut Vec<u64>)
        ensures
            *r == old(self).learners,
            final(self).learners == *final(r),
            final(self).nodes == old(self).nodes,
    {
        &mut self.learners
    }

    pub fn take_learners(&mut self) -> (r: Vec<u64>)
        ensures
            r == old(self).learners,
            final(self).learners@ == Seq::<u64>::empty(),
            final(self).nodes == old(self).nodes,
    {
        let mut taken = Vec::new();
        core::mem::swap(&mut self.learners, &mut taken);
        taken
    }

    pub fn get_learners(&self) -> (r: &[u64])
        ensures
            r@ == self.learners@,
    {
        self.learners.as_slice()
    }
}

/// The kinds of membership change.
#[derive(Debug, Clone, Copy, PartialEq, Eq, Structural)]
pub enum ConfChangeType {
    AddNode,
    RemoveNode,
    AddLearnerNode,
}

/// Where a snapshot stands in the log, and the membership at that point.
pub struct SnapshotMetadata {
    pub conf_state: ConfState,
    pub index: u64,
    pub term: u64,
}

/// A snapshot: the state machine's data up to `metadata.index`.
pub struct Snapshot {
    pub data: Vec<u8>,
    pub metadata: SnapshotMetadata,
}

/// What a snapshot holds, with its byte and id fields as sequences.
pub struct SnapshotView {
    pub data: Seq<u8>,
    pub conf_state: ConfStateView,
    pub index: u64,
    pub term: u64,
}

impl View for Snapshot {
    type V = SnapshotView;

    open spec fn view(&self) -> SnapshotView {
        SnapshotView {
            data: self.data@,
            conf_state: self.metadata.conf_state@,
            index: self.metadata.index,
            term: self.metadata.term,
        }
    }
}

impl Clone for Snapshot {
    fn clone(&self) -> (r: Snapshot)
        ensures
            r@ == self@,
    {
        let data = self.data.clone();
        proof {
            assert(data@ =~= self.data@);
        }
        let conf_state = self.metadata.conf_state.clone();
        Snapshot {
            data,
            metadata: SnapshotMetadata {
                conf_state,
                index: self.metadata.index,
                term: self.metadata.term,
            },
        }
    }
}

impl Snapshot {
    /// An empty snapshot at index and term zero.
    pub fn new() -> (r: Snapshot)
        ensures
            r@.data == Seq::<u8>::empty(),
            r@.conf_state.nodes == Seq::<u64>::empty(),
            r@.conf_state.learners == Seq::<u64>::empty(),
            r@.index == 0,
            r@.term == 0,
    {
        Snapshot {
            data: Vec::new(),
            metadata: SnapshotMetadata { conf_state: ConfState::new(), index: 0, term: 0 },
        }
    }
}


/// The kinds of message that nodes exchange.
#[derive(Debug, Clone, Copy, PartialEq, Eq, Structural)]
pub enum MessageType {
    MsgHup,
    MsgBeat,
    MsgPropose,
    MsgAppend,
    MsgAppendResponse,
    MsgRequestVote,
    MsgRequestVoteResponse,
    MsgSnapshot,
    MsgHeartbeat,
    MsgHeartbeatResponse,
    MsgUnreachable,
    MsgSnapStatus,
    MsgCheckQuorum,
    MsgTransferLeader,
    MsgTimeoutNow,
    MsgReadIndex,
    MsgReadIndexResp,
    MsgRequestPreVote,
    MsgRequestPreVoteResponse,
}

/// A message between nodes.
#[derive(Clone)]
pub struct Message {
    pub msg_type: MessageType,
    pub to: u64,
    pub from: u64,
    pub term: u64,
    pub log_term: u64,
    pub index: u64,
    pub entries: Vec<Entry>,
    pub commit: u64,
    pub snapshot: Snapshot,
    pub reject: bool,
    pub reject_hint: u64,
    pub context: Vec<u8>,
}

impl Message {
    /// A message with every field at its default.
    pub fn new() -> (r: Message)
        ensures
            r.msg_type == MessageType::MsgHup,
            r.to == 0,
            r.from == 0,
            r.term == 0,
            r.log_term == 0,
            r.index == 0,
            r.entries@ == Seq::<Entry>::empty(),
            r.commit == 0,
            r.snapshot@.index == 0,
            r.snapshot@.term == 0,
            r.snapshot@.data == Seq::<u8>::empty(),
            r.snapshot@.conf_state.nodes == Seq::<u64>::empty(),
            r.snapshot@.conf_state.learners == Seq::<u64>::empty(),
            !r.reject,
            r.reject_hint == 0,
            r.context@ == Seq::<u8>::empty(),
    {
        Message {
            msg_type: MessageType::MsgHup,
            to: 0,
            from: 0,
            term: 0,
            log_term: 0,
            index: 0,
            entries: Vec::new(),
            commit: 0,
            snapshot: Snapshot::new(),
            reject: false,
            reject_hint: 0,
            context: Vec::new(),
        }
    }

    pub fn get_entries(&self) -> (r: &[Entry])
        ensures
            r@ == self.entries@,
    {
        self.entries.as_slice()
    }

    pub fn get_context(&self) -> (r: &[u8])
        ensures
            r@ == self.context@,
    {
        self.context.as_slice()
    }

    pub fn get_from(&self) -> (r: u64)
        ensures
            r == self.from,
    {
        self.from
    }

    pub fn get_to(&self) -> (r: u64)
        ensures
            r == self.to,
    {
        self.to
    }
}

} // verus!
