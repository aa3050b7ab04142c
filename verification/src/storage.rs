//! Stable storage of the log: the interface that the log reads through,
//! and an in-memory implementation of it.
use vstd::prelude::*;
use crate::eraft_demo::{
    ConfState, ConfStateView, Entry, EntryType, EntryView, HardState, Snapshot, SnapshotView,
    entry_views,
};
use crate::errors::{Error, Result, StorageError};
use crate::util::{limit_size, limited_len, sizes_fit};

verus! {

/// The state a node starts from.
pub struct RaftState {
    pub hard_state: HardState,
    pub conf_state: ConfState,
}

/// What a `RaftState` holds.
pub struct RaftStateView {
    pub hard_state: HardState,
    pub conf_state: ConfStateView,
}

impl View for RaftState {
    type V = RaftStateView;

    open spec fn view(&self) -> RaftStateView {
        RaftStateView { hard_state: self.hard_state, conf_state: self.conf_state@ }
    }
}

/// Where the log reads the entries that have reached stable storage.
/// Each method's result is the one its spec function gives.
pub trait Storage {
    /// The storage is in a state its methods accept.
    spec fn storage_wf(&self) -> bool;

    spec fn initial_state_spec(&self) -> core::result::Result<RaftStateView, Error>;

    /// `entries(low, high, _)` returns rather than panics.
    spec fn entries_callable(&self, low: u64, high: u64) -> bool;

    spec fn entries_spec(&self, low: u64, high: u64, max_size: u64) -> core::result::Result<Seq<EntryView>, Error>;

    spec fn term_spec(&self, idx: u64) -> Result<u64>;

    spec fn first_index_spec(&self) -> Result<u64>;

    spec fn last_index_spec(&self) -> Result<u64>;

    spec fn snapshot_spec(&self) -> core::result::Result<SnapshotView, Error>;

    /// The hard state and membership to start from.
    fn initial_state(&self) -> (r: Result<RaftState>)
        requires
            self.storage_wf(),
        ensures
            match r {
                Ok(rs) => self.initial_state_spec() == Ok::<RaftStateView, Error>(rs@),
                Err(e) => self.initial_state_spec() == Err::<RaftStateView, Error>(e),
            },
    ;

    /// The entries with indices in `[low, high)`, their total size limited
    /// by `max_size`.
    fn entries(&self, low: u64, high: u64, max_size: u64) -> (r: Result<Vec<Entry>>)
        requires
            self.storage_wf(),
            self.entries_callable(low, high),
        ensures
            match r {
                Ok(v) => self.entries_spec(low, high, max_size) == Ok::<Seq<EntryView>, Error>(
                    entry_views(v@),
                ),
                Err(e) => self.entries_spec(low, high, max_size) == Err::<Seq<EntryView>, Error>(e),
            },
    ;

    /// The term of the entry at `idx`.
    fn term(&self, idx: u64) -> (r: Result<u64>)
        requires
            self.storage_wf(),
        ensures
            r == self.term_spec(idx),
    ;

    /// The index of the first entry that can be read.
    fn first_index(&self) -> (r: Result<u64>)
        requires
            self.storage_wf(),
        ensures
            r == self.first_index_spec(),
    ;

    /// The index of the last entry.
    fn last_index(&self) -> (r: Result<u64>)
        requires
            self.storage_wf(),
        ensures
            r == self.last_index_spec(),
    ;

    /// The latest snapshot.
    fn snapshot(&self) -> (r: Result<Snapshot>)
        requires
            self.storage_wf(),
        ensures
            match r {
                Ok(s) => self.snapshot_spec() == Ok::<SnapshotView, Error>(s@),
                Err(e) => self.snapshot_spec() == Err::<SnapshotView, Error>(e),
            },
    ;
}

/// The entries have consecutive indices.
pub open spec fn consecutive(es: Seq<EntryView>) -> bool {
    forall|k: int| 0 <= k < es.len() ==> #[trigger] es[k].index == es[0].index + k
}

/// An in-memory log: `entries[0]` is a placeholder at the index and term
/// of the last compaction (or snapshot), and `entries[i]` is the entry at
/// index `entries[0].index + i`.
pub struct MemStorageCore {
    hard_state: HardState,
    snapshot: Snapshot,
    entries: Vec<Entry>,
}

impl MemStorageCore {
    pub closed spec fn hard_state_view(&self) -> HardState {
        self.hard_state
    }

    pub closed spec fn snapshot_view(&self) -> SnapshotView {
        self.snapshot@
    }

    /// The entries, the placeholder first.
    pub closed spec fn entries_view(&self) -> Seq<EntryView> {
        entry_views(self.entries@)
    }

    /// There is a placeholder, the indices fit `u64`, and the entry sizes
    /// fit the size computation.
    pub open spec fn wf(&self) -> bool {
        &&& self.entries_view().len() >= 1
        &&& self.entries_view()[0].index + self.entries_view().len() <= u64::MAX
        &&& consecutive(self.entries_view())
        &&& sizes_fit(self.entries_view())
    }

    /// The index of the placeholder.
    pub open spec fn offset(&self) -> u64 {
        self.entries_view()[0].index
    }

    /// The index of the last entry.
    pub open spec fn last_index_view(&self) -> u64 {
        (self.offset() + self.entries_view().len() - 1) as u64
    }

    /// Holds `hard_state` from now on.
    pub fn set_hard_state(&mut self, new_hard_state: HardState)
        ensures
            final(self).hard_state_view() == new_hard_state,
            final(self).snapshot_view() == old(self).snapshot_view(),
            final(self).entries_view() == old(self).entries_view(),
    {
        self.hard_state = new_hard_state;
    }

    fn inner_last_index(&self) -> (r: u64)
        requires
            self.wf(),
        ensures
            r == self.last_index_view(),
    {
        proof {
            assert(self.entries@[0]@ == self.entries_view()[0]);
        }
        self.entries[0].index + self.entries.len() as u64 - 1
    }

    /// Replaces the log by `new_snapshot` if it is newer than the one held.
    pub fn apply_snapshot(&mut self, new_snapshot: Snapshot) -> (r: Result<()>)
        requires
            old(self).wf(),
            old(self).snapshot_view().index < new_snapshot@.index ==> new_snapshot@.index < u64::MAX,
        ensures
            final(self).wf(),
            final(self).hard_state_view() == old(self).hard_state_view(),
            old(self).snapshot_view().index >= new_snapshot@.index ==> {
                &&& r matches Err(Error::Store(StorageError::SnapshotOutOfDate))
                &&& final(self).snapshot_view() == old(self).snapshot_view()
                &&& final(self).entries_view() == old(self).entries_view()
            },
            old(self).snapshot_view().index < new_snapshot@.index ==> {
                &&& r is Ok
                &&& final(self).snapshot_view() == new_snapshot@
                &&& final(self).entries_view() == seq![EntryView {
                    entry_type: EntryType::EntryNormal,
                    term: new_snapshot@.term,
                    index: new_snapshot@.index,
                    data: Seq::empty(),
                    context: Seq::empty(),
                    sync_log: false,
                }]
            },
    {
        let old_snapshot_index = self.snapshot.metadata.index;
        let new_snapshot_index = new_snapshot.metadata.index;
        if old_snapshot_index >= new_snapshot_index {
            return Err(Error::Store(StorageError::SnapshotOutOfDate));
        }
        let mut e = Entry::new();
        e.set_term(new_snapshot.metadata.term);
        e.set_index(new_snapshot.metadata.index);
        let mut entries = Vec::new();
        entries.push(e);
        self.entries = entries;
        self.snapshot = new_snapshot;
        proof {
            assert(self.entries_view() =~= seq![self.entries@[0]@]);
            crate::eraft_demo::lemma_varint_len_u64(0);
        }
        Ok(())
    }

    /// Makes the snapshot at `idx`, with `data` and, if given, `conf_state`.
    pub fn create_snapshot(&mut self, idx: u64, conf_state: Option<ConfState>, data: Vec<u8>) -> (r: Result<&Snapshot>)
        requires
            old(self).wf(),
            idx > old(self).snapshot_view().index ==> old(self).offset() <= idx <= old(self).last_index_view(),
        ensures
            final(self).wf(),
            final(self).hard_state_view() == old(self).hard_state_view(),
            final(self).entries_view() == old(self).entries_view(),
            idx <= old(self).snapshot_view().index ==> {
                &&& r matches Err(Error::Store(StorageError::SnapshotOutOfDate))
                &&& final(self).snapshot_view() == old(self).snapshot_view()
            },
            idx > old(self).snapshot_view().index ==> {
                &&& r matches Ok(s) && s@ == final(self).snapshot_view()
                &&& final(self).snapshot_view() == (SnapshotView {
                    data: data@,
                    conf_state: match conf_state {
                        Some(c) => c@,
                        None => old(self).snapshot_view().conf_state,
                    },
                    index: idx,
                    term: old(self).entries_view()[idx - old(self).offset()].term,
                })
            },
    {
        if idx <= self.snapshot.metadata.index {
            return Err(Error::Store(StorageError::SnapshotOutOfDate));
        }
        let offset = self.entries[0].index;
        proof {
            assert(self.entries@[0]@ == self.entries_view()[0]);
        }
        let last = self.inner_last_index();
        let len = self.entries.len();
        assert(idx - offset < len);
        let term = self.entries[(idx - offset) as usize].term;
        proof {
            assert(self.entries@[idx - offset]@ == self.entries_view()[idx - offset]);
        }
        self.snapshot.metadata.index = idx;
        self.snapshot.metadata.term = term;
        match conf_state {
            Some(c) => {
                self.snapshot.metadata.conf_state = c;
            },
            None => {},
        }
        self.snapshot.data = data;
        Ok(&self.snapshot)
    }

    /// Where `ents` starts to matter: past the placeholder.
    pub open spec fn append_start(&self, ents: Seq<EntryView>) -> int {
        if self.offset() + 1 > ents[0].index {
            self.offset() + 1 - ents[0].index
        } else {
            0
        }
    }

    /// `append(ents)` has something past the placeholder to add.
    pub open spec fn append_reaches(&self, ents: Seq<EntryView>) -> bool {
        ents.len() > 0 && ents[0].index + ents.len() - 1 >= self.offset() + 1
    }

    /// The entries of `ents` past the placeholder.
    pub open spec fn appended_part(&self, ents: Seq<EntryView>) -> Seq<EntryView> {
        ents.skip(self.append_start(ents))
    }

    /// The entries after `append(ents)`: those held before the first
    /// appended index, then the appended ones.
    pub open spec fn entries_after_append(&self, ents: Seq<EntryView>) -> Seq<EntryView> {
        if self.append_reaches(ents) {
            let te = self.appended_part(ents);
            self.entries_view().take(te[0].index - self.offset()) + te
        } else {
            self.entries_view()
        }
    }

    /// Appends the entries of `ents` past the placeholder. Where they start
    /// inside the log, the entries held from there on are replaced.
    pub fn append(&mut self, ents: &[Entry]) -> (r: Result<()>)
        requires
            old(self).wf(),
            ents@.len() > 0 ==> ents@[0].index + ents@.len() <= u64::MAX,
            old(self).append_reaches(entry_views(ents@)) ==> {
                let te = old(self).appended_part(entry_views(ents@));
                &&& te[0].index >= old(self).offset()
                &&& te[0].index - old(self).offset() <= old(self).entries_view().len()
                &&& consecutive(te)
                &&& te[0].index + te.len() <= u64::MAX
                &&& sizes_fit(old(self).entries_after_append(entry_views(ents@)))
            },
        ensures
            r is Ok,
            final(self).wf(),
            final(self).hard_state_view() == old(self).hard_state_view(),
            final(self).snapshot_view() == old(self).snapshot_view(),
            final(self).entries_view() == old(self).entries_after_append(entry_views(ents@)),
    {
        let ghost es = entry_views(ents@);
        if ents.len() == 0 {
            return Ok(());
        }
        proof {
            assert(self.entries@[0]@ == self.entries_view()[0]);
            assert(ents@[0]@ == es[0]);
        }
        let first = self.entries[0].index + 1;
        let last = ents[0].index + ents.len() as u64 - 1;
        if last < first {
            return Ok(());
        }
        let ghost start = self.append_start(es);
        let te: &[Entry] = if first > ents[0].index {
            let start_end = (first - ents[0].index) as usize;
            vstd::slice::slice_subrange(ents, start_end, ents.len())
        } else {
            ents
        };
        proof {
            assert(entry_views(te@) =~= es.skip(start));
            assert(te@[0]@ == entry_views(te@)[0]);
        }
        let offset = te[0].index - self.entries[0].index;
        let len = self.entries.len();
        let ghost old_view = self.entries_view();
        let ghost kept = old_view.take(offset as int);
        if len as u64 > offset {
            let mut new_entries: Vec<Entry> = Vec::new();
            new_entries.extend_from_slice(vstd::slice::slice_subrange(self.entries.as_slice(), 0, offset as usize));
            new_entries.extend_from_slice(te);
            proof {
                assert forall|i: int| 0 <= i < new_entries@.len() implies
                    #[trigger] entry_views(new_entries@)[i] == (kept + entry_views(te@))[i] by {
                    if i < kept.len() {
                        assert(cloned::<Entry>(self.entries@[i], new_entries@[i]));
                    } else {
                        assert(cloned::<Entry>(te@[i - kept.len()], new_entries@[i]));
                    }
                }
                assert(entry_views(new_entries@) =~= kept + entry_views(te@));
            }
            self.entries = new_entries;
        } else {
            self.entries.extend_from_slice(te);
            proof {
                assert(kept =~= old_view);
                assert forall|i: int| 0 <= i < self.entries@.len() implies
                    #[trigger] entry_views(self.entries@)[i] == (old_view + entry_views(te@))[i] by {
                    if i >= old_view.len() {
                        assert(cloned::<Entry>(te@[i - old_view.len()], self.entries@[i]));
                    }
                }
                assert(self.entries_view() =~= old_view + entry_views(te@));
            }
        }
        proof {
            let nv = self.entries_view();
            assert(nv =~= kept + entry_views(te@));
            assert(nv[0].index == old_view[0].index) by {
                if kept.len() == 0 {
                    assert(nv[0] == entry_views(te@)[0]);
                } else {
                    assert(nv[0] == old_view[0]);
                }
            }
            assert forall|k: int| 0 <= k < nv.len() implies
                #[trigger] nv[k].index == nv[0].index + k by {
                if k >= kept.len() {
                    assert(nv[k] == entry_views(te@)[k - kept.len()]);
                } else {
                    assert(nv[k] == old_view[k]);
                }
            }
        }
        Ok(())
    }
    /// Discards the entries before `compact_idx`; the entry at
    /// `compact_idx` becomes the placeholder.
    pub fn compact(&mut self, compact_idx: u64) -> (r: Result<()>)
        requires
            old(self).wf(),
            compact_idx > old(self).offset() ==> compact_idx <= old(self).last_index_view(),
        ensures
            final(self).wf(),
            final(self).hard_state_view() == old(self).hard_state_view(),
            final(self).snapshot_view() == old(self).snapshot_view(),
            compact_idx <= old(self).offset() ==> {
                &&& r matches Err(Error::Store(StorageError::Compacted))
                &&& final(self).entries_view() == old(self).entries_view()
            },
            compact_idx > old(self).offset() ==> {
                &&& r is Ok
                &&& final(self).entries_view() == old(self).entries_view().skip(
                    compact_idx - old(self).offset(),
                )
            },
    {
        let offset = self.entries[0].index;
        proof {
            assert(self.entries@[0]@ == self.entries_view()[0]);
        }
        if compact_idx <= offset {
            return Err(Error::Store(StorageError::Compacted));
        }
        let last = self.inner_last_index();
        let len = self.entries.len();
        assert(compact_idx - offset < len);
        let i = (compact_idx - offset) as usize;
        let ghost old_view = self.entries_view();
        let rest = self.entries.split_off(i);
        self.entries = rest;
        proof {
            assert(self.entries_view() =~= old_view.skip(i as int));
            assert(self.entries_view()[0] == old_view[i as int]);
            assert forall|j: int| 0 <= j < self.entries_view().len() implies
                crate::eraft_demo::entry_size_fits(#[trigger] self.entries_view()[j])
                && self.entries_view()[j].index == self.entries_view()[0].index + j by {
                assert(self.entries_view()[j] == old_view[i + j]);
            }
        }
        Ok(())
    }
}


/// After a snapshot is applied, the log starts right after it, ends at it,
/// and knows its term.
pub proof fn law_snapshot_then_indices(s: MemStorage, index: u64, term: u64)
    requires
        s.storage_wf(),
        s.core_view().entries_view().len() == 1,
        s.core_view().entries_view()[0].index == index,
        s.core_view().entries_view()[0].term == term,
    ensures
        s.first_index_spec() == Ok::<u64, Error>((index + 1) as u64),
        s.last_index_spec() == Ok::<u64, Error>(index),
        s.term_spec(index) == Ok::<u64, Error>(term),
        index > 0 ==> s.term_spec((index - 1) as u64) == Err::<u64, Error>(Error::Store(StorageError::Compacted)),
        index < u64::MAX ==> s.term_spec((index + 1) as u64) == Err::<u64, Error>(Error::Store(StorageError::Unavailable)),
{
}

/// What is appended is what is read back: after `append` writes entries
/// from a point inside or right after the log, the storage gives each of
/// them its term, keeps the terms of the entries before that point, and
/// ends with the appended entries.
pub proof fn law_append_then_term(old: MemStorage, new: MemStorage, te: Seq<EntryView>)
    requires
        old.storage_wf(),
        new.storage_wf(),
        te.len() > 0,
        old.core_view().offset() < te[0].index,
        te[0].index - old.core_view().offset() <= old.core_view().entries_view().len(),
        new.core_view().entries_view() == old.core_view().entries_view().take(
            te[0].index - old.core_view().offset(),
        ) + te,
    ensures
        forall|k: int| 0 <= k < te.len() ==> new.term_spec(#[trigger] te[k].index) == Ok::<u64, Error>(
            te[k].term,
        ),
        forall|idx: u64| old.core_view().offset() <= idx < te[0].index ==> new.term_spec(idx)
            == #[trigger] old.term_spec(idx),
        new.last_index_spec() == Ok::<u64, Error>(te[te.len() - 1].index),
        new.first_index_spec() == old.first_index_spec(),
{
    let o = old.core_view().entries_view();
    let es = new.core_view().entries_view();
    let n = te[0].index - old.core_view().offset();
    assert(es[0] == o[0]);
    assert forall|k: int| 0 <= k < te.len() implies new.term_spec(#[trigger] te[k].index) == Ok::<
        u64,
        Error,
    >(te[k].term) by {
        assert(es[n + k] == te[k]);
        assert(es[n + k].index == es[0].index + n + k);
    }
    assert forall|idx: u64| old.core_view().offset() <= idx < te[0].index implies new.term_spec(idx)
        == #[trigger] old.term_spec(idx) by {
        assert(es[idx - old.core_view().offset()] == o[idx - old.core_view().offset()]);
    }
    assert(es[es.len() - 1] == te[te.len() - 1]);
}

/// After compacting up to `compact_idx`, the log starts right after it and
/// still gives the terms of the entries from it on.
pub proof fn law_compact_then_term(old: MemStorage, new: MemStorage, compact_idx: u64, idx: u64)
    requires
        old.storage_wf(),
        new.storage_wf(),
        old.core_view().offset() < compact_idx <= old.core_view().last_index_view(),
        new.core_view().entries_view() == old.core_view().entries_view().skip(
            compact_idx - old.core_view().offset(),
        ),
        compact_idx <= idx,
    ensures
        new.first_index_spec() == Ok::<u64, Error>((compact_idx + 1) as u64),
        new.last_index_spec() == old.last_index_spec(),
        new.term_spec(idx) == old.term_spec(idx),
{
    let o = old.core_view().entries_view();
    let d = compact_idx - old.core_view().offset();
    assert(new.core_view().entries_view()[0] == o[d]);
    if idx - compact_idx < new.core_view().entries_view().len() {
        assert(new.core_view().entries_view()[idx - compact_idx] == o[d + idx - compact_idx]);
    }
}

impl Default for MemStorageCore {
    /// A log holding only a placeholder at index and term zero.
    fn default() -> (r: MemStorageCore)
        ensures
            r.wf(),
            r.hard_state_view() == (HardState { term: 0, vote: 0, commit: 0 }),
            r.snapshot_view().index == 0,
            r.snapshot_view().term == 0,
            r.snapshot_view().data == Seq::<u8>::empty(),
            r.snapshot_view().conf_state.nodes == Seq::<u64>::empty(),
            r.snapshot_view().conf_state.learners == Seq::<u64>::empty(),
            r.entries_view() == seq![EntryView {
                entry_type: EntryType::EntryNormal,
                term: 0,
                index: 0,
                data: Seq::empty(),
                context: Seq::empty(),
                sync_log: false,
            }],
    {
        let mut entries = Vec::new();
        entries.push(Entry::new());
        let r = MemStorageCore { hard_state: HardState::new(), snapshot: Snapshot::new(), entries };
        proof {
            assert(r.entries_view() =~= seq![r.entries@[0]@]);
            crate::eraft_demo::lemma_varint_len_u64(0);
        }
        r
    }
}

/// Storage that keeps the log in memory.
pub struct MemStorage {
    core: MemStorageCore,
}

impl MemStorage {
    /// The log held.
    pub closed spec fn core_view(&self) -> MemStorageCore {
        self.core
    }

    /// A storage holding only a placeholder at index and term zero.
    pub fn new() -> (r: MemStorage)
        ensures
            r.storage_wf(),
            r.core_view().hard_state_view() == (HardState { term: 0, vote: 0, commit: 0 }),
            r.core_view().snapshot_view().index == 0,
            r.core_view().snapshot_view().term == 0,
            r.core_view().snapshot_view().data == Seq::<u8>::empty(),
            r.core_view().snapshot_view().conf_state.nodes == Seq::<u64>::empty(),
            r.core_view().snapshot_view().conf_state.learners == Seq::<u64>::empty(),
            r.core_view().entries_view() == seq![EntryView {
                entry_type: EntryType::EntryNormal,
                term: 0,
                index: 0,
                data: Seq::empty(),
                context: Seq::empty(),
                sync_log: false,
            }],
    {
        MemStorage { core: MemStorageCore::default() }
    }

    /// Reads the log held.
    pub fn rl(&self) -> (r: &MemStorageCore)
        ensures
            *r == self.core_view(),
    {
        &self.core
    }

    /// Gives write access to the log held.
    pub fn wl(&mut self) -> (r: &mut MemStorageCore)
        ensures
            *r == old(self).core_view(),
            final(self).core_view() == *final(r),
    {
        &mut self.core
    }
}

impl Storage for MemStorage {
    open spec fn storage_wf(&self) -> bool {
        self.core_view().wf()
    }

    open spec fn initial_state_spec(&self) -> core::result::Result<RaftStateView, Error> {
        Ok(RaftStateView {
            hard_state: self.core_view().hard_state_view(),
            conf_state: self.core_view().snapshot_view().conf_state,
        })
    }

    open spec fn entries_callable(&self, low: u64, high: u64) -> bool {
        let core = self.core_view();
        low <= core.offset() || (high <= core.last_index_view() + 1 && (
        core.entries_view().len() == 1 || low <= high))
    }

    open spec fn entries_spec(&self, low: u64, high: u64, max_size: u64) -> core::result::Result<Seq<EntryView>, Error> {
        let core = self.core_view();
        if low <= core.offset() {
            Err(Error::Store(StorageError::Compacted))
        } else if core.entries_view().len() == 1 {
            Err(Error::Store(StorageError::Unavailable))
        } else {
            let es = core.entries_view().subrange(low - core.offset(), high - core.offset());
            Ok(es.take(limited_len(es, max_size) as int))
        }
    }

    open spec fn term_spec(&self, idx: u64) -> Result<u64> {
        let core = self.core_view();
        if idx < core.offset() {
            Err(Error::Store(StorageError::Compacted))
        } else if idx - core.offset() >= core.entries_view().len() {
            Err(Error::Store(StorageError::Unavailable))
        } else {
            Ok(core.entries_view()[idx - core.offset()].term)
        }
    }

    open spec fn first_index_spec(&self) -> Result<u64> {
        Ok((self.core_view().offset() + 1) as u64)
    }

    open spec fn last_index_spec(&self) -> Result<u64> {
        Ok(self.core_view().last_index_view())
    }

    open spec fn snapshot_spec(&self) -> core::result::Result<SnapshotView, Error> {
        Ok(self.core_view().snapshot_view())
    }

    fn initial_state(&self) -> (r: Result<RaftState>) {
        let core = self.rl();
        Ok(RaftState {
            hard_state: core.hard_state,
            conf_state: core.snapshot.metadata.conf_state.clone(),
        })
    }

    fn entries(&self, low: u64, high: u64, max_size: u64) -> (r: Result<Vec<Entry>>) {
        let core = self.rl();
        proof {
            assert(core.entries@[0]@ == core.entries_view()[0]);
        }
        let offset = core.entries[0].index;
        if low <= offset {
            return Err(Error::Store(StorageError::Compacted));
        }
        if core.entries.len() == 1 {
            return Err(Error::Store(StorageError::Unavailable));
        }
        let len = core.entries.len();
        assert(high - offset <= len);
        let lo = (low - offset) as usize;
        let hi = (high - offset) as usize;
        let mut entries: Vec<Entry> = Vec::new();
        let mut i = lo;
        let ghost src = core.entries_view().subrange(lo as int, hi as int);
        while i < hi
            invariant
                lo <= i <= hi <= len,
                len == core.entries@.len(),
                src == core.entries_view().subrange(lo as int, hi as int),
                entry_views(entries@) == src.take(i - lo),
            decreases hi - i,
        {
            let e = core.entries[i].clone();
            entries.push(e);
            proof {
                assert(src.take(i + 1 - lo) =~= src.take(i - lo).push(src[i - lo]));
                assert(entry_views(entries@) =~= entry_views(entries@).take(i - lo).push(e@));
                assert(core.entries@[i as int]@ == core.entries_view()[i as int]);
            }
            i = i + 1;
        }
        proof {
            assert(src.take(hi - lo) =~= src);
            assert forall|k: int| 0 <= k < src.len() implies
                crate::eraft_demo::entry_size_fits(#[trigger] src[k]) by {
                assert(src[k] == core.entries_view()[lo + k]);
            }
        }
        let ghost before = entries@;
        limit_size(&mut entries, max_size);
        proof {
            assert(entry_views(before) =~= src);
            crate::util::lemma_limited_len_bounds(src, max_size);
            assert(entry_views(entries@) =~= src.take(limited_len(src, max_size) as int));
        }
        Ok(entries)
    }

    fn term(&self, idx: u64) -> (r: Result<u64>) {
        let core = self.rl();
        proof {
            assert(core.entries@[0]@ == core.entries_view()[0]);
        }
        let offset = core.entries[0].index;
        if idx < offset {
            return Err(Error::Store(StorageError::Compacted));
        }
        if idx - offset >= core.entries.len() as u64 {
            return Err(Error::Store(StorageError::Unavailable));
        }
        proof {
            assert(core.entries@[idx - offset]@ == core.entries_view()[idx - offset]);
        }
        Ok(core.entries[(idx - offset) as usize].term)
    }

    fn first_index(&self) -> (r: Result<u64>) {
        let core = self.rl();
        proof {
            assert(core.entries@[0]@ == core.entries_view()[0]);
        }
        Ok(core.entries[0].index + 1)
    }

    fn last_index(&self) -> (r: Result<u64>) {
        let core = self.rl();
        Ok(core.inner_last_index())
    }

    fn snapshot(&self) -> (r: Result<Snapshot>) {
        let core = self.rl();
        Ok(core.snapshot.clone())
    }
}

} // verus!
