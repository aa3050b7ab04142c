//! The tail of the log that has not reached stable storage yet, and an
//! incoming snapshot.
use vstd::prelude::*;
use crate::eraft_demo::{Entry, EntryView, Snapshot, entry_views};

verus! {

/// `new` is `old` after appending `es` at `es[0].index`: the held entries
/// from that index on give way to `es`.
pub open spec fn is_truncate_and_append(old: Unstable, new: Unstable, es: Seq<EntryView>) -> bool {
    &&& new.offset == if es[0].index < old.offset {
        es[0].index
    } else {
        old.offset
    }
    &&& entry_views(new.entries@) == entry_views(old.entries@.take(es[0].index - new.offset)) + es
    &&& new.snapshot == old.snapshot
    &&& new.tag == old.tag
}

/// Each of `es` has the index after the one before it.
pub open spec fn indices_consecutive(es: Seq<EntryView>) -> bool {
    forall|k: int| 0 <= k < es.len() ==> #[trigger] es[k].index == es[0].index + k
}

/// What is appended is what is read back: after appending entries with
/// consecutive indices, the tail gives each of them its term.
pub proof fn law_append_then_term(old: Unstable, new: Unstable, es: Seq<EntryView>)
    requires
        es.len() > 0,
        indices_consecutive(es),
        is_truncate_and_append(old, new, es),
        es[0].index <= old.offset + old.entries@.len(),
        new.wf(),
    ensures
        forall|k: int| 0 <= k < es.len() ==> new.term_in_bounds(#[trigger] es[k].index)
            && new.term_spec(es[k].index) == Some(es[k].term),
        new.last_index_spec() == Some((es[0].index + es.len() - 1) as u64),
{
    let kept = old.entries@.take(es[0].index - new.offset);
    assert(kept.len() == es[0].index - new.offset);
    assert(entry_views(new.entries@).len() == new.entries@.len());
    assert(new.entries@.len() == kept.len() + es.len());
    assert forall|k: int| 0 <= k < es.len() implies new.term_in_bounds(#[trigger] es[k].index)
        && new.term_spec(es[k].index) == Some(es[k].term) by {
        let pos = kept.len() + k;
        assert(es[k].index - new.offset == pos);
        assert(entry_views(new.entries@)[pos] == (entry_views(kept) + es)[pos]);
        assert(new.entries@[pos]@ == entry_views(new.entries@)[pos]);
    }
}

/// Appending keeps the held entries before the first appended index.
pub proof fn law_append_keeps_prefix(old: Unstable, new: Unstable, es: Seq<EntryView>, idx: u64)
    requires
        es.len() > 0,
        is_truncate_and_append(old, new, es),
        es[0].index <= old.offset + old.entries@.len(),
        old.offset <= idx < es[0].index,
        old.wf(),
        new.wf(),
    ensures
        new.term_in_bounds(idx),
        old.term_in_bounds(idx),
        new.term_spec(idx) == old.term_spec(idx),
{
    let kept = old.entries@.take(es[0].index - new.offset);
    assert(kept.len() == es[0].index - new.offset);
    assert(entry_views(new.entries@).len() == new.entries@.len());
    let pos = idx - new.offset;
    assert(entry_views(new.entries@)[pos] == (entry_views(kept) + es)[pos]);
    assert(new.entries@[pos]@ == entry_views(new.entries@)[pos]);
    assert(old.entries@[pos]@ == entry_views(old.entries@)[pos]);
    assert(entry_views(kept)[pos] == entry_views(old.entries@)[pos]);
}

/// The entries not yet written to storage; `entries[i]` has index
/// `offset + i`.
pub struct Unstable {
    /// An incoming snapshot, if any.
    pub snapshot: Option<Snapshot>,
    pub entries: Vec<Entry>,
    pub offset: u64,
    pub tag: String,
}

impl Unstable {
    /// The indices of the entries fit `u64`.
    pub open spec fn wf(&self) -> bool {
        self.offset + self.entries@.len() <= u64::MAX
    }

    /// The index after the snapshot, if any, fits `u64`.
    pub open spec fn snapshot_index_fits(&self) -> bool {
        self.snapshot matches Some(s) ==> s.metadata.index < u64::MAX
    }

    /// The index of the last entry, or else of the snapshot.
    pub open spec fn last_index_spec(&self) -> Option<u64> {
        if self.entries@.len() == 0 {
            match self.snapshot {
                Some(s) => Some(s.metadata.index),
                None => None,
            }
        } else {
            Some((self.offset + self.entries@.len() - 1) as u64)
        }
    }

    /// The index after the snapshot, if any.
    pub open spec fn first_index_spec(&self) -> Option<u64> {
        match self.snapshot {
            Some(s) => Some((s.metadata.index + 1) as u64),
            None => None,
        }
    }

    /// Looking up `idx` stays within the entries: it does not land on a
    /// snapshot index at or past `offset` while no entries are held.
    pub open spec fn term_in_bounds(&self, idx: u64) -> bool {
        idx >= self.offset && (self.last_index_spec() matches Some(l) && idx <= l)
            ==> idx - self.offset < self.entries@.len()
    }

    /// The term of the entry at `idx`, if this tail knows it.
    pub open spec fn term_spec(&self, idx: u64) -> Option<u64> {
        if idx < self.offset {
            match self.snapshot {
                Some(s) => if idx == s.metadata.index {
                    Some(s.metadata.term)
                } else {
                    None
                },
                None => None,
            }
        } else {
            match self.last_index_spec() {
                Some(l) => if idx > l {
                    None
                } else {
                    Some(self.entries@[idx - self.offset].term)
                },
                None => None,
            }
        }
    }

    /// An empty tail whose first entry will have index `offset`.
    pub fn new(offset: u64, tag: String) -> (r: Unstable)
        ensures
            r.offset == offset,
            r.snapshot is None,
            r.entries@ == Seq::<Entry>::empty(),
            r.tag == tag,
            r.wf(),
    {
        Unstable { offset, snapshot: None, entries: Vec::new(), tag }
    }

    /// The index after the snapshot, if one is held.
    pub fn maybe_first_index(&self) -> (r: Option<u64>)
        requires
            self.snapshot_index_fits(),
        ensures
            r == self.first_index_spec(),
    {
        match &self.snapshot {
            Some(snapshot) => Some(snapshot.metadata.index + 1),
            None => None,
        }
    }

    /// The index of the last entry held, or else of the snapshot.
    pub fn maybe_last_index(&self) -> (r: Option<u64>)
        requires
            self.wf(),
        ensures
            r == self.last_index_spec(),
    {
        let len = self.entries.len();
        if len == 0 {
            match &self.snapshot {
                Some(snapshot) => Some(snapshot.metadata.index),
                None => None,
            }
        } else {
            Some(self.offset + len as u64 - 1)
        }
    }

    /// The term of the entry at `idx`, if this tail holds it (or it is the
    /// snapshot's index).
    pub fn maybe_term(&self, idx: u64) -> (r: Option<u64>)
        requires
            self.wf(),
            self.term_in_bounds(idx),
        ensures
            r == self.term_spec(idx),
    {
        if idx < self.offset {
            match &self.snapshot {
                Some(snapshot) => {
                    if idx == snapshot.metadata.index {
                        Some(snapshot.metadata.term)
                    } else {
                        None
                    }
                },
                None => None,
            }
        } else {
            match self.maybe_last_index() {
                Some(last) => {
                    if idx > last {
                        None
                    } else {
                        let len = self.entries.len();
                        assert(idx - self.offset < len);
                        Some(self.entries[(idx - self.offset) as usize].term)
                    }
                },
                None => None,
            }
        }
    }

    /// Drops the entries up to `idx` once storage holds them, provided the
    /// entry at `idx` has term `term`.
    pub fn stable_to(&mut self, idx: u64, term: u64)
        requires
            old(self).wf(),
            old(self).term_in_bounds(idx),
        ensures
            final(self).wf(),
            final(self).snapshot == old(self).snapshot,
            final(self).tag == old(self).tag,
            if old(self).term_spec(idx) == Some(term) && idx >= old(self).offset {
                &&& final(self).offset == idx + 1
                &&& final(self).entries@ == old(self).entries@.skip(idx + 1 - old(self).offset)
            } else {
                &&& final(self).offset == old(self).offset
                &&& final(self).entries@ == old(self).entries@
            },
    {
        let t = self.maybe_term(idx);
        match t {
            None => {
                return;
            },
            Some(t) => {
                if t == term && idx >= self.offset {
                    let len = self.entries.len();
                    assert(idx + 1 - self.offset <= len);
                    let start = idx + 1 - self.offset;
                    let rest = self.entries.split_off(start as usize);
                    self.entries = rest;
                    self.offset = idx + 1;
                }
            },
        }
    }

    /// Drops the snapshot once storage holds it, if it is the one at `idx`.
    pub fn stable_snapshot_to(&mut self, idx: u64)
        ensures
            final(self).snapshot == if old(self).snapshot matches Some(s) && s.metadata.index == idx {
                None
            } else {
                old(self).snapshot
            },
            final(self).entries == old(self).entries,
            final(self).offset == old(self).offset,
            final(self).tag == old(self).tag,
    {
        let matches = match &self.snapshot {
            Some(s) => idx == s.metadata.index,
            None => false,
        };
        if matches {
            self.snapshot = None;
        }
    }

    /// Replaces the tail by `snapshot`.
    pub fn restore(&mut self, snapshot: Snapshot)
        ensures
            final(self).entries@ == Seq::<Entry>::empty(),
            final(self).offset == snapshot.metadata.index,
            final(self).snapshot == Some(snapshot),
            final(self).tag == old(self).tag,
            final(self).wf(),
    {
        self.entries.clear();
        self.offset = snapshot.metadata.index;
        self.snapshot = Some(snapshot);
    }

    /// Appends `entries`, whose first index is at most one past the last
    /// entry held, dropping any held entries from that index on.
    pub fn truncate_and_append(&mut self, entries: &[Entry])
        requires
            old(self).wf(),
            entries@.len() > 0,
            entries@[0].index <= old(self).offset + old(self).entries@.len(),
            entries@[0].index + entries@.len() <= u64::MAX,
        ensures
            final(self).wf(),
            is_truncate_and_append(*old(self), *final(self), entry_views(entries@)),
    {
        let after = entries[0].index;
        let ghost old_entries = self.entries@;
        if after == self.offset + self.entries.len() as u64 {
            self.entries.extend_from_slice(entries);
        } else if after <= self.offset {
            self.offset = after;
            self.entries.clear();
            self.entries.extend_from_slice(entries);
        } else {
            let offset = self.offset;
            self.must_check_out_of_bounds(offset, after);
            self.entries.truncate((after - offset) as usize);
            self.entries.extend_from_slice(entries);
        }
        proof {
            let kept = old_entries.take(after - self.offset);
            assert forall|i: int| 0 <= i < self.entries@.len() implies
                #[trigger] entry_views(self.entries@)[i] == (entry_views(kept) + entry_views(entries@))[i] by {
                if i >= kept.len() {
                    assert(cloned::<Entry>(entries@[i - kept.len()], self.entries@[i]));
                }
            }
            assert(entry_views(self.entries@) =~= entry_views(kept) + entry_views(entries@));
        }
    }

    /// The entries with indices in `[low, high)`.
    pub fn slice(&self, low: u64, high: u64) -> (r: &[Entry])
        requires
            self.wf(),
            low <= high,
            self.offset <= low,
            high <= self.offset + self.entries@.len(),
        ensures
            r@ == self.entries@.subrange(low - self.offset, high - self.offset),
    {
        self.must_check_out_of_bounds(low, high);
        let len = self.entries.len();
        assert(high - self.offset <= len);
        let lo = (low - self.offset) as usize;
        let hi = (high - self.offset) as usize;
        vstd::slice::slice_subrange(self.entries.as_slice(), lo, hi)
    }

    /// Holds when `[low, high)` is a range of indices of held entries; the
    /// library calls it only on such ranges.
    pub fn must_check_out_of_bounds(&self, low: u64, high: u64)
        requires
            self.wf(),
            low <= high,
            self.offset <= low,
            high <= self.offset + self.entries@.len(),
    {
    }
}

} // verus!
