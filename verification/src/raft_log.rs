//! The replicated log of a node: the entries on stable storage followed by
//! the unstable tail, with the commit and apply positions.
use vstd::prelude::*;
use vstd::string::StringExecFns;
use crate::config::{decimal, decimal_string};
use crate::eraft_demo::{Entry, EntryView, entry_views};
use crate::errors::{Error, Result, StorageError};
use crate::log_unstable::{Unstable, indices_consecutive, is_truncate_and_append};
use crate::storage::{MemStorage, Storage};
use crate::util::{limit_size, limited_len, sizes_fit};
pub use crate::util::NO_LIMIT;

verus! {

/// What is appended is what is read back: after appending entries with
/// consecutive indices from the first index on, the log gives each of them
/// its term, and it ends with the last of them.
pub proof fn law_append_then_term<T: Storage>(old: RaftLog<T>, new: RaftLog<T>, es: Seq<EntryView>)
    requires
        old.wf(),
        new.wf(),
        es.len() > 0,
        crate::log_unstable::indices_consecutive(es),
        old.append_ok(es),
        old.appended(es, new),
        es[0].index >= old.first_index_view(),
    ensures
        new.last_index_view() == es[0].index + es.len() - 1,
        forall|k: int| 0 <= k < es.len() ==> new.term_callable(#[trigger] es[k].index)
            && new.term_view(es[k].index) == Ok::<u64, Error>(es[k].term),
{
    crate::log_unstable::law_append_then_term(old.unstable, new.unstable, es);
    assert forall|k: int| 0 <= k < es.len() implies new.term_callable(#[trigger] es[k].index)
        && new.term_view(es[k].index) == Ok::<u64, Error>(es[k].term) by {
        assert(es[k].index == es[0].index + k);
    }
}

/// The conflict is the first entry whose term differs from the log's: it
/// is zero exactly when every entry matches the log, and otherwise the
/// index of the first entry that does not, all before it matching.
pub proof fn law_find_conflict_first_mismatch<T: Storage>(log: RaftLog<T>, es: Seq<EntryView>)
    requires
        forall|k: int| 0 <= k < es.len() ==> #[trigger] es[k].index > 0,
    ensures
        (log.find_conflict_view(es) == 0) <==> (forall|k: int| 0 <= k < es.len()
            ==> log.match_term_view(#[trigger] es[k].index, es[k].term)),
        log.find_conflict_view(es) != 0 ==> exists|k: int| {
            &&& 0 <= k < es.len()
            &&& #[trigger] es[k].index == log.find_conflict_view(es)
            &&& !log.match_term_view(es[k].index, es[k].term)
            &&& forall|j: int| 0 <= j < k ==> log.match_term_view(#[trigger] es[j].index, es[j].term)
        },
    decreases es.len(),
{
    if es.len() == 0 {
    } else if !log.match_term_view(es[0].index, es[0].term) {
        assert(es[0].index > 0);
    } else {
        let rest = es.drop_first();
        assert forall|k: int| 0 <= k < rest.len() implies #[trigger] rest[k].index > 0 by {
            assert(rest[k] == es[k + 1]);
        }
        law_find_conflict_first_mismatch(log, rest);
        if log.find_conflict_view(rest) == 0 {
            assert forall|k: int| 0 <= k < es.len() implies log.match_term_view(
                #[trigger] es[k].index,
                es[k].term,
            ) by {
                if k > 0 {
                    assert(rest[k - 1] == es[k]);
                }
            }
        } else {
            let k = choose|k: int| {
                &&& 0 <= k < rest.len()
                &&& #[trigger] rest[k].index == log.find_conflict_view(rest)
                &&& !log.match_term_view(rest[k].index, rest[k].term)
                &&& forall|j: int| 0 <= j < k ==> log.match_term_view(#[trigger] rest[j].index, rest[j].term)
            };
            assert(rest[k] == es[k + 1]);
            assert forall|j: int| 0 <= j < k + 1 implies log.match_term_view(
                #[trigger] es[j].index,
                es[j].term,
            ) by {
                if j > 0 {
                    assert(rest[j - 1] == es[j]);
                }
            }
            assert(!(forall|k: int| 0 <= k < es.len() ==> log.match_term_view(
                #[trigger] es[k].index,
                es[k].term,
            ))) by {
                assert(!log.match_term_view(es[k + 1].index, es[k + 1].term));
            }
        }
    }
}

/// Log matching after an append from the leader: once `maybe_append`
/// accepts entries that follow the entry at `idx`, the log holds every one
/// of them with its term.
pub proof fn law_maybe_append_entries_match<T: Storage>(
    old: RaftLog<T>,
    new: RaftLog<T>,
    idx: u64,
    leader_commit: u64,
    es: Seq<EntryView>,
)
    requires
        old.wf(),
        new.wf(),
        old.maybe_append_ok(idx, leader_commit, es),
        old.first_index_view() <= idx + 1,
        idx + es.len() <= u64::MAX,
        forall|k: int| 0 <= k < es.len() ==> #[trigger] es[k].index == idx + 1 + k,
        forall|k: int| 0 <= k < es.len() ==> #[trigger] es[k].term > 0,
        new.store == old.store,
        ({
            let c = old.find_conflict_view(es);
            let suffix = RaftLog::<T>::conflict_suffix(es, idx, c);
            &&& (c == 0 || suffix.len() == 0) ==> new.unstable == old.unstable
            &&& (c != 0 && suffix.len() > 0) ==> is_truncate_and_append(
                old.unstable,
                new.unstable,
                suffix,
            )
        }),
    ensures
        forall|k: int| 0 <= k < es.len() ==> new.match_term_view(#[trigger] es[k].index, es[k].term),
{
    let c = old.find_conflict_view(es);
    law_find_conflict_first_mismatch(old, es);
    if c == 0 {
        assert forall|k: int| 0 <= k < es.len() implies new.match_term_view(
            #[trigger] es[k].index,
            es[k].term,
        ) by {
            assert(old.match_term_view(es[k].index, es[k].term));
        }
    } else {
        let kc = choose|k: int| {
            &&& 0 <= k < es.len()
            &&& #[trigger] es[k].index == old.find_conflict_view(es)
            &&& !old.match_term_view(es[k].index, es[k].term)
            &&& forall|j: int| 0 <= j < k ==> old.match_term_view(#[trigger] es[j].index, es[j].term)
        };
        let d = c - (idx + 1);
        assert(d == kc);
        let suffix = RaftLog::<T>::conflict_suffix(es, idx, c);
        assert(suffix.len() == es.len() - kc);
        assert(suffix[0] == es[kc]);
        assert(indices_consecutive(suffix)) by {
            assert forall|j: int| 0 <= j < suffix.len() implies #[trigger] suffix[j].index == suffix[0].index + j by {
                assert(suffix[j] == es[kc + j]);
            }
        }
        crate::log_unstable::law_append_then_term(old.unstable, new.unstable, suffix);
        assert(new.first_index_view() == old.first_index_view());
        assert(new.last_index_view() == idx + es.len());
        assert forall|k: int| 0 <= k < es.len() implies new.match_term_view(
            #[trigger] es[k].index,
            es[k].term,
        ) by {
            let i = es[k].index;
            if k < kc {
                assert(old.match_term_view(i, es[k].term));
                assert(old.in_term_range(i));
                assert(new.in_term_range(i));
                if i >= old.unstable.offset {
                    crate::log_unstable::law_append_keeps_prefix(old.unstable, new.unstable, suffix, i);
                } else {
                    assert(i < new.unstable.offset);
                    assert(new.unstable.term_spec(i) == old.unstable.term_spec(i));
                }
                assert(new.term_view(i) == old.term_view(i));
            } else {
                assert(suffix[k - kc] == es[k]);
                assert(new.unstable.term_spec(i) == Some(es[k].term));
                assert(new.in_term_range(i));
            }
        }
    }
}

/// What storage hands back for the stored part of a slice reads the log:
/// a nonempty prefix of what was asked, its entries at consecutive indices
/// from `low`, each with the term storage gives for its index.
pub open spec fn stored_part_reads_log<T: Storage>(log: RaftLog<T>, low: u64, high: u64, max_size: u64) -> bool {
    low < log.unstable.offset ==> (log.stored_part(low, high, max_size) matches Ok(st) ==> {
        &&& st.len() <= log.stored_high(high) - low
        &&& low < high ==> st.len() > 0
        &&& forall|k: int| 0 <= k < st.len() ==> {
            &&& #[trigger] st[k].index == low + k
            &&& log.store.term_spec((low + k) as u64) == Ok::<u64, Error>(st[k].term)
        }
    })
}

/// The tail's entries carry the indices of their positions.
pub open spec fn tail_indexed(u: Unstable) -> bool {
    forall|j: int| 0 <= j < u.entries@.len() ==> #[trigger] u.entries@[j].index == u.offset + j
}

/// `v`, read by `slice(low, high, max_size)`, is a nonempty range of
/// entries at `low`, `low + 1`, and so on, each with the log's term at its
/// index.
pub open spec fn slice_reads_log<T: Storage>(log: RaftLog<T>, low: u64, high: u64, max_size: u64, v: Seq<EntryView>) -> bool {
    &&& v.len() <= high - low
    &&& low < high ==> v.len() > 0
    &&& forall|k: int| 0 <= k < v.len() ==> {
        &&& #[trigger] v[k].index == low + k
        &&& log.term_view((low + k) as u64) == Ok::<u64, Error>(v[k].term)
    }
}

/// With no size limit, and storage giving all it was asked for, a slice
/// reads all of `[low, high)`.
pub open spec fn slice_reads_all<T: Storage>(log: RaftLog<T>, low: u64, high: u64, max_size: u64, v: Seq<EntryView>) -> bool {
    (max_size == NO_LIMIT && (low >= log.unstable.offset || log.stored_part(low, high, max_size)->Ok_0.len()
        == log.stored_high(high) - low)) ==> v.len() == high - low
}

/// What a slice reads: a nonempty range of entries, at `low`, `low + 1`,
/// and so on, each with the log's term at its index; all of `[low, high)`
/// when there is no size limit and storage gave all it was asked for.
#[verifier::spinoff_prover]
pub proof fn law_slice_reads_log<T: Storage>(log: RaftLog<T>, low: u64, high: u64, max_size: u64)
    requires
        log.slice_ok(low, high, max_size),
        tail_indexed(log.unstable),
        stored_part_reads_log(log, low, high, max_size),
    ensures
        log.slice_view(low, high, max_size) matches Ok(v) ==> slice_reads_log(log, low, high, max_size, v),
        log.slice_view(low, high, max_size) matches Ok(v) ==> slice_reads_all(log, low, high, max_size, v),
{
    if low < log.first_index_view() {
        assert(log.slice_view(low, high, max_size) is Err);
        return;
    }
    if low >= high {
        assert(log.slice_view(low, high, max_size) == Ok::<Seq<EntryView>, Error>(Seq::empty()));
        assert(low == high);
        assert(slice_reads_log(log, low, high, max_size, Seq::empty()));
        return;
    }
    let uoff = log.unstable.offset;
    let sh = log.stored_high(high);
    let ue = entry_views(log.unstable.entries@);
    let lo = if low > uoff { low } else { uoff };
    let upart = if high > uoff { ue.subrange(lo - uoff, high - uoff) } else { Seq::<EntryView>::empty() };
    match log.stored_part(low, high, max_size) {
        Err(_) => {
            assert(log.slice_view(low, high, max_size) is Err);
        },
        Ok(st) => {
            let all = log.slice_collected(st, low, high);
            crate::util::lemma_limited_len_bounds(all, max_size);
            let short = low < uoff && st.len() < sh - low;
            let v = if short { st } else { all.take(limited_len(all, max_size) as int) };
            assert(log.slice_view(low, high, max_size) == Ok::<Seq<EntryView>, Error>(v));
            if low < uoff {
                assert(st.len() <= sh - low);
                assert(st.len() > 0);
            } else {
                assert(st.len() == 0);
            }
            if !short {
                assert(all =~= st + upart);
                assert(all.len() == high - low) by {
                    if low < uoff {
                        assert(st.len() == sh - low);
                    } else {
                        assert(st.len() == 0);
                    }
                }
            }
            assert forall|k: int| 0 <= k < v.len() implies #[trigger] v[k] == (st + upart)[k] by {
                if short {
                    assert(v[k] == st[k]);
                }
            }
            assert forall|k: int| 0 <= k < v.len() implies {
                &&& #[trigger] v[k].index == low + k
                &&& log.term_view((low + k) as u64) == Ok::<u64, Error>(v[k].term)
            } by {
                let i = (low + k) as u64;
                assert(log.in_term_range(i));
                if k < st.len() {
                    assert(low < uoff);
                    assert(v[k] == st[k]);
                    assert(st[k].index == low + k);
                    assert(log.store.term_spec(i) == Ok::<u64, Error>(st[k].term));
                    assert(log.unstable.term_spec(i) is None);
                } else {
                    assert(high > uoff);
                    let j = i - uoff;
                    assert(v[k] == upart[k - st.len()]);
                    assert(upart[k - st.len()] == ue[j]);
                    assert(ue[j] == log.unstable.entries@[j]@);
                }
            }
            assert(v.len() <= high - low);
            assert(v.len() > 0);
            if max_size == NO_LIMIT && (low >= uoff || st.len() == sh - low) {
                assert(!short);
                assert(limited_len(all, max_size) == all.len());
                assert(v.len() == high - low);
            }
            assert(log.stored_part(low, high, max_size)->Ok_0 == st);
            assert((max_size == NO_LIMIT && (low >= uoff || st.len() == sh - low)) ==> v.len() == high - low);
            assert(slice_reads_log(log, low, high, max_size, v));
            assert(slice_reads_all(log, low, high, max_size, v));
        },
    }
}

/// What a slice of an in-memory log reads: a nonempty range of entries at
/// `low`, `low + 1`, and so on, each with the log's term at its index, and
/// all of `[low, high)` when there is no size limit, when the tail's
/// entries carry the indices of their positions.
pub proof fn law_slice_terms(log: RaftLog<MemStorage>, low: u64, high: u64, max_size: u64)
    requires
        log.slice_ok(low, high, max_size),
        tail_indexed(log.unstable),
    ensures
        log.slice_view(low, high, max_size) matches Ok(v) ==> {
            &&& v.len() <= high - low
            &&& low < high ==> v.len() > 0
            &&& forall|k: int| 0 <= k < v.len() ==> {
                &&& #[trigger] v[k].index == low + k
                &&& log.term_view((low + k) as u64) == Ok::<u64, Error>(v[k].term)
            }
            &&& max_size == NO_LIMIT ==> v.len() == high - low
        },
{
    let uoff = log.unstable.offset;
    if low < log.first_index_view() || low >= high {
        return;
    }
    let sh = log.stored_high(high);
    let core = log.store.core_view();
    let coff = core.offset();
    if low < uoff {
        if let Ok(st) = log.stored_part(low, high, max_size) {
            assert(low > coff);
            assert(core.entries_view().len() > 1);
            assert(sh <= core.last_index_view() + 1);
            let xs = core.entries_view().subrange(low - coff, sh - coff);
            crate::util::lemma_limited_len_bounds(xs, max_size);
            assert(st =~= xs.take(limited_len(xs, max_size) as int));
            assert forall|k: int| 0 <= k < st.len() implies {
                &&& #[trigger] st[k].index == low + k
                &&& log.store.term_spec((low + k) as u64) == Ok::<u64, Error>(st[k].term)
            } by {
                let i = (low + k) as u64;
                assert(st[k] == core.entries_view()[i - coff]);
                assert(core.entries_view()[i - coff].index == core.entries_view()[0].index + (i - coff));
            }
        }
    }
    assert(stored_part_reads_log(log, low, high, max_size));
    law_slice_reads_log(log, low, high, max_size);
}

/// The commit index a follower takes from an append is the smaller of the
/// leader's commit index and the index of the last new entry: never past
/// either, and equal to one of them.
pub proof fn law_append_commit_target<T: Storage>(idx: u64, leader_commit: u64, n: nat)
    requires
        idx + n <= u64::MAX,
    ensures
        RaftLog::<T>::append_commit_target(idx, leader_commit, n) <= leader_commit,
        RaftLog::<T>::append_commit_target(idx, leader_commit, n) <= idx + n,
        RaftLog::<T>::append_commit_target(idx, leader_commit, n) == leader_commit
            || RaftLog::<T>::append_commit_target(idx, leader_commit, n) == idx + n,
{
}

/// A node's log.
pub struct RaftLog<T: Storage> {
    /// The entries that have reached stable storage.
    pub store: T,
    /// The entries (and snapshot) not yet on stable storage.
    pub unstable: Unstable,
    /// The highest index known to be committed.
    pub committed: u64,
    /// The highest index applied to the state machine.
    pub applied: u64,
    pub tag: String,
}

/// An error that the log passes on from storage rather than failing on:
/// the entry is compacted away or not there yet.
pub open spec fn tolerated_store_error(e: Error) -> bool {
    e matches Error::Store(StorageError::Compacted) || e matches Error::Store(StorageError::Unavailable)
}

impl<T: Storage> RaftLog<T> {
    /// Storage answers its index queries, the tail is consistent, and the
    /// last index leaves room for one more.
    pub open spec fn wf(&self) -> bool {
        &&& self.store.storage_wf()
        &&& self.store.first_index_spec() is Ok
        &&& self.store.last_index_spec() is Ok
        &&& self.unstable.wf()
        &&& self.unstable.snapshot_index_fits()
        &&& self.last_index_view() < u64::MAX
        &&& self.first_index_view() >= 1
    }

    /// The index of the first entry that can be read.
    pub open spec fn first_index_view(&self) -> u64 {
        match self.unstable.first_index_spec() {
            Some(i) => i,
            None => self.store.first_index_spec()->Ok_0,
        }
    }

    /// The index of the last entry.
    pub open spec fn last_index_view(&self) -> u64 {
        match self.unstable.last_index_spec() {
            Some(i) => i,
            None => self.store.last_index_spec()->Ok_0,
        }
    }

    /// `idx` lies between the entry before the first one and the last one.
    pub open spec fn in_term_range(&self, idx: u64) -> bool {
        self.first_index_view() - 1 <= idx <= self.last_index_view()
    }

    /// The term of the entry at `idx`: zero outside the log, else from the
    /// unstable tail when it knows it, else from storage.
    pub open spec fn term_view(&self, idx: u64) -> Result<u64> {
        if !self.in_term_range(idx) {
            Ok(0)
        } else {
            match self.unstable.term_spec(idx) {
                Some(t) => Ok(t),
                None => self.store.term_spec(idx),
            }
        }
    }

    /// `term(idx)` returns rather than panics: the tail's lookup stays in
    /// bounds, and storage fails, if at all, only as compacted or unavailable.
    pub open spec fn term_callable(&self, idx: u64) -> bool {
        &&& self.wf()
        &&& self.in_term_range(idx) ==> self.unstable.term_in_bounds(idx)
        &&& (self.in_term_range(idx) && self.unstable.term_spec(idx) is None
            && self.store.term_spec(idx) is Err) ==> tolerated_store_error(
            self.store.term_spec(idx)->Err_0,
        )
    }

    /// Whether the entry at `idx` has term `term`.
    pub open spec fn match_term_view(&self, idx: u64, term: u64) -> bool {
        self.term_view(idx) == Ok::<u64, Error>(term)
    }

    /// The index of the first of `es` whose term differs from the log's,
    /// or zero when all agree.
    pub open spec fn find_conflict_view(&self, es: Seq<EntryView>) -> u64
        decreases es.len(),
    {
        if es.len() == 0 {
            0
        } else if !self.match_term_view(es[0].index, es[0].term) {
            es[0].index
        } else {
            self.find_conflict_view(es.drop_first())
        }
    }

    /// `append(es)` does not fail: `es` starts after the committed entries
    /// and at most one past the tail, and its indices fit.
    pub open spec fn append_ok(&self, es: Seq<EntryView>) -> bool {
        es.len() > 0 ==> {
            &&& es[0].index >= 1
            &&& es[0].index - 1 >= self.committed
            &&& es[0].index <= self.unstable.offset + self.unstable.entries@.len()
            &&& es[0].index + es.len() <= u64::MAX
        }
    }

    /// The last index after `append(es)`.
    pub open spec fn last_after_append(&self, es: Seq<EntryView>) -> u64 {
        if es.len() == 0 {
            self.last_index_view()
        } else {
            (es[0].index + es.len() - 1) as u64
        }
    }

    /// `new` is `self` after `append(es)`.
    pub open spec fn appended(&self, es: Seq<EntryView>, new: RaftLog<T>) -> bool {
        &&& es.len() == 0 ==> new.unstable == self.unstable
        &&& es.len() > 0 ==> is_truncate_and_append(self.unstable, new.unstable, es)
        &&& new.store == self.store
        &&& new.committed == self.committed
        &&& new.applied == self.applied
        &&& new.tag == self.tag
    }

    /// The entries in `[low, high)` before the size limit, `st` being those
    /// read from storage.
    pub open spec fn slice_collected(&self, st: Seq<EntryView>, low: u64, high: u64) -> Seq<EntryView> {
        let off = self.unstable.offset;
        if high > off {
            st + entry_views(self.unstable.entries@).subrange(
                (if low > off { low } else { off }) - off,
                high - off,
            )
        } else {
            st
        }
    }

    /// The index where storage's part of `[low, high)` ends.
    pub open spec fn stored_high(&self, high: u64) -> u64 {
        if high < self.unstable.offset {
            high
        } else {
            self.unstable.offset
        }
    }

    /// What storage gives for its part of `[low, high)`: nothing when the
    /// range starts in the tail.
    pub open spec fn stored_part(&self, low: u64, high: u64, max_size: u64) -> core::result::Result<Seq<EntryView>, Error> {
        if low < self.unstable.offset {
            self.store.entries_spec(low, self.stored_high(high), max_size)
        } else {
            Ok(Seq::empty())
        }
    }

    /// The entries in `[low, high)`, their total size limited by
    /// `max_size`. A range starting before the first index is compacted;
    /// when storage returns fewer entries than asked (its own size limit),
    /// those are all.
    pub open spec fn slice_view(&self, low: u64, high: u64, max_size: u64) -> core::result::Result<Seq<EntryView>, Error> {
        if low < self.first_index_view() {
            Err(Error::Store(StorageError::Compacted))
        } else if low >= high {
            Ok(Seq::empty())
        } else {
            match self.stored_part(low, high, max_size) {
                Err(e) => Err(e),
                Ok(st) => if low < self.unstable.offset && st.len() < self.stored_high(high) - low {
                    Ok(st)
                } else {
                    let all = self.slice_collected(st, low, high);
                    Ok(all.take(limited_len(all, max_size) as int))
                },
            }
        }
    }

    /// `slice(low, high, max_size)` returns rather than panics.
    pub open spec fn slice_ok(&self, low: u64, high: u64, max_size: u64) -> bool {
        &&& self.wf()
        &&& low <= high
        &&& low >= self.first_index_view() ==> self.first_index_view() <= self.last_index_view() + 1
        &&& low >= self.first_index_view() ==> high <= self.last_index_view() + 1
        &&& (low >= self.first_index_view() && low < high) ==> {
            &&& low < self.unstable.offset ==> {
                &&& self.store.entries_callable(low, self.stored_high(high))
                &&& self.stored_part(low, high, max_size) matches Err(e) ==> e matches Error::Store(
                    StorageError::Compacted,
                )
            }
            &&& high > self.unstable.offset ==> high <= self.unstable.offset
                + self.unstable.entries@.len()
            &&& self.stored_part(low, high, max_size) matches Ok(st) ==> {
                let all = self.slice_collected(st, low, high);
                max_size != crate::util::NO_LIMIT && all.len() > 1 ==> sizes_fit(all)
            }
        }
    }

    /// The entries of `es` from the conflict at index `conflict` on, `es`
    /// following the entry at `idx`.
    pub open spec fn conflict_suffix(es: Seq<EntryView>, idx: u64, conflict: u64) -> Seq<EntryView> {
        es.skip(conflict - (idx + 1))
    }

    /// The commit index that `maybe_append` asks for.
    pub open spec fn append_commit_target(idx: u64, leader_commit: u64, n: nat) -> u64 {
        if leader_commit <= idx + n {
            leader_commit
        } else {
            (idx + n) as u64
        }
    }

    /// `maybe_append(idx, _, leader_commit, es)` on a matching `idx` does
    /// not fail: the terms of `es` can be looked up, a conflict lies past
    /// the committed entries and within `es`, the suffix can be appended,
    /// and the commit target lies within the resulting log.
    pub open spec fn maybe_append_ok(&self, idx: u64, leader_commit: u64, es: Seq<EntryView>) -> bool {
        let c = self.find_conflict_view(es);
        let suffix = Self::conflict_suffix(es, idx, c);
        let last = if c == 0 {
            self.last_index_view()
        } else {
            self.last_after_append(suffix)
        };
        let to = Self::append_commit_target(idx, leader_commit, es.len());
        &&& forall|i: int| 0 <= i < es.len() ==> self.term_callable(#[trigger] es[i].index)
        &&& c != 0 ==> {
            &&& c > self.committed
            &&& c >= idx + 1
            &&& c - (idx + 1) <= es.len()
            &&& self.append_ok(suffix)
        }
        &&& self.committed < to ==> to <= last
    }

    /// A log over `storage`, committed and applied up to the entry before
    /// storage's first, with an empty tail after storage's last entry.
    pub fn new(storage: T, tag: String) -> (r: RaftLog<T>)
        requires
            storage.storage_wf(),
            storage.first_index_spec() matches Ok(f) && f >= 1,
            storage.last_index_spec() matches Ok(l) && l < u64::MAX,
        ensures
            r.store == storage,
            r.committed == storage.first_index_spec()->Ok_0 - 1,
            r.applied == storage.first_index_spec()->Ok_0 - 1,
            r.unstable.offset == storage.last_index_spec()->Ok_0 + 1,
            r.unstable.entries@ == Seq::<Entry>::empty(),
            r.unstable.snapshot is None,
            r.unstable.tag@ == tag@,
            r.tag == tag,
            r.wf(),
    {
        let first_index = match storage.first_index() {
            Ok(i) => i,
            Err(_) => 0,
        };
        let last_index = match storage.last_index() {
            Ok(i) => i,
            Err(_) => 0,
        };
        RaftLog {
            store: storage,
            committed: first_index - 1,
            applied: first_index - 1,
            unstable: Unstable::new(last_index + 1, tag.clone()),
            tag,
        }
    }

    /// The term of the last entry.
    pub fn last_term(&self) -> (r: u64)
        requires
            self.term_callable(self.last_index_view()),
            self.term_view(self.last_index_view()) is Ok,
        ensures
            r == self.term_view(self.last_index_view())->Ok_0,
    {
        let last = self.last_index();
        match self.term(last) {
            Ok(t) => t,
            Err(_) => 0,
        }
    }

    /// A one-line summary: the commit and apply indices and the tail's
    /// offset and length.
    pub fn to_string(&self) -> (r: String)
        ensures
            r@ == "committed:"@ + decimal(self.committed as nat) + ", applied="@ + decimal(
                self.applied as nat,
            ) + ", unstable.offset="@ + decimal(self.unstable.offset as nat)
                + ", unstable.entries.len()="@ + decimal(self.unstable.entries@.len()),
    {
        let mut s = String::from_str("committed:");
        s.append(decimal_string(self.committed).as_str());
        s.append(", applied=");
        s.append(decimal_string(self.applied).as_str());
        s.append(", unstable.offset=");
        s.append(decimal_string(self.unstable.offset).as_str());
        s.append(", unstable.entries.len()=");
        s.append(decimal_string(self.unstable.entries.len() as u64).as_str());
        s
    }

    pub fn get_store(&self) -> (r: &T)
        ensures
            *r == self.store,
    {
        &self.store
    }

    pub fn mut_store(&mut self) -> (r: &mut T)
        ensures
            *r == old(self).store,
            final(self).store == *final(r),
            final(self).unstable == old(self).unstable,
            final(self).committed == old(self).committed,
            final(self).applied == old(self).applied,
            final(self).tag == old(self).tag,
    {
        &mut self.store
    }

    /// The term of the entry at `idx`; zero when `idx` is outside the log.
    pub fn term(&self, idx: u64) -> (r: Result<u64>)
        requires
            self.term_callable(idx),
        ensures
            r == self.term_view(idx),
    {
        let dummy_index = self.first_index() - 1;
        if idx < dummy_index || idx > self.last_index() {
            return Ok(0u64);
        }
        match self.unstable.maybe_term(idx) {
            Some(term) => Ok(term),
            None => self.store.term(idx),
        }
    }

    /// The index of the first entry that can be read.
    pub fn first_index(&self) -> (r: u64)
        requires
            self.wf(),
        ensures
            r == self.first_index_view(),
    {
        match self.unstable.maybe_first_index() {
            Some(idx) => idx,
            None => match self.store.first_index() {
                Ok(i) => i,
                Err(_) => 0,
            },
        }
    }

    /// The index of the last entry.
    pub fn last_index(&self) -> (r: u64)
        requires
            self.wf(),
        ensures
            r == self.last_index_view(),
    {
        match self.unstable.maybe_last_index() {
            Some(idx) => idx,
            None => match self.store.last_index() {
                Ok(i) => i,
                Err(_) => 0,
            },
        }
    }

    /// The index of the first of `entries` whose term differs from the
    /// log's, or zero when all agree.
    pub fn find_conflict(&self, entries: &[Entry]) -> (r: u64)
        requires
            forall|i: int| 0 <= i < entries@.len() ==> self.term_callable(#[trigger] entries@[i].index),
        ensures
            r == self.find_conflict_view(entry_views(entries@)),
    {
        let ghost es = entry_views(entries@);
        let mut i: usize = 0;
        assert(es.skip(0) =~= es);
        while i < entries.len()
            invariant
                0 <= i <= entries@.len(),
                es == entry_views(entries@),
                forall|k: int| 0 <= k < entries@.len() ==> self.term_callable(#[trigger] entries@[k].index),
                self.find_conflict_view(es) == self.find_conflict_view(es.skip(i as int)),
            decreases entries@.len() - i,
        {
            let entry = &entries[i];
            proof {
                assert(es.skip(i as int)[0] == entry@);
                assert(es.skip(i as int).drop_first() =~= es.skip(i + 1));
            }
            if !self.match_term(entry.index, entry.term) {
                return entry.index;
            }
            i = i + 1;
        }
        proof {
            assert(es.skip(i as int).len() == 0);
        }
        0
    }

    /// Whether the entry at `idx` has term `term`.
    pub fn match_term(&self, idx: u64, term: u64) -> (r: bool)
        requires
            self.term_callable(idx),
        ensures
            r == self.match_term_view(idx, term),
    {
        match self.term(idx) {
            Ok(t) => t == term,
            Err(_) => false,
        }
    }

    /// Appends `entries`, which follow the entry at `idx` of term `term`,
    /// when the log holds that entry; returns the index of the last new
    /// entry then, and `None` otherwise. Entries that the log already holds
    /// are kept; from the first conflicting one on, `entries` replace the
    /// log. The commit index rises to `committed`, or to the last new
    /// entry if that is lower.
    pub fn maybe_append(&mut self, idx: u64, term: u64, committed: u64, entries: &[Entry]) -> (r: Option<u64>)
        requires
            old(self).wf(),
            idx + entries@.len() <= u64::MAX,
            old(self).term_callable(idx),
            old(self).match_term_view(idx, term) ==> old(self).maybe_append_ok(
                idx,
                committed,
                entry_views(entries@),
            ),
        ensures
            !old(self).match_term_view(idx, term) ==> r is None && *final(self) == *old(self),
            old(self).match_term_view(idx, term) ==> {
                let es = entry_views(entries@);
                let c = old(self).find_conflict_view(es);
                let suffix = Self::conflict_suffix(es, idx, c);
                let to = Self::append_commit_target(idx, committed, es.len());
                &&& r == Some((idx + es.len()) as u64)
                &&& final(self).wf()
                &&& (c == 0 || suffix.len() == 0) ==> final(self).unstable == old(self).unstable
                &&& (c != 0 && suffix.len() > 0) ==> is_truncate_and_append(
                    old(self).unstable,
                    final(self).unstable,
                    suffix,
                )
                &&& final(self).committed == if old(self).committed >= to {
                    old(self).committed
                } else {
                    to
                }
                &&& final(self).committed >= old(self).committed
                &&& final(self).committed > old(self).committed ==> {
                    &&& final(self).committed <= committed
                    &&& final(self).committed <= idx + es.len()
                    &&& (final(self).committed == committed || final(self).committed == idx + es.len())
                }
                &&& final(self).store == old(self).store
                &&& final(self).applied == old(self).applied
                &&& final(self).tag == old(self).tag
            },
    {
        let last_new_index = idx + entries.len() as u64;
        if self.match_term(idx, term) {
            let ghost es = entry_views(entries@);
            assert forall|i: int| 0 <= i < entries@.len() implies self.term_callable(
                #[trigger] entries@[i].index,
            ) by {
                assert(es[i].index == entries@[i].index);
            }
            let conflict_idx = self.find_conflict(entries);
            if conflict_idx == 0 {
            } else {
                let offset = idx + 1;
                let start = (conflict_idx - offset) as usize;
                let suffix = vstd::slice::slice_subrange(entries, start, entries.len());
                proof {
                    assert(entry_views(suffix@) =~= Self::conflict_suffix(es, idx, conflict_idx));
                }
                self.append(suffix);
            }
            let to = if committed <= last_new_index { committed } else { last_new_index };
            self.commit_to(to);
            return Some(last_new_index);
        }
        None
    }

    /// Raises the commit index to `to_commit`; a lower value leaves it.
    pub fn commit_to(&mut self, to_commit: u64)
        requires
            old(self).wf(),
            old(self).committed < to_commit ==> to_commit <= old(self).last_index_view(),
        ensures
            final(self).committed == if old(self).committed >= to_commit {
                old(self).committed
            } else {
                to_commit
            },
            old(self).committed <= old(self).last_index_view() ==> final(self).committed
                <= final(self).last_index_view(),
            final(self).store == old(self).store,
            final(self).unstable == old(self).unstable,
            final(self).applied == old(self).applied,
            final(self).tag == old(self).tag,
    {
        if self.committed >= to_commit {
            return;
        }
        self.committed = to_commit;
    }

    /// Records that the state machine applied up to `idx`; zero is ignored.
    pub fn applied_to(&mut self, idx: u64)
        requires
            idx != 0 ==> old(self).applied <= idx <= old(self).committed,
        ensures
            final(self).applied == if idx == 0 { old(self).applied } else { idx },
            final(self).store == old(self).store,
            final(self).unstable == old(self).unstable,
            final(self).committed == old(self).committed,
            final(self).tag == old(self).tag,
    {
        if idx == 0 {
            return;
        }
        self.applied = idx;
    }

    /// The applied index.
    pub fn get_append(&self) -> (r: u64)
        ensures
            r == self.applied,
    {
        self.applied
    }

    /// Drops the tail's entries up to `idx` once storage holds them.
    pub fn stable_to(&mut self, idx: u64, term: u64)
        requires
            old(self).unstable.wf(),
            old(self).unstable.term_in_bounds(idx),
        ensures
            final(self).unstable.wf(),
            final(self).unstable.snapshot == old(self).unstable.snapshot,
            if old(self).unstable.term_spec(idx) == Some(term) && idx >= old(self).unstable.offset {
                &&& final(self).unstable.offset == idx + 1
                &&& final(self).unstable.entries@ == old(self).unstable.entries@.skip(
                    idx + 1 - old(self).unstable.offset,
                )
            } else {
                &&& final(self).unstable.offset == old(self).unstable.offset
                &&& final(self).unstable.entries@ == old(self).unstable.entries@
            },
            final(self).store == old(self).store,
            final(self).committed == old(self).committed,
            final(self).applied == old(self).applied,
            final(self).tag == old(self).tag,
    {
        self.unstable.stable_to(idx, term);
    }

    /// Drops the tail's snapshot once storage holds it.
    pub fn stable_snapshot_to(&mut self, idx: u64)
        ensures
            final(self).unstable.snapshot == if old(self).unstable.snapshot matches Some(s)
                && s.metadata.index == idx {
                None
            } else {
                old(self).unstable.snapshot
            },
            final(self).unstable.entries == old(self).unstable.entries,
            final(self).unstable.offset == old(self).unstable.offset,
            final(self).store == old(self).store,
            final(self).committed == old(self).committed,
            final(self).applied == old(self).applied,
            final(self).tag == old(self).tag,
    {
        self.unstable.stable_snapshot_to(idx);
    }

    /// Appends `entries` to the tail, replacing the entries from
    /// `entries[0].index` on; returns the new last index.
    pub fn append(&mut self, entries: &[Entry]) -> (r: u64)
        requires
            old(self).wf(),
            old(self).append_ok(entry_views(entries@)),
        ensures
            final(self).wf(),
            old(self).appended(entry_views(entries@), *final(self)),
            r == old(self).last_after_append(entry_views(entries@)),
            r == final(self).last_index_view(),
    {
        if entries.len() == 0 {
            return self.last_index();
        }
        proof {
            assert(entries@[0]@ == entry_views(entries@)[0]);
        }
        let after = entries[0].index - 1;
        let ghost old_unstable = self.unstable;
        self.unstable.truncate_and_append(entries);
        proof {
            let idx0 = entries@[0].index;
            let kept = old_unstable.entries@.take(idx0 - self.unstable.offset);
            assert(kept.len() == idx0 - self.unstable.offset);
            assert(entry_views(self.unstable.entries@).len() == self.unstable.entries@.len());
            assert(self.unstable.entries@.len() == kept.len() + entries@.len());
        }
        self.last_index()
    }

    /// `None` when `[low, high)` is a readable range, else the error.
    fn must_check_out_of_bounds(&self, low: u64, high: u64) -> (r: Option<Error>)
        requires
            self.wf(),
            low <= high,
            low >= self.first_index_view() ==> self.first_index_view() <= self.last_index_view() + 1,
            low >= self.first_index_view() ==> high <= self.last_index_view() + 1,
        ensures
            low < self.first_index_view() ==> r matches Some(Error::Store(StorageError::Compacted)),
            low >= self.first_index_view() ==> r is None,
    {
        let first_index = self.first_index();
        if low < first_index {
            return Some(Error::Store(StorageError::Compacted));
        }
        None
    }

    /// The entries in `[low, high)`, their total size limited by `max_size`.
    pub fn slice(&self, low: u64, high: u64, max_size: u64) -> (r: Result<Vec<Entry>>)
        requires
            self.slice_ok(low, high, max_size),
        ensures
            match r {
                Ok(v) => self.slice_view(low, high, max_size) == Ok::<Seq<EntryView>, Error>(
                    entry_views(v@),
                ),
                Err(e) => self.slice_view(low, high, max_size) == Err::<Seq<EntryView>, Error>(e),
            },
    {
        let err = self.must_check_out_of_bounds(low, high);
        match err {
            Some(e) => {
                return Err(e);
            },
            None => {},
        }
        let mut entries: Vec<Entry> = Vec::new();
        if low >= high {
            proof {
                assert(entry_views(entries@) =~= Seq::<EntryView>::empty());
            }
            return Ok(entries);
        }
        let off = self.unstable.offset;
        let ghost mut st: Seq<EntryView> = Seq::empty();
        if low < off {
            let mid = if high < off { high } else { off };
            let stored_entries = self.store.entries(low, mid, max_size);
            match stored_entries {
                Err(e) => {
                    return Err(e);
                },
                Ok(v) => {
                    entries = v;
                },
            }
            proof {
                st = entry_views(entries@);
            }
            if (entries.len() as u64) < mid - low {
                return Ok(entries);
            }
        }
        proof {
            assert(entry_views(entries@) == st);
            assert(self.stored_part(low, high, max_size) == Ok::<Seq<EntryView>, Error>(st));
        }
        if high > off {
            let lo = if low > off { low } else { off };
            let unstable = self.unstable.slice(lo, high);
            let ghost prev = entries@;
            entries.extend_from_slice(unstable);
            proof {
                let tail = entry_views(self.unstable.entries@).subrange(lo - off, high - off);
                assert forall|i: int| 0 <= i < entries@.len() implies
                    #[trigger] entry_views(entries@)[i] == (st + tail)[i] by {
                    if i >= prev.len() {
                        assert(cloned::<Entry>(unstable@[i - prev.len()], entries@[i]));
                        assert(unstable@[i - prev.len()] == self.unstable.entries@[lo - off + i - prev.len()]);
                    }
                }
                assert(entry_views(entries@) =~= st + tail);
            }
        }
        let ghost all = entry_views(entries@);
        assert(all == self.slice_collected(st, low, high));
        let ghost before = entries@;
        limit_size(&mut entries, max_size);
        proof {
            crate::util::lemma_limited_len_bounds(all, max_size);
            assert(entry_views(entries@) =~= all.take(limited_len(all, max_size) as int));
        }
        Ok(entries)
    }

    /// The entries from `idx` to the last one, their total size limited by
    /// `max_size`; none when `idx` is past the last entry.
    pub fn entries(&self, idx: u64, max_size: u64) -> (r: Result<Vec<Entry>>)
        requires
            self.wf(),
            idx <= self.last_index_view() ==> self.slice_ok(idx, (self.last_index_view() + 1) as u64, max_size),
        ensures
            match r {
                Ok(v) => (if idx > self.last_index_view() {
                    Ok(Seq::empty())
                } else {
                    self.slice_view(idx, (self.last_index_view() + 1) as u64, max_size)
                }) == Ok::<Seq<EntryView>, Error>(entry_views(v@)),
                Err(e) => idx <= self.last_index_view() && self.slice_view(
                    idx,
                    (self.last_index_view() + 1) as u64,
                    max_size,
                ) == Err::<Seq<EntryView>, Error>(e),
            },
    {
        let last = self.last_index();
        if idx > last {
            let v: Vec<Entry> = Vec::new();
            proof {
                assert(entry_views(v@) =~= Seq::<EntryView>::empty());
            }
            return Ok(v);
        }
        self.slice(idx, last + 1, max_size)
    }

    pub fn get_unstable(&self) -> (r: &Unstable)
        ensures
            *r == self.unstable,
    {
        &self.unstable
    }

    /// The entries of the tail, if any.
    pub fn unstable_entries(&self) -> (r: Option<&[Entry]>)
        ensures
            match r {
                Some(s) => self.unstable.entries@.len() > 0 && s@ == self.unstable.entries@,
                None => self.unstable.entries@.len() == 0,
            },
    {
        if self.unstable.entries.len() == 0 {
            return None;
        }
        Some(self.unstable.entries.as_slice())
    }
}

} // verus!
