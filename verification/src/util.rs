//! Bounding the total encoded size of a batch of entries.
use vstd::prelude::*;
use crate::eraft_demo::{Entry, EntryView, entry_views, entry_encoded_size, entry_size_fits};

verus! {

/// The size limit that means no limit.
pub const NO_LIMIT: u64 = 0xffff_ffff_ffff_ffff;

/// How many entries of `es` a size limit of `max` keeps, `acc` bytes being
/// counted already: while nothing has been counted the next entry is kept
/// whatever its size; after that an entry is kept while the running total,
/// itself included, stays within `max`.
pub open spec fn limit_count(es: Seq<EntryView>, acc: nat, max: nat) -> nat
    decreases es.len(),
{
    if es.len() == 0 {
        0
    } else if acc == 0 {
        1 + limit_count(es.drop_first(), entry_encoded_size(es[0]), max)
    } else if acc + entry_encoded_size(es[0]) <= max {
        1 + limit_count(es.drop_first(), acc + entry_encoded_size(es[0]), max)
    } else {
        0
    }
}

/// How many of `es` stay after limiting their total size to `max`.
pub open spec fn limited_len(es: Seq<EntryView>, max: u64) -> nat {
    if max == NO_LIMIT || es.len() <= 1 {
        es.len()
    } else {
        limit_count(es, 0, max as nat)
    }
}

/// Every entry's size fits `u32`, and there are few enough of them that
/// their sizes add up within `u64`.
pub open spec fn sizes_fit(es: Seq<EntryView>) -> bool {
    &&& es.len() <= 0xffff_ffff
    &&& forall|i: int| 0 <= i < es.len() ==> entry_size_fits(#[trigger] es[i])
}

proof fn lemma_limit_count_le(es: Seq<EntryView>, acc: nat, max: nat)
    ensures
        limit_count(es, acc, max) <= es.len(),
        es.len() > 0 && acc == 0 ==> limit_count(es, acc, max) >= 1,
    decreases es.len(),
{
    if es.len() > 0 {
        let s = entry_encoded_size(es[0]);
        if acc == 0 {
            lemma_limit_count_le(es.drop_first(), s, max);
        } else if acc + s <= max {
            lemma_limit_count_le(es.drop_first(), acc + s, max);
        }
    }
}

/// Limiting the size keeps a prefix, and keeps at least one entry of a
/// nonempty batch.
pub proof fn lemma_limited_len_bounds(es: Seq<EntryView>, max: u64)
    ensures
        limited_len(es, max) <= es.len(),
        es.len() > 0 ==> limited_len(es, max) >= 1,
{
    lemma_limit_count_le(es, 0, max as nat);
}

/// The total encoded size of `es`.
pub open spec fn total_size(es: Seq<EntryView>) -> nat
    decreases es.len(),
{
    if es.len() == 0 {
        0
    } else {
        entry_encoded_size(es[0]) + total_size(es.drop_first())
    }
}

proof fn lemma_limit_count_within(es: Seq<EntryView>, acc: nat, max: nat)
    requires
        acc > 0,
        limit_count(es, acc, max) >= 1,
    ensures
        acc + total_size(es.take(limit_count(es, acc, max) as int)) <= max,
    decreases es.len(),
{
    let k = limit_count(es, acc, max);
    let s = entry_encoded_size(es[0]);
    let rest = es.drop_first();
    let k1 = limit_count(rest, acc + s, max);
    lemma_limit_count_le(es, acc, max);
    lemma_limit_count_le(rest, acc + s, max);
    assert(es.take(k as int).drop_first() =~= rest.take(k1 as int));
    assert(es.take(k as int)[0] == es[0]);
    if k1 >= 1 {
        lemma_limit_count_within(rest, acc + s, max);
    } else {
        assert(rest.take(0) =~= Seq::<EntryView>::empty());
    }
}

/// Past a first entry of nonzero size, an entry is kept only while the
/// total stays within the limit: when two or more are kept, their total
/// size is at most `max`.
pub proof fn law_limit_within_max(es: Seq<EntryView>, max: u64)
    requires
        max != NO_LIMIT,
        es.len() > 1,
        entry_encoded_size(es[0]) > 0,
        limited_len(es, max) >= 2,
    ensures
        total_size(es.take(limited_len(es, max) as int)) <= max,
{
    let k = limited_len(es, max);
    let s = entry_encoded_size(es[0]);
    let rest = es.drop_first();
    lemma_limit_count_le(es, 0, max as nat);
    lemma_limit_count_le(rest, s, max as nat);
    lemma_limit_count_within(rest, s, max as nat);
    assert(es.take(k as int).drop_first() =~= rest.take((k - 1) as int));
    assert(es.take(k as int)[0] == es[0]);
}

/// The total size of a prefix one entry longer: the first entry's size
/// plus the rest's prefix.
proof fn lemma_total_size_take_succ(es: Seq<EntryView>, j: int)
    requires
        0 <= j < es.len(),
    ensures
        total_size(es.take(j + 1)) == entry_encoded_size(es[0]) + total_size(es.drop_first().take(j)),
{
    assert(es.take(j + 1).drop_first() =~= es.drop_first().take(j));
    assert(es.take(j + 1)[0] == es[0]);
}

/// When `limit_count` stops before the end, the next entry would take the
/// running total past `max`.
proof fn lemma_limit_count_stop(es: Seq<EntryView>, acc: nat, max: nat)
    requires
        limit_count(es, acc, max) < es.len(),
    ensures
        acc + total_size(es.take(limit_count(es, acc, max) as int + 1)) > max,
    decreases es.len(),
{
    let k = limit_count(es, acc, max);
    let s = entry_encoded_size(es[0]);
    let rest = es.drop_first();
    lemma_total_size_take_succ(es, k as int);
    if acc == 0 {
        lemma_limit_count_stop(rest, s, max);
    } else if acc + s <= max {
        lemma_limit_count_stop(rest, acc + s, max);
    } else {
        assert(rest.take(0) =~= Seq::<EntryView>::empty());
    }
}

/// The size limit keeps the longest prefix it may: at least one entry of a
/// nonempty batch is kept, and when some are dropped, adding the first
/// dropped one to those kept would take their total encoded size past
/// `max`.
pub proof fn law_limit_keeps_longest_prefix(es: Seq<EntryView>, max: u64)
    ensures
        es.len() > 0 ==> limited_len(es, max) >= 1,
        limited_len(es, max) <= es.len(),
        limited_len(es, max) < es.len() ==> max != NO_LIMIT && total_size(
            es.take(limited_len(es, max) as int + 1),
        ) > max,
{
    lemma_limited_len_bounds(es, max);
    if limited_len(es, max) < es.len() {
        lemma_limit_count_stop(es, 0, max as nat);
    }
}

/// The entry sizes fit `u32`.
proof fn lemma_entry_size_bound(e: EntryView)
    requires
        entry_size_fits(e),
    ensures
        entry_encoded_size(e) <= 0xffff_ffff,
{
    crate::eraft_demo::lemma_varint_len_u64(1);
    crate::eraft_demo::lemma_varint_len_u64(9);
    crate::eraft_demo::lemma_varint_len_u64(17);
    crate::eraft_demo::lemma_varint_len_u64(25);
    crate::eraft_demo::lemma_varint_len_u64(33);
    crate::eraft_demo::lemma_varint_len_u64(49);
    crate::eraft_demo::lemma_varint_len_u64(e.term);
    crate::eraft_demo::lemma_varint_len_u64(e.index);
    crate::eraft_demo::lemma_varint_len_u64(e.data.len() as u64);
    crate::eraft_demo::lemma_varint_len_u64(e.context.len() as u64);
}

/// Drops the entries past the size limit `max`: the first entry always
/// stays, and so does each next one while the running size of the kept
/// entries stays within `max`. A limit of `NO_LIMIT` keeps everything.
pub fn limit_size(entries: &mut Vec<Entry>, max: u64)
    requires
        max != NO_LIMIT && old(entries)@.len() > 1 ==> sizes_fit(entry_views(old(entries)@)),
    ensures
        final(entries)@ == old(entries)@.take(limited_len(entry_views(old(entries)@), max) as int),
{
    let ghost es = entry_views(entries@);
    if max == NO_LIMIT || entries.len() <= 1 {
        proof {
            assert(entries@.take(entries@.len() as int) =~= entries@);
        }
        return;
    }
    let mut size: u64 = 0;
    let mut limit: usize = 0;
    let n = entries.len();
    assert(es.skip(0) =~= es);
    while limit < n
        invariant_except_break
            n == entries@.len(),
            es == entry_views(entries@),
            sizes_fit(es),
            0 <= limit <= n,
            size <= limit * 0x1_0000_0000,
            limit_count(es, 0, max as nat) == limit + limit_count(es.skip(limit as int), size as nat, max as nat),
        ensures
            n == entries@.len(),
            es == entry_views(entries@),
            limit <= n,
            limit_count(es, 0, max as nat) == limit,
        decreases n - limit,
    {
        let e = &entries[limit];
        proof {
            assert(es[limit as int] == e@);
            lemma_entry_size_bound(e@);
            assert(es.skip(limit as int).drop_first() =~= es.skip(limit + 1));
            assert(es.skip(limit as int)[0] == es[limit as int]);
        }
        let s = e.compute_size() as u64;
        if size == 0 {
            size = size + s;
        } else {
            size = size + s;
            if size > max {
                break;
            }
        }
        limit = limit + 1;
    }
    proof {
        if limit == n {
            assert(es.skip(n as int).len() == 0);
        }
    }
    entries.truncate(limit);
}

} // verus!
