//! The hash sets of node ids and the hash map of progresses, hashed with
//! `fxhash`, as the library sees them: their contents and the operations
//! it uses.
use vstd::prelude::*;
use fxhash::{FxHashMap, FxHashSet};
use crate::progress::Progress;
use crate::read_only::ReadIndexStatus;

verus! {

#[verifier::external_type_specification]
#[verifier::external_body]
pub struct ExFxHasher(fxhash::FxHasher);

#[verifier::external_type_specification]
#[verifier::external_body]
#[verifier::reject_recursive_types(H)]
pub struct ExBuildHasherDefault<H>(std::hash::BuildHasherDefault<H>);

/// The ids that an `FxHashSet<u64>` holds.
pub uninterp spec fn fx_set_ids(s: FxHashSet<u64>) -> Set<u64>;

/// The progresses that an `FxHashMap<u64, Progress>` holds, by id.
pub uninterp spec fn fx_map_progress(m: FxHashMap<u64, Progress>) -> Map<u64, Progress>;

/// `FxHashSet::default()`: an empty set.
#[verifier::external_body]
pub(crate) fn fx_set_new() -> (r: FxHashSet<u64>)
    ensures
        fx_set_ids(r) == Set::<u64>::empty(),
{
    FxHashSet::default()
}

/// `HashSet::with_capacity_and_hasher(capacity, FxBuildHasher::default())`:
/// an empty set; the capacity only reserves room.
#[verifier::external_body]
pub(crate) fn fx_set_with_capacity(capacity: usize) -> (r: FxHashSet<u64>)
    ensures
        fx_set_ids(r) == Set::<u64>::empty(),
{
    std::collections::HashSet::with_capacity_and_hasher(capacity, fxhash::FxBuildHasher::default())
}

/// `HashSet::insert`: adds `id`; true when it was absent.
#[verifier::external_body]
pub(crate) fn fx_set_insert(s: &mut FxHashSet<u64>, id: u64) -> (r: bool)
    ensures
        fx_set_ids(*final(s)) == fx_set_ids(*old(s)).insert(id),
        r == !fx_set_ids(*old(s)).contains(id),
{
    s.insert(id)
}

/// `HashSet::remove`: removes `id`; true when it was present.
#[verifier::external_body]
pub(crate) fn fx_set_remove(s: &mut FxHashSet<u64>, id: u64) -> (r: bool)
    ensures
        fx_set_ids(*final(s)) == fx_set_ids(*old(s)).remove(id),
        r == fx_set_ids(*old(s)).contains(id),
{
    s.remove(&id)
}

/// `HashSet::contains`.
#[verifier::external_body]
pub(crate) fn fx_set_contains(s: &FxHashSet<u64>, id: u64) -> (r: bool)
    ensures
        r == fx_set_ids(*s).contains(id),
{
    s.contains(&id)
}

/// `HashSet::len`: the number of ids.
#[verifier::external_body]
pub(crate) fn fx_set_len(s: &FxHashSet<u64>) -> (r: usize)
    ensures
        r == fx_set_ids(*s).len(),
{
    s.len()
}

/// `HashSet::iter`, collected: each id once, in the set's own order.
#[verifier::external_body]
pub(crate) fn fx_set_to_vec(s: &FxHashSet<u64>) -> (r: Vec<u64>)
    ensures
        r@.no_duplicates(),
        r@.to_set() == fx_set_ids(*s),
{
    s.iter().copied().collect()
}

/// `FxHashMap::default()`: an empty map.
#[verifier::external_body]
pub(crate) fn fx_map_new() -> (r: FxHashMap<u64, Progress>)
    ensures
        fx_map_progress(r).dom() == Set::<u64>::empty(),
{
    FxHashMap::default()
}

/// `HashMap::with_capacity_and_hasher(capacity, FxBuildHasher::default())`:
/// an empty map; the capacity only reserves room.
#[verifier::external_body]
pub(crate) fn fx_map_with_capacity(capacity: usize) -> (r: FxHashMap<u64, Progress>)
    ensures
        fx_map_progress(r).dom() == Set::<u64>::empty(),
{
    std::collections::HashMap::with_capacity_and_hasher(capacity, fxhash::FxBuildHasher::default())
}

/// `HashMap::contains_key`.
#[verifier::external_body]
pub(crate) fn fx_map_contains_key(m: &FxHashMap<u64, Progress>, id: u64) -> (r: bool)
    ensures
        r == fx_map_progress(*m).contains_key(id),
{
    m.contains_key(&id)
}

/// `HashMap::insert`: maps `id` to `progress`, dropping a former value.
#[verifier::external_body]
pub(crate) fn fx_map_insert(m: &mut FxHashMap<u64, Progress>, id: u64, progress: Progress)
    ensures
        fx_map_progress(*final(m)) == fx_map_progress(*old(m)).insert(id, progress),
{
    m.insert(id, progress);
}

/// `HashMap::remove`: removes `id` and hands back its progress.
#[verifier::external_body]
pub(crate) fn fx_map_remove(m: &mut FxHashMap<u64, Progress>, id: u64) -> (r: Option<Progress>)
    ensures
        fx_map_progress(*final(m)) == fx_map_progress(*old(m)).remove(id),
        r == if fx_map_progress(*old(m)).contains_key(id) {
            Some(fx_map_progress(*old(m))[id])
        } else {
            None
        },
{
    m.remove(&id)
}

/// `HashMap::get`.
#[verifier::external_body]
pub(crate) fn fx_map_get(m: &FxHashMap<u64, Progress>, id: u64) -> (r: Option<&Progress>)
    ensures
        match r {
            Some(p) => fx_map_progress(*m).contains_key(id) && *p == fx_map_progress(*m)[id],
            None => !fx_map_progress(*m).contains_key(id),
        },
{
    m.get(&id)
}

/// `HashMap::get_mut`: the progress of `id`, to be changed in place.
#[verifier::external_body]
pub(crate) fn fx_map_get_mut(m: &mut FxHashMap<u64, Progress>, id: u64) -> (r: Option<&mut Progress>)
    ensures
        match r {
            Some(p) => {
                &&& fx_map_progress(*old(m)).contains_key(id)
                &&& *p == fx_map_progress(*old(m))[id]
                &&& fx_map_progress(*final(m)) == fx_map_progress(*old(m)).insert(id, *final(p))
            },
            None => {
                &&& !fx_map_progress(*old(m)).contains_key(id)
                &&& fx_map_progress(*final(m)) == fx_map_progress(*old(m))
            },
        },
{
    m.get_mut(&id)
}

/// `HashMap::len`: the number of entries.
#[verifier::external_body]
pub(crate) fn fx_map_len(m: &FxHashMap<u64, Progress>) -> (r: usize)
    ensures
        r == fx_map_progress(*m).dom().len(),
{
    m.len()
}

/// `HashMap::iter`, collected: each id once with its progress, in the
/// map's own order.
#[verifier::external_body]
pub(crate) fn fx_map_entries(m: &FxHashMap<u64, Progress>) -> (r: Vec<(u64, &Progress)>)
    ensures
        r@.map_values(|e: (u64, &Progress)| e.0).no_duplicates(),
        r@.map_values(|e: (u64, &Progress)| e.0).to_set() == fx_map_progress(*m).dom(),
        forall|i: int| 0 <= i < r@.len() ==> *(#[trigger] r@[i]).1 == fx_map_progress(*m)[r@[i].0],
{
    m.iter().map(|(k, v)| (*k, v)).collect()
}


/// The pending reads that an `FxHashMap<Vec<u8>, ReadIndexStatus>` holds,
/// by the bytes of their request context.
pub uninterp spec fn fx_reads(m: FxHashMap<Vec<u8>, ReadIndexStatus>) -> Map<Seq<u8>, ReadIndexStatus>;

/// `FxHashMap::default()`: no pending reads.
#[verifier::external_body]
pub(crate) fn fx_reads_new() -> (r: FxHashMap<Vec<u8>, ReadIndexStatus>)
    ensures
        fx_reads(r).dom() == Set::<Seq<u8>>::empty(),
{
    FxHashMap::default()
}

/// `HashMap::contains_key` with the context's bytes; `Vec<u8>` hashes and
/// compares as its bytes.
#[verifier::external_body]
pub(crate) fn fx_reads_contains_key(m: &FxHashMap<Vec<u8>, ReadIndexStatus>, ctx: &[u8]) -> (r: bool)
    ensures
        r == fx_reads(*m).contains_key(ctx@),
{
    m.contains_key(ctx)
}

/// `HashMap::insert`: files `status` under the bytes of `ctx`.
#[verifier::external_body]
pub(crate) fn fx_reads_insert(m: &mut FxHashMap<Vec<u8>, ReadIndexStatus>, ctx: Vec<u8>, status: ReadIndexStatus)
    ensures
        fx_reads(*final(m)) == fx_reads(*old(m)).insert(ctx@, status),
{
    m.insert(ctx, status);
}

/// `HashMap::get_mut` with the context's bytes.
#[verifier::external_body]
pub(crate) fn fx_reads_get_mut<'a>(m: &'a mut FxHashMap<Vec<u8>, ReadIndexStatus>, ctx: &[u8]) -> (r: Option<&'a mut ReadIndexStatus>)
    ensures
        match r {
            Some(s) => {
                &&& fx_reads(*old(m)).contains_key(ctx@)
                &&& *s == fx_reads(*old(m))[ctx@]
                &&& fx_reads(*final(m)) == fx_reads(*old(m)).insert(ctx@, *final(s))
            },
            None => {
                &&& !fx_reads(*old(m)).contains_key(ctx@)
                &&& fx_reads(*final(m)) == fx_reads(*old(m))
            },
        },
{
    m.get_mut(ctx)
}

/// `HashMap::remove` with the context's bytes: hands back the status.
#[verifier::external_body]
pub(crate) fn fx_reads_remove(m: &mut FxHashMap<Vec<u8>, ReadIndexStatus>, ctx: &[u8]) -> (r: Option<ReadIndexStatus>)
    ensures
        fx_reads(*final(m)) == fx_reads(*old(m)).remove(ctx@),
        r == if fx_reads(*old(m)).contains_key(ctx@) {
            Some(fx_reads(*old(m))[ctx@])
        } else {
            None
        },
{
    m.remove(ctx)
}

/// `HashMap::clone`: a map with the same ids, each progress cloned with
/// `Progress::clone`.
#[verifier::external_body]
pub(crate) fn fx_map_clone(m: &FxHashMap<u64, Progress>) -> (r: FxHashMap<u64, Progress>)
    ensures
        fx_map_progress(r).dom() == fx_map_progress(*m).dom(),
        forall|id: u64| #[trigger] fx_map_progress(*m).contains_key(id) ==> cloned::<Progress>(
            fx_map_progress(*m)[id],
            fx_map_progress(r)[id],
        ),
{
    m.clone()
}

/// `HashMap::clone` of the pending reads: the same contexts, each status
/// cloned with `ReadIndexStatus::clone`.
#[verifier::external_body]
pub(crate) fn fx_reads_clone(m: &FxHashMap<Vec<u8>, ReadIndexStatus>) -> (r: FxHashMap<Vec<u8>, ReadIndexStatus>)
    ensures
        fx_reads(r).dom() == fx_reads(*m).dom(),
        forall|ctx: Seq<u8>| #[trigger] fx_reads(*m).contains_key(ctx) ==> cloned::<ReadIndexStatus>(
            fx_reads(*m)[ctx],
            fx_reads(r)[ctx],
        ),
{
    m.clone()
}

/// `HashSet::clone`: a set with the same ids.
#[verifier::external_body]
pub(crate) fn fx_set_clone(s: &FxHashSet<u64>) -> (r: FxHashSet<u64>)
    ensures
        fx_set_ids(r) == fx_set_ids(*s),
{
    s.clone()
}

} // verus!
