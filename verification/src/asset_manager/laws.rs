//! Properties of the asset manager that span several operations.

use super::cache::{entry_keys, lookup};
use super::{
    age, kept_entries, touched, AssetLoadOutcome, AssetManagerView, CachedAsset, LoadStateView,
    CACHE_CAPACITY,
};
use vstd::prelude::*;

verus! {

/// Once a path has been loaded and the server reported it ready, loading it again is
/// answered from the cache with the same tracking id, and counts as a hit.
pub proof fn law_ready_asset_served_from_cache(v: AssetManagerView, path: Seq<char>, t1: u64, now: u64, t2: u64)
    requires
        v.wf(),
    ensures
        ({
            let (v1, id) = v.load(path, t1);
            let v2 = v1.resolve(path, AssetLoadOutcome::Loaded, now);
            let (v3, id2) = v2.load(path, t2);
            &&& id2 == id
            &&& v3.hits == v2.hits + 1
            &&& v3.states == v2.states
            &&& v2.states[path] == LoadStateView::Ready { path, handle_id: id }
        }),
{
    let (v1, id) = v.load(path, t1);
    let v2 = v1.resolve(path, AssetLoadOutcome::Loaded, now);
    match lookup(v.cache, path) {
        Some(c) => {
            let i = entry_keys(v.cache).index_of(path);
            assert(v.cache.contains(v.cache[i]));
            super::lemma_with_value(v.cache, path, touched(c, t1));
            assert(v2 == v1);
        },
        None => {
            let entry = CachedAsset { handle_id: id, loaded_at: now, last_used: now, access_count: 1 };
            super::lemma_after_put(v1.cache, v1.cache_capacity, path, entry);
            assert(lookup(v2.cache, path) == Some(entry));
        },
    }
}

/// A cache hit marks the entry as used at the time of the load, so clearing the entries
/// unused for any length of time at that same moment keeps it.
pub proof fn law_hit_refreshes_last_use(v: AssetManagerView, path: Seq<char>, now: u64, max_age: int)
    requires
        v.wf(),
        lookup(v.cache, path) is Some,
        max_age >= 0,
    ensures
        lookup(v.load(path, now).0.cache, path) == Some(touched(lookup(v.cache, path)->0, now)),
        kept_entries(v.load(path, now).0.cache, now, max_age).contains(
            (path, touched(lookup(v.cache, path)->0, now)),
        ),
{
    broadcast use vstd::seq_lib::group_filter_ensures;

    let c = lookup(v.cache, path)->0;
    let t = touched(c, now);
    super::lemma_with_value(v.cache, path, t);
    let w = v.load(path, now).0.cache;
    let i = entry_keys(v.cache).index_of(path);
    assert(w[i] == (path, t));
    assert(age(now, t.last_used) == 0);
    let keep = |p: (Seq<char>, CachedAsset)| age(now, p.1.last_used) <= max_age;
    w.lemma_filter_contains(keep, i);
}

/// Reloading a path forgets its cache entry and starts a new load under a fresh id.
pub proof fn law_reload_starts_fresh_load(v: AssetManagerView, path: Seq<char>)
    requires
        v.wf(),
    ensures
        ({
            let (v1, id) = v.invalidate(path).start_load(path);
            &&& id == v.next_id
            &&& v1.states[path] == LoadStateView::Loading { path, handle_id: id }
            &&& lookup(v1.cache, path) is None
            &&& v1.misses == v.misses + 1
        }),
        forall|now: u64| #[trigger] v.invalidate(path).load(path, now) == v.invalidate(path).start_load(path),
{
    super::lemma_without_key(v.cache, path);
    let w = v.invalidate(path);
    assert(!entry_keys(w.cache).contains(path));
}

/// Every load is counted exactly once, as a hit or as a miss.
pub proof fn law_load_counts_once(v: AssetManagerView, path: Seq<char>, now: u64)
    ensures
        v.load(path, now).0.hits + v.load(path, now).0.misses == v.hits + v.misses + 1,
{
}

/// A path that is invalidated is neither tracked nor cached afterwards, and no longer
/// counts as pending or finished.
pub proof fn law_invalidate_forgets(v: AssetManagerView, path: Seq<char>)
    requires
        v.wf(),
    ensures
        !v.invalidate(path).states.dom().contains(path),
        lookup(v.invalidate(path).cache, path) is None,
        !super::loading_paths(v.invalidate(path).states).contains(path),
        !super::done_paths(v.invalidate(path).states).contains(path),
{
    super::lemma_without_key(v.cache, path);
}

/// Resolving a load keeps the state well formed and never changes how many loads are
/// pending and finished in total.
pub proof fn law_resolve_keeps_total(v: AssetManagerView, path: Seq<char>, outcome: AssetLoadOutcome, now: u64)
    requires
        v.wf(),
    ensures
        v.resolve(path, outcome, now).pending() + v.resolve(path, outcome, now).completed()
            == v.pending() + v.completed(),
        v.resolve(path, outcome, now).wf(),
{
    if v.states.dom().contains(path) && v.states[path] is Loading {
        match v.states[path] {
            LoadStateView::Loading { handle_id, .. } => {
                let s = match outcome {
                    AssetLoadOutcome::Loaded => LoadStateView::Ready { path, handle_id },
                    _ => LoadStateView::Failed { path, error: super::load_failed_message() },
                };
                super::lemma_counts_insert(v.states, path, s);
                let entry = CachedAsset { handle_id, loaded_at: now, last_used: now, access_count: 1 };
                super::lemma_after_put(v.cache, v.cache_capacity, path, entry);
                super::lemma_contains_key(v.cache);
            },
            _ => {},
        }
    }
}

/// Finished loads never outnumber the tracked paths, and the pending and finished loads
/// together are at most the tracked paths.
pub proof fn law_progress_bounded(v: AssetManagerView)
    requires
        v.wf(),
    ensures
        v.completed() <= v.states.dom().len(),
        v.pending() + v.completed() <= v.states.dom().len(),
{
    super::lemma_counts_bounded(v.states);
}

/// The cache never holds more than its 64 entries: loading, resolving and invalidating a
/// path all keep it within that size.
pub proof fn law_cache_stays_bounded(v: AssetManagerView, path: Seq<char>, outcome: AssetLoadOutcome, now: u64)
    requires
        v.wf(),
    ensures
        v.cache.len() <= CACHE_CAPACITY,
        v.load(path, now).0.cache.len() <= CACHE_CAPACITY,
        v.resolve(path, outcome, now).cache.len() <= CACHE_CAPACITY,
        v.invalidate(path).cache.len() <= CACHE_CAPACITY,
{
    law_resolve_keeps_total(v, path, outcome, now);
    super::lemma_without_key(v.cache, path);
    if let Some(c) = lookup(v.cache, path) {
        super::lemma_with_value(v.cache, path, touched(c, now));
    }
}

} // verus!
