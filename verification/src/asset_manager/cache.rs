//! The asset cache: an `lru::LruCache` from paths to cached entries, seen by the
//! library as the sequence of its entries, most recently used first.

use super::CachedAsset;
use lru::LruCache;
use std::num::NonZeroUsize;
use vstd::prelude::*;

verus! {

#[verifier::external_type_specification]
#[verifier::external_body]
#[verifier::reject_recursive_types(K)]
#[verifier::reject_recursive_types(V)]
#[verifier::reject_recursive_types(S)]
pub struct ExLruCache<K, V, S>(LruCache<K, V, S>);

#[verifier::external_type_specification]
#[verifier::external_body]
pub struct ExLruHasher(lru::DefaultHasher);

/// The entries of an asset cache, most recently used first.
pub uninterp spec fn cache_entries(c: LruCache<String, CachedAsset>) -> Seq<(Seq<char>, CachedAsset)>;

/// The capacity an asset cache was made with.
pub uninterp spec fn cache_capacity(c: LruCache<String, CachedAsset>) -> nat;

/// The keys of a sequence of cache entries, in order.
pub open spec fn entry_keys(e: Seq<(Seq<char>, CachedAsset)>) -> Seq<Seq<char>> {
    e.map_values(|p: (Seq<char>, CachedAsset)| p.0)
}

/// The entries without the one keyed `k` (keys are unique in a cache).
pub open spec fn without_key(e: Seq<(Seq<char>, CachedAsset)>, k: Seq<char>) -> Seq<(Seq<char>, CachedAsset)> {
    if entry_keys(e).contains(k) {
        e.remove(entry_keys(e).index_of(k))
    } else {
        e
    }
}

/// The entry stored under `k`, if any.
pub open spec fn lookup(e: Seq<(Seq<char>, CachedAsset)>, k: Seq<char>) -> Option<CachedAsset> {
    if entry_keys(e).contains(k) {
        Some(e[entry_keys(e).index_of(k)].1)
    } else {
        None
    }
}

/// The entries after `put(k, v)` on a cache of capacity `cap`: the pair becomes the most
/// recently used entry, replacing an entry with the same key, or else evicting the least
/// recently used entry when the cache is full.
pub open spec fn after_put(e: Seq<(Seq<char>, CachedAsset)>, cap: nat, k: Seq<char>, v: CachedAsset) -> Seq<(Seq<char>, CachedAsset)> {
    if entry_keys(e).contains(k) {
        seq![(k, v)] + without_key(e, k)
    } else if e.len() >= cap {
        seq![(k, v)] + e.drop_last()
    } else {
        seq![(k, v)] + e
    }
}

/// The entries with the value stored under `k` replaced by `v`, in the same places; the
/// entries are unchanged when `k` is not among them.
pub open spec fn with_value(e: Seq<(Seq<char>, CachedAsset)>, k: Seq<char>, v: CachedAsset) -> Seq<(Seq<char>, CachedAsset)> {
    if entry_keys(e).contains(k) {
        e.update(entry_keys(e).index_of(k), (k, v))
    } else {
        e
    }
}

/// `LruCache::new`: an empty cache holding at most `cap` entries.
#[verifier::external_body]
pub(crate) fn cache_new(cap: usize) -> (c: LruCache<String, CachedAsset>)
    requires
        cap > 0,
    ensures
        cache_entries(c) == Seq::<(Seq<char>, CachedAsset)>::empty(),
        cache_capacity(c) == cap,
{
    LruCache::new(NonZeroUsize::new(cap).unwrap())
}

/// `LruCache::peek`: the entry stored under `k`, without changing the recency order.
#[verifier::external_body]
pub(crate) fn cache_peek<'a>(c: &'a LruCache<String, CachedAsset>, k: &str) -> (r: Option<&'a CachedAsset>)
    ensures
        match r {
            Some(v) => lookup(cache_entries(*c), k@) == Some(*v),
            None => lookup(cache_entries(*c), k@) is None,
        },
{
    c.peek(k)
}

/// `LruCache::put`: stores `v` under `k` as the most recently used entry and returns the
/// value it replaced; when `k` is new and the cache is full, the least recently used entry
/// is dropped.
#[verifier::external_body]
pub(crate) fn cache_put(c: &mut LruCache<String, CachedAsset>, k: String, v: CachedAsset) -> (r: Option<CachedAsset>)
    ensures
        cache_capacity(*final(c)) == cache_capacity(*old(c)),
        cache_entries(*final(c)) == after_put(cache_entries(*old(c)), cache_capacity(*old(c)), k@, v),
        r == lookup(cache_entries(*old(c)), k@),
{
    c.put(k, v)
}

/// `LruCache::peek_mut`, then storing `v` through the reference it gives: the value
/// under `k` becomes `v` without changing the recency order; returns whether `k` was there.
#[verifier::external_body]
pub(crate) fn cache_store(c: &mut LruCache<String, CachedAsset>, k: &str, v: CachedAsset) -> (r: bool)
    ensures
        cache_capacity(*final(c)) == cache_capacity(*old(c)),
        cache_entries(*final(c)) == with_value(cache_entries(*old(c)), k@, v),
        r == entry_keys(cache_entries(*old(c))).contains(k@),
{
    match c.peek_mut(k) {
        Some(slot) => {
            *slot = v;
            true
        },
        None => false,
    }
}

/// `LruCache::pop`: removes the entry stored under `k` and returns it.
#[verifier::external_body]
pub(crate) fn cache_pop(c: &mut LruCache<String, CachedAsset>, k: &str) -> (r: Option<CachedAsset>)
    ensures
        cache_capacity(*final(c)) == cache_capacity(*old(c)),
        cache_entries(*final(c)) == without_key(cache_entries(*old(c)), k@),
        r == lookup(cache_entries(*old(c)), k@),
{
    c.pop(k)
}

/// `LruCache::iter`, each entry copied out: the entries, most recently used first.
#[verifier::external_body]
pub(crate) fn cache_snapshot(c: &LruCache<String, CachedAsset>) -> (v: Vec<(String, CachedAsset)>)
    ensures
        v@.len() == cache_entries(*c).len(),
        forall|i: int| #![auto] 0 <= i < v@.len() ==> v@[i].0@ == cache_entries(*c)[i].0
            && v@[i].1 == cache_entries(*c)[i].1,
{
    c.iter().map(|(k, v)| (k.clone(), *v)).collect()
}

} // verus!
