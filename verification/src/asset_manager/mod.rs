//! Asset loading with per-path state tracking and a cache of loaded assets
//! that keeps the most recently used entries.

pub mod cache;
pub mod laws;
pub mod manifest;

pub use manifest::{AssetEntry, AssetManifest, ValidationError};

use crate::str_map::StrMap;
use crate::text::to_owned_string;
use cache::{
    after_put, cache_capacity, cache_entries, cache_new, cache_peek, cache_pop, cache_put,
    cache_snapshot, cache_store, entry_keys, lookup, with_value, without_key,
};
use lru::LruCache;
use vstd::prelude::*;

verus! {

/// Load state of one asset.
#[derive(Debug, Clone)]
pub enum AssetLoadState {
    /// Loading has been started.
    Loading {
        /// Path of the asset.
        path: String,
        /// Tracking id.
        handle_id: u64,
    },
    /// Loading finished.
    Ready {
        /// Path of the asset.
        path: String,
        /// Tracking id.
        handle_id: u64,
    },
    /// Loading failed.
    Failed {
        /// Path of the asset.
        path: String,
        /// Error message.
        error: String,
    },
}

/// An [`AssetLoadState`] with its strings seen as character sequences.
pub ghost enum LoadStateView {
    Loading { path: Seq<char>, handle_id: u64 },
    Ready { path: Seq<char>, handle_id: u64 },
    Failed { path: Seq<char>, error: Seq<char> },
}

impl LoadStateView {
    /// The path the state belongs to.
    pub open spec fn path(self) -> Seq<char> {
        match self {
            LoadStateView::Loading { path, .. } => path,
            LoadStateView::Ready { path, .. } => path,
            LoadStateView::Failed { path, .. } => path,
        }
    }
}

impl View for AssetLoadState {
    type V = LoadStateView;

    open spec fn view(&self) -> LoadStateView {
        match self {
            AssetLoadState::Loading { path, handle_id } => LoadStateView::Loading {
                path: path@,
                handle_id: *handle_id,
            },
            AssetLoadState::Ready { path, handle_id } => LoadStateView::Ready {
                path: path@,
                handle_id: *handle_id,
            },
            AssetLoadState::Failed { path, error } => LoadStateView::Failed {
                path: path@,
                error: error@,
            },
        }
    }
}

/// An entry of the asset cache.
#[derive(Debug, Clone, Copy)]
pub struct CachedAsset {
    /// Tracking id.
    pub handle_id: u64,
    /// When the asset was cached, in milliseconds of the wall clock since the Unix epoch.
    pub loaded_at: u64,
    /// When the entry was last used (cached, or served by a cache hit), in the same clock.
    pub last_used: u64,
    /// Number of accesses: the caching itself and every cache hit since.
    pub access_count: u64,
}

/// What the asset server reports for an asset that is being loaded.
#[derive(Debug, Clone, Copy, PartialEq, Eq)]
pub enum AssetLoadOutcome {
    /// The asset has been loaded.
    Loaded,
    /// The asset failed to load.
    Failed,
    /// Not finished yet (or unknown to the server).
    Pending,
}

/// The number of entries the asset cache holds at most.
pub const CACHE_CAPACITY: usize = 64;

/// The message recorded for an asset that failed to load.
pub open spec fn load_failed_message() -> Seq<char> {
    "Asset load failed"@
}

/// Whether a load has finished, well or not.
pub open spec fn is_done(s: LoadStateView) -> bool {
    s is Ready || s is Failed
}

/// The paths whose state is `Loading`.
pub open spec fn loading_paths(states: Map<Seq<char>, LoadStateView>) -> Set<Seq<char>> {
    states.dom().filter(|k: Seq<char>| states[k] is Loading)
}

/// The paths whose load has finished (`Ready` or `Failed`).
pub open spec fn done_paths(states: Map<Seq<char>, LoadStateView>) -> Set<Seq<char>> {
    states.dom().filter(|k: Seq<char>| is_done(states[k]))
}

/// The abstract state of an [`AssetManager`].
pub ghost struct AssetManagerView {
    /// Load state of each tracked path.
    pub states: Map<Seq<char>, LoadStateView>,
    /// Cache entries, most recently used first.
    pub cache: Seq<(Seq<char>, CachedAsset)>,
    /// Capacity of the cache.
    pub cache_capacity: nat,
    /// Loads answered from the cache.
    pub hits: nat,
    /// Loads that started a new load.
    pub misses: nat,
    /// The tracking id the next new load receives.
    pub next_id: u64,
}

/// Successor of a tracking id, wrapping around after `u64::MAX`.
pub open spec fn next_handle(id: u64) -> u64 {
    if id == u64::MAX {
        0
    } else {
        (id + 1) as u64
    }
}

/// A cache entry after it served a hit at time `now`: used now, one more access (the
/// count stops at `u64::MAX`).
pub open spec fn touched(c: CachedAsset, now: u64) -> CachedAsset {
    CachedAsset {
        last_used: now,
        access_count: if c.access_count == u64::MAX { u64::MAX } else { (c.access_count + 1) as u64 },
        ..c
    }
}

impl AssetManagerView {
    /// Well-formedness of the abstract state.
    pub open spec fn wf(self) -> bool {
        &&& self.states.dom().finite()
        &&& forall|k: Seq<char>| #[trigger] self.states.dom().contains(k) ==> self.states[k].path() == k
        &&& entry_keys(self.cache).no_duplicates()
        &&& self.cache.len() <= self.cache_capacity
        &&& self.cache_capacity == CACHE_CAPACITY
        &&& forall|e: (Seq<char>, CachedAsset)| #[trigger] self.cache.contains(e) ==> {
            &&& self.states.dom().contains(e.0)
            &&& self.states[e.0] == LoadStateView::Ready { path: e.0, handle_id: e.1.handle_id }
        }
        &&& self.hits <= u64::MAX
        &&& self.misses <= u64::MAX
    }

    /// The number of loads pending: the paths in the `Loading` state.
    pub open spec fn pending(self) -> nat {
        loading_paths(self.states).len()
    }

    /// The number of loads finished: the paths in the `Ready` or `Failed` state.
    pub open spec fn completed(self) -> nat {
        done_paths(self.states).len()
    }

    /// A new load of `path`: it is marked `Loading` under the next id, and counts as a miss.
    pub open spec fn start_load(self, path: Seq<char>) -> (AssetManagerView, u64) {
        (
            AssetManagerView {
                states: self.states.insert(path, LoadStateView::Loading { path, handle_id: self.next_id }),
                misses: self.misses + 1,
                next_id: next_handle(self.next_id),
                ..self
            },
            self.next_id,
        )
    }

    /// `load(path)` at time `now`: the state after the call and the id returned. A cached
    /// path is a hit: its entry is marked used at `now`, its place in the recency order
    /// kept; any other path starts a new load.
    pub open spec fn load(self, path: Seq<char>, now: u64) -> (AssetManagerView, u64) {
        match lookup(self.cache, path) {
            Some(c) => (
                AssetManagerView {
                    hits: self.hits + 1,
                    cache: with_value(self.cache, path, touched(c, now)),
                    ..self
                },
                c.handle_id,
            ),
            None => self.start_load(path),
        }
    }

    /// The state after the server reported `outcome` for `path` at time `now`: a loading
    /// asset becomes ready (and is cached) or failed; anything else is left as it is.
    pub open spec fn resolve(self, path: Seq<char>, outcome: AssetLoadOutcome, now: u64) -> AssetManagerView {
        if self.states.dom().contains(path) {
            match self.states[path] {
                LoadStateView::Loading { handle_id, .. } => match outcome {
                    AssetLoadOutcome::Loaded => AssetManagerView {
                        states: self.states.insert(path, LoadStateView::Ready { path, handle_id }),
                        cache: after_put(
                            self.cache,
                            self.cache_capacity,
                            path,
                            CachedAsset { handle_id, loaded_at: now, last_used: now, access_count: 1 },
                        ),
                        ..self
                    },
                    AssetLoadOutcome::Failed => AssetManagerView {
                        states: self.states.insert(
                            path,
                            LoadStateView::Failed { path, error: load_failed_message() },
                        ),
                        ..self
                    },
                    AssetLoadOutcome::Pending => self,
                },
                _ => self,
            }
        } else {
            self
        }
    }

    /// `invalidate(path)`: the path leaves the cache and is no longer tracked.
    pub open spec fn invalidate(self, path: Seq<char>) -> AssetManagerView {
        AssetManagerView {
            states: self.states.remove(path),
            cache: without_key(self.cache, path),
            ..self
        }
    }
}

/// Time from `last_used` to `now` (zero if `now` is earlier).
pub open spec fn age(now: u64, last_used: u64) -> int {
    if now >= last_used {
        now - last_used
    } else {
        0
    }
}

/// The cache entries kept by `clear_unused_older_than` at time `now` with limit `max_age`:
/// those used within `max_age` of `now`, in their order.
pub open spec fn kept_entries(e: Seq<(Seq<char>, CachedAsset)>, now: u64, max_age: int) -> Seq<(Seq<char>, CachedAsset)> {
    e.filter(|p: (Seq<char>, CachedAsset)| age(now, p.1.last_used) <= max_age)
}

/// Tracks asset loads by path and caches the assets that finished loading.
pub struct AssetManager {
    states: StrMap<AssetLoadState>,
    pending_count: usize,
    completed_count: usize,
    cache: LruCache<String, CachedAsset>,
    cache_hits: u64,
    cache_misses: u64,
    next_handle_id: u64,
}

impl View for AssetManager {
    type V = AssetManagerView;

    closed spec fn view(&self) -> AssetManagerView {
        AssetManagerView {
            states: self.states.map().map_values(|s: AssetLoadState| s@),
            cache: cache_entries(self.cache),
            cache_capacity: cache_capacity(self.cache),
            hits: self.cache_hits as nat,
            misses: self.cache_misses as nat,
            next_id: self.next_handle_id,
        }
    }
}


proof fn lemma_key_index(e: Seq<(Seq<char>, CachedAsset)>, j: int)
    requires
        entry_keys(e).no_duplicates(),
        0 <= j < e.len(),
    ensures
        entry_keys(e).contains(e[j].0),
        entry_keys(e).index_of(e[j].0) == j,
{
    let ks = entry_keys(e);
    assert(ks[j] == e[j].0);
    let i = ks.index_of(e[j].0);
    assert(ks[i] == e[j].0);
}

proof fn lemma_contains_key(e: Seq<(Seq<char>, CachedAsset)>)
    ensures
        forall|x: (Seq<char>, CachedAsset)| #[trigger] e.contains(x) ==> entry_keys(e).contains(x.0),
{
    assert forall|x: (Seq<char>, CachedAsset)| #[trigger] e.contains(x) implies entry_keys(e).contains(x.0) by {
        let a = choose|a: int| 0 <= a < e.len() && e[a] == x;
        assert(entry_keys(e)[a] == x.0);
    }
}

proof fn lemma_without_key(e: Seq<(Seq<char>, CachedAsset)>, k: Seq<char>)
    requires
        entry_keys(e).no_duplicates(),
    ensures
        entry_keys(without_key(e, k)).no_duplicates(),
        !entry_keys(without_key(e, k)).contains(k),
        without_key(e, k).len() == if entry_keys(e).contains(k) { e.len() - 1 } else { e.len() as int },
        forall|k2: Seq<char>| k2 != k ==> lookup(without_key(e, k), k2) == lookup(e, k2),
        forall|x: (Seq<char>, CachedAsset)| #[trigger] without_key(e, k).contains(x) ==> e.contains(x) && x.0 != k,
{
    let ks = entry_keys(e);
    if ks.contains(k) {
        let i = ks.index_of(k);
        let w = e.remove(i);
        let wk = entry_keys(w);
        assert(wk =~= ks.remove(i));
        assert forall|a: int, b: int| 0 <= a < b < wk.len() implies wk[a] != wk[b] by {
            let aa = if a < i { a } else { a + 1 };
            let bb = if b < i { b } else { b + 1 };
            assert(wk[a] == ks[aa]);
            assert(wk[b] == ks[bb]);
        }
        assert forall|a: int| 0 <= a < wk.len() implies wk[a] != k by {
            let aa = if a < i { a } else { a + 1 };
            assert(wk[a] == ks[aa]);
        }
        assert forall|x: (Seq<char>, CachedAsset)| #[trigger] w.contains(x) implies e.contains(x) && x.0 != k by {
            let a = choose|a: int| 0 <= a < w.len() && w[a] == x;
            let aa = if a < i { a } else { a + 1 };
            assert(w[a] == e[aa]);
            assert(wk[a] == x.0);
        }
        assert forall|k2: Seq<char>| k2 != k implies lookup(w, k2) == lookup(e, k2) by {
            if ks.contains(k2) {
                let j = ks.index_of(k2);
                assert(j != i);
                let jj = if j < i { j } else { j - 1 };
                assert(w[jj] == e[j]);
                lemma_key_index(w, jj);
                assert(wk.contains(k2));
            } else {
                if wk.contains(k2) {
                    let j = wk.index_of(k2);
                    let jj = if j < i { j } else { j + 1 };
                    assert(w[j] == e[jj]);
                }
            }
        }
    } else {
        lemma_contains_key(e);
    }
}

proof fn lemma_after_put(e: Seq<(Seq<char>, CachedAsset)>, cap: nat, k: Seq<char>, v: CachedAsset)
    requires
        entry_keys(e).no_duplicates(),
        e.len() <= cap,
        cap > 0,
    ensures
        entry_keys(after_put(e, cap, k, v)).no_duplicates(),
        after_put(e, cap, k, v).len() <= cap,
        after_put(e, cap, k, v)[0] == (k, v),
        lookup(after_put(e, cap, k, v), k) == Some(v),
        forall|x: (Seq<char>, CachedAsset)| #[trigger] after_put(e, cap, k, v).contains(x) ==> x == (k, v)
            || (e.contains(x) && x.0 != k),
{
    let r = after_put(e, cap, k, v);
    let ks = entry_keys(e);
    let base = if ks.contains(k) {
        without_key(e, k)
    } else if e.len() >= cap {
        e.drop_last()
    } else {
        e
    };
    assert(r =~= seq![(k, v)] + base);
    lemma_without_key(e, k);
    let bk = entry_keys(base);
    if ks.contains(k) {
    } else if e.len() >= cap {
        assert(bk =~= ks.drop_last());
        assert forall|a: int| 0 <= a < bk.len() implies bk[a] != k by {
            assert(bk[a] == ks[a]);
        }
    } else {
        assert(bk =~= ks);
    }
    let rk = entry_keys(r);
    assert forall|x: (Seq<char>, CachedAsset)| #[trigger] r.contains(x) implies x == (k, v) || (e.contains(x)
        && x.0 != k) by {
        let a = choose|a: int| 0 <= a < r.len() && r[a] == x;
        if a > 0 {
            assert(r[a] == base[a - 1]);
            assert(bk[a - 1] == x.0);
            if !ks.contains(k) && e.len() >= cap {
                assert(base[a - 1] == e[a - 1]);
            } else if !ks.contains(k) {
                assert(base[a - 1] == e[a - 1]);
            } else {
                assert(base.contains(x));
            }
        }
    }
    assert(rk =~= seq![k] + bk);
    assert forall|a: int, b: int| 0 <= a < b < rk.len() implies rk[a] != rk[b] by {
        if a == 0 {
            assert(rk[b] == bk[b - 1]);
        } else {
            assert(rk[a] == bk[a - 1]);
            assert(rk[b] == bk[b - 1]);
        }
    }
    lemma_key_index(r, 0);
}


proof fn lemma_with_value(e: Seq<(Seq<char>, CachedAsset)>, k: Seq<char>, v: CachedAsset)
    requires
        entry_keys(e).no_duplicates(),
    ensures
        entry_keys(with_value(e, k, v)) == entry_keys(e),
        with_value(e, k, v).len() == e.len(),
        entry_keys(e).contains(k) ==> lookup(with_value(e, k, v), k) == Some(v),
        forall|k2: Seq<char>| k2 != k ==> lookup(with_value(e, k, v), k2) == lookup(e, k2),
        forall|x: (Seq<char>, CachedAsset)| #[trigger] with_value(e, k, v).contains(x) ==> x == (k, v)
            || e.contains(x),
{
    let ks = entry_keys(e);
    let w = with_value(e, k, v);
    if ks.contains(k) {
        let i = ks.index_of(k);
        assert(ks[i] == k);
        assert(entry_keys(w) =~= ks);
        lemma_key_index(w, i);
        assert forall|x: (Seq<char>, CachedAsset)| #[trigger] w.contains(x) implies x == (k, v) || e.contains(x) by {
            let a = choose|a: int| 0 <= a < w.len() && w[a] == x;
            if a != i {
                assert(w[a] == e[a]);
            }
        }
        assert forall|k2: Seq<char>| k2 != k implies lookup(w, k2) == lookup(e, k2) by {
            if ks.contains(k2) {
                let j = ks.index_of(k2);
                assert(ks[j] == k2);
                assert(j != i);
                assert(w[j] == e[j]);
            }
        }
    }
}

proof fn lemma_counts_insert(states: Map<Seq<char>, LoadStateView>, k: Seq<char>, s: LoadStateView)
    requires
        states.dom().finite(),
    ensures
        states.insert(k, s).dom().finite(),
        loading_paths(states.insert(k, s)).len() + (if states.dom().contains(k) && states[k] is Loading {
            1int
        } else {
            0
        }) == loading_paths(states).len() + (if s is Loading { 1int } else { 0 }),
        done_paths(states.insert(k, s)).len() + (if states.dom().contains(k) && is_done(states[k]) {
            1int
        } else {
            0
        }) == done_paths(states).len() + (if is_done(s) { 1int } else { 0 }),
{
    let m2 = states.insert(k, s);
    assert(m2.dom() =~= states.dom().insert(k));
    states.dom().lemma_len_filter(|x: Seq<char>| states[x] is Loading);
    states.dom().lemma_len_filter(|x: Seq<char>| is_done(states[x]));
    let l1 = loading_paths(states);
    let d1 = done_paths(states);
    if s is Loading {
        assert(loading_paths(m2) =~= l1.insert(k));
        assert(done_paths(m2) =~= d1.remove(k));
    } else if is_done(s) {
        assert(loading_paths(m2) =~= l1.remove(k));
        assert(done_paths(m2) =~= d1.insert(k));
    } else {
        assert(loading_paths(m2) =~= l1.remove(k));
        assert(done_paths(m2) =~= d1.remove(k));
    }
}

proof fn lemma_counts_remove(states: Map<Seq<char>, LoadStateView>, k: Seq<char>)
    requires
        states.dom().finite(),
    ensures
        states.remove(k).dom().finite(),
        loading_paths(states.remove(k)).len() + (if states.dom().contains(k) && states[k] is Loading {
            1int
        } else {
            0
        }) == loading_paths(states).len(),
        done_paths(states.remove(k)).len() + (if states.dom().contains(k) && is_done(states[k]) {
            1int
        } else {
            0
        }) == done_paths(states).len(),
{
    let m2 = states.remove(k);
    states.dom().lemma_len_filter(|x: Seq<char>| states[x] is Loading);
    states.dom().lemma_len_filter(|x: Seq<char>| is_done(states[x]));
    assert(loading_paths(m2) =~= loading_paths(states).remove(k));
    assert(done_paths(m2) =~= done_paths(states).remove(k));
}

proof fn lemma_counts_bounded(states: Map<Seq<char>, LoadStateView>)
    requires
        states.dom().finite(),
    ensures
        done_paths(states).len() <= states.dom().len(),
        loading_paths(states).len() + done_paths(states).len() <= states.dom().len(),
{
    let l = loading_paths(states);
    let d = done_paths(states);
    states.dom().lemma_len_filter(|x: Seq<char>| states[x] is Loading);
    states.dom().lemma_len_filter(|x: Seq<char>| is_done(states[x]));
    assert(l.disjoint(d));
    vstd::set_lib::lemma_set_disjoint_lens(l, d);
    vstd::set_lib::lemma_len_subset(l + d, states.dom());
}


impl AssetManager {
    /// Well-formedness: the internal map is consistent, the abstract state is well formed,
    /// and the two counters count the loading and the finished paths.
    pub closed spec fn wf(&self) -> bool {
        &&& self.states.wf()
        &&& self@.wf()
        &&& self.pending_count == self@.pending()
        &&& self.completed_count == self@.completed()
    }

    /// A well-formed manager has a well-formed abstract state, to which the laws of
    /// [`laws`] apply.
    pub proof fn lemma_view_wf(&self)
        requires
            self.wf(),
        ensures
            self@.wf(),
    {
    }

    /// A manager tracking nothing, with an empty cache of [`CACHE_CAPACITY`] entries.
    pub fn new() -> (m: Self)
        ensures
            m.wf(),
            m@.states == Map::<Seq<char>, LoadStateView>::empty(),
            m@.cache == Seq::<(Seq<char>, CachedAsset)>::empty(),
            m@.cache_capacity == CACHE_CAPACITY,
            m@.hits == 0,
            m@.misses == 0,
            m@.next_id == 0,
    {
        let m = AssetManager {
            states: StrMap::new(),
            pending_count: 0,
            completed_count: 0,
            cache: cache_new(CACHE_CAPACITY),
            cache_hits: 0,
            cache_misses: 0,
            next_handle_id: 0,
        };
        proof {
            assert(m@.states =~= Map::<Seq<char>, LoadStateView>::empty());
            assert(loading_paths(m@.states) =~= Set::<Seq<char>>::empty());
            assert(done_paths(m@.states) =~= Set::<Seq<char>>::empty());
            assert(entry_keys(m@.cache) =~= Seq::<Seq<char>>::empty());
        }
        m
    }

    /// Starts loading `path` at time `now` and returns its tracking id. A path in the cache
    /// is answered from it (a hit, which marks the entry used at `now`); otherwise the path
    /// is marked `Loading` under a fresh id (a miss).
    pub fn load_at(&mut self, path: &str, now: u64) -> (id: u64)
        requires
            old(self).wf(),
            lookup(old(self)@.cache, path@) is Some ==> old(self)@.hits < u64::MAX,
            lookup(old(self)@.cache, path@) is None ==> old(self)@.misses < u64::MAX,
        ensures
            final(self).wf(),
            (final(self)@, id) == old(self)@.load(path@, now),
    {
        let ghost v0 = self@;
        let hit = match cache_peek(&self.cache, path) {
            Some(cached) => Some(*cached),
            None => None,
        };
        match hit {
            Some(c) => {
                let t = CachedAsset {
                    handle_id: c.handle_id,
                    loaded_at: c.loaded_at,
                    last_used: now,
                    access_count: c.access_count.saturating_add(1),
                };
                proof {
                    assert(t == touched(c, now));
                    assert(entry_keys(v0.cache).contains(path@));
                }
                let _ = cache_store(&mut self.cache, path, t);
                self.cache_hits = self.cache_hits + 1;
                proof {
                    lemma_with_value(v0.cache, path@, t);
                    let i = entry_keys(v0.cache).index_of(path@);
                    assert(v0.cache.contains(v0.cache[i]));
                    assert(v0.cache[i].1 == c);
                    assert forall|e: (Seq<char>, CachedAsset)| #[trigger] self@.cache.contains(e) implies {
                        &&& self@.states.dom().contains(e.0)
                        &&& self@.states[e.0] == LoadStateView::Ready { path: e.0, handle_id: e.1.handle_id }
                    } by {
                        if e != (path@, t) {
                            assert(v0.cache.contains(e));
                        }
                    }
                    assert(self@ == v0.load(path@, now).0);
                }
                return c.handle_id;
            },
            None => {},
        }
        let id = self.next_handle_id;
        self.next_handle_id = self.next_handle_id.wrapping_add(1);
        let st = AssetLoadState::Loading { path: to_owned_string(path), handle_id: id };
        let previous = self.states.insert(to_owned_string(path), st);
        // The number of tracked paths fits in a `usize`, and so do the two counters below it.
        let _tracked_paths = self.states.len();
        proof {
            let s = LoadStateView::Loading { path: path@, handle_id: id };
            lemma_counts_insert(v0.states, path@, s);
            assert(self@.states =~= v0.states.insert(path@, s));
            assert(self@.states.dom() =~= self.states.map().dom());
            lemma_counts_bounded(self@.states);
        }
        match previous {
            None => {
                self.pending_count = self.pending_count + 1;
            },
            Some(AssetLoadState::Loading { .. }) => {},
            Some(_) => {
                self.pending_count = self.pending_count + 1;
                self.completed_count = self.completed_count - 1;
            },
        }
        self.cache_misses = self.cache_misses + 1;
        proof {
            lemma_contains_key(v0.cache);
            let s = LoadStateView::Loading { path: path@, handle_id: id };
            assert(self@.states =~= v0.states.insert(path@, s));
            assert(self@ == v0.load(path@, now).0);
        }
        id
    }

    /// Starts loading `path` at the current time, as [`AssetManager::load_at`] does.
    pub fn load(&mut self, path: &str) -> (id: u64)
        requires
            old(self).wf(),
            lookup(old(self)@.cache, path@) is Some ==> old(self)@.hits < u64::MAX,
            lookup(old(self)@.cache, path@) is None ==> old(self)@.misses < u64::MAX,
        ensures
            final(self).wf(),
            exists|now: u64| #[trigger] old(self)@.load(path@, now) == (final(self)@, id),
    {
        let now = now_millis();
        self.load_at(path, now)
    }
}

impl Default for AssetManager {
    fn default() -> (m: Self)
        ensures
            m.wf(),
            m@.states == Map::<Seq<char>, LoadStateView>::empty(),
            m@.cache == Seq::<(Seq<char>, CachedAsset)>::empty(),
            m@.cache_capacity == CACHE_CAPACITY,
            m@.hits == 0,
            m@.misses == 0,
            m@.next_id == 0,
    {
        AssetManager::new()
    }
}

/// `std::time::SystemTime::now`, as milliseconds since the Unix epoch (zero before it).
/// The wall clock decides the value, so nothing is stated of it.
#[verifier::external_body]
fn now_millis() -> (r: u64) {
    let since = std::time::SystemTime::now().duration_since(std::time::UNIX_EPOCH);
    since.unwrap_or_default().as_millis() as u64
}

/// `std::time::Duration::as_millis`: the whole milliseconds in `d`. Verus sees a `Duration`
/// as an opaque value, so no contract relates the result to `d`.
#[verifier::external_body]
fn whole_millis(d: std::time::Duration) -> (r: u128) {
    d.as_millis()
}

impl AssetManager {
    /// Load progress: (finished loads, tracked paths), the paths that are `Ready` or
    /// `Failed` among all tracked paths.
    pub fn progress(&self) -> (r: (usize, usize))
        requires
            self.wf(),
        ensures
            r.0 == self@.completed(),
            r.1 == self@.states.dom().len(),
            r.0 <= r.1,
    {
        let n = self.states.len();
        proof {
            assert(self@.states.dom() =~= self.states.map().dom());
            lemma_counts_bounded(self@.states);
        }
        (self.completed_count, n)
    }

    /// Whether `path` finished loading.
    pub fn is_ready(&self, path: &str) -> (r: bool)
        requires
            self.wf(),
        ensures
            r == (self@.states.dom().contains(path@) && self@.states[path@] is Ready),
    {
        match self.states.get(path) {
            Some(AssetLoadState::Ready { .. }) => true,
            _ => false,
        }
    }

    /// The load state of `path`, if it is tracked.
    pub fn get_state(&self, path: &str) -> (r: Option<&AssetLoadState>)
        requires
            self.wf(),
        ensures
            match r {
                Some(s) => self@.states.dom().contains(path@) && s@ == self@.states[path@],
                None => !self@.states.dom().contains(path@),
            },
    {
        self.states.get(path)
    }

    /// Number of loads pending: the tracked paths in the `Loading` state.
    pub fn pending_count(&self) -> (r: usize)
        requires
            self.wf(),
        ensures
            r == self@.pending(),
    {
        self.pending_count
    }

    /// The cache entry of `path`, if any; the recency order is not changed.
    pub fn get_cached(&self, path: &str) -> (r: Option<&CachedAsset>)
        ensures
            match r {
                Some(c) => lookup(self@.cache, path@) == Some(*c),
                None => lookup(self@.cache, path@) is None,
            },
    {
        cache_peek(&self.cache, path)
    }

    /// Cache statistics: (hits, misses).
    pub fn cache_stats(&self) -> (r: (u64, u64))
        ensures
            r.0 == self@.hits,
            r.1 == self@.misses,
    {
        (self.cache_hits, self.cache_misses)
    }

    /// Drops `path` from the cache and stops tracking it; it no longer counts as pending or
    /// finished.
    pub fn invalidate(&mut self, path: &str)
        requires
            old(self).wf(),
        ensures
            final(self).wf(),
            final(self)@ == old(self)@.invalidate(path@),
    {
        let ghost v0 = self@;
        let _ = cache_pop(&mut self.cache, path);
        let removed = self.states.remove(path);
        proof {
            lemma_without_key(v0.cache, path@);
            lemma_counts_remove(v0.states, path@);
            assert(self@.states =~= v0.states.remove(path@));
        }
        match removed {
            Some(AssetLoadState::Loading { .. }) => {
                self.pending_count = self.pending_count - 1;
            },
            Some(_) => {
                self.completed_count = self.completed_count - 1;
            },
            None => {},
        }
        proof {
            assert(self@ == v0.invalidate(path@));
        }
    }

    /// Invalidates `path`, then loads it again: a new load under a fresh id.
    pub fn reload(&mut self, path: &str) -> (id: u64)
        requires
            old(self).wf(),
            old(self)@.misses < u64::MAX,
        ensures
            final(self).wf(),
            (final(self)@, id) == old(self)@.invalidate(path@).start_load(path@),
    {
        let ghost v0 = self@;
        self.invalidate(path);
        proof {
            lemma_without_key(v0.cache, path@);
            lemma_counts_remove(v0.states, path@);
        }
        self.load(path)
    }

    /// Applies what the asset server reported for `path` at time `now_ms`: a loading asset
    /// becomes `Ready` and enters the cache, or becomes `Failed`, and so counts as finished
    /// instead of pending. Anything else leaves the manager as it is.
    pub fn resolve_load(&mut self, path: &str, outcome: AssetLoadOutcome, now_ms: u64)
        requires
            old(self).wf(),
        ensures
            final(self).wf(),
            final(self)@ == old(self)@.resolve(path@, outcome, now_ms),
            final(self)@.pending() + final(self)@.completed() == old(self)@.pending() + old(self)@.completed(),
    {
        let ghost v0 = self@;
        let handle_id = match self.states.get(path) {
            Some(AssetLoadState::Loading { handle_id, .. }) => *handle_id,
            _ => {
                return;
            },
        };
        match outcome {
            AssetLoadOutcome::Loaded => {
                let st = AssetLoadState::Ready { path: to_owned_string(path), handle_id };
                self.states.insert(to_owned_string(path), st);
                // The number of tracked paths fits in a `usize`, and so do the two counters below it.
                let _tracked_paths = self.states.len();
                let ghost s = LoadStateView::Ready { path: path@, handle_id };
                proof {
                    lemma_counts_insert(v0.states, path@, s);
                    assert(self@.states =~= v0.states.insert(path@, s));
                    assert(self@.states.dom() =~= self.states.map().dom());
                    lemma_counts_bounded(self@.states);
                }
                self.pending_count = self.pending_count - 1;
                self.completed_count = self.completed_count + 1;
                let entry = CachedAsset { handle_id, loaded_at: now_ms, last_used: now_ms, access_count: 1 };
                let _ = cache_put(&mut self.cache, to_owned_string(path), entry);
                proof {
                    assert(self@.states =~= v0.states.insert(path@, s));
                    lemma_after_put(v0.cache, v0.cache_capacity, path@, entry);
                    assert(self@ == v0.resolve(path@, outcome, now_ms));
                }
            },
            AssetLoadOutcome::Failed => {
                let st = AssetLoadState::Failed {
                    path: to_owned_string(path),
                    error: to_owned_string("Asset load failed"),
                };
                self.states.insert(to_owned_string(path), st);
                // The number of tracked paths fits in a `usize`, and so do the two counters below it.
                let _tracked_paths = self.states.len();
                let ghost s = LoadStateView::Failed { path: path@, error: load_failed_message() };
                proof {
                    lemma_counts_insert(v0.states, path@, s);
                    assert(self@.states =~= v0.states.insert(path@, s));
                    assert(self@.states.dom() =~= self.states.map().dom());
                    lemma_counts_bounded(self@.states);
                }
                self.pending_count = self.pending_count - 1;
                self.completed_count = self.completed_count + 1;
                proof {
                    assert(self@.states =~= v0.states.insert(path@, s));
                    assert(self@ == v0.resolve(path@, outcome, now_ms));
                }
            },
            AssetLoadOutcome::Pending => {},
        }
    }
}

#[verifier::external_type_specification]
#[verifier::external_body]
pub struct ExAssetServer(bevy::asset::AssetServer);

/// `AssetPath::try_parse`, then `AssetServer::get_handle_untyped` and
/// `AssetServer::get_load_state`: what the server currently reports for `path`, with a
/// path the asset-path format refuses reported as failed. Loading runs in the background,
/// so nothing is stated of the answer.
#[verifier::external_body]
fn server_load_outcome(server: &bevy::asset::AssetServer, path: &str) -> (r: AssetLoadOutcome) {
    match bevy::asset::AssetPath::try_parse(path) {
        Err(_) => AssetLoadOutcome::Failed,
        Ok(asset_path) => match server.get_handle_untyped(asset_path).and_then(|h| server.get_load_state(&h)) {
            Some(bevy::asset::LoadState::Loaded) => AssetLoadOutcome::Loaded,
            Some(bevy::asset::LoadState::Failed(_)) => AssetLoadOutcome::Failed,
            _ => AssetLoadOutcome::Pending,
        },
    }
}

/// How a poll may change the state of one path: not at all, or from `Loading` to `Ready`
/// with the same id, or to `Failed`.
pub open spec fn poll_step(before: LoadStateView, after: LoadStateView) -> bool {
    ||| after == before
    ||| match before {
        LoadStateView::Loading { path, handle_id } => {
            ||| after == LoadStateView::Ready { path, handle_id }
            ||| after == LoadStateView::Failed { path, error: load_failed_message() }
        },
        _ => false,
    }
}

/// The state after resolving the paths `ks` in order, path `ks[i]` with the server's
/// answer `outcomes[i]` at time `times[i]`.
pub open spec fn resolve_all(
    v: AssetManagerView,
    ks: Seq<Seq<char>>,
    outcomes: Seq<AssetLoadOutcome>,
    times: Seq<u64>,
) -> AssetManagerView
    decreases ks.len(),
{
    if ks.len() == 0 {
        v
    } else {
        resolve_all(v, ks.drop_last(), outcomes.drop_last(), times.drop_last()).resolve(
            ks.last(),
            outcomes.last(),
            times.last(),
        )
    }
}

/// Whether `k` is in the `Loading` state in `states`.
pub open spec fn loading_pred(states: Map<Seq<char>, LoadStateView>) -> spec_fn(Seq<char>) -> bool {
    |k: Seq<char>| states[k] is Loading
}

proof fn lemma_filter_loading(ks: Seq<Seq<char>>, states: Map<Seq<char>, LoadStateView>)
    requires
        ks.to_set() == states.dom(),
    ensures
        ks.filter(loading_pred(states)).to_set() == loading_paths(states),
{
    broadcast use vstd::seq_lib::group_filter_ensures;

    let p = loading_pred(states);
    let f = ks.filter(p);
    assert forall|x: Seq<char>| #[trigger] f.to_set().contains(x) implies loading_paths(states).contains(x) by {
        assert(f.contains(x));
        ks.lemma_filter_contains_rev(p, x);
        assert(ks.to_set().contains(x));
        let j = choose|j: int| 0 <= j < f.len() && f[j] == x;
        assert(p(f[j]));
    }
    assert forall|x: Seq<char>| #[trigger] loading_paths(states).contains(x) implies f.to_set().contains(x) by {
        assert(ks.to_set().contains(x));
        assert(ks.contains(x));
        let j = choose|j: int| 0 <= j < ks.len() && ks[j] == x;
        assert(p(ks[j]));
        assert(f.contains(ks[j]));
    }
    assert(f.to_set() =~= loading_paths(states));
}

impl AssetManager {
    /// The tracked paths in the order the manager keeps them.
    pub closed spec fn tracked_order(&self) -> Seq<Seq<char>> {
        self.states.key_seq()
    }

    /// The loading paths, in the order the manager keeps them: those a poll asks the asset
    /// server about.
    pub open spec fn loading_order(&self) -> Seq<Seq<char>> {
        self.tracked_order().filter(loading_pred(self@.states))
    }

    /// The paths a poll asks the asset server about: each path in the `Loading` state,
    /// once, in the order the manager keeps them.
    pub fn poll_targets(&self) -> (r: Vec<String>)
        requires
            self.wf(),
        ensures
            r@.map_values(|s: String| s@) == self.loading_order(),
            self.loading_order().no_duplicates(),
            self.loading_order().to_set() == loading_paths(self@.states),
    {
        let keys = self.states.keys();
        let ghost ks = keys@.map_values(|s: String| s@);
        let ghost p = loading_pred(self@.states);
        proof {
            assert(self@.states.dom() =~= self.states.map().dom());
            lemma_filter_loading(ks, self@.states);
        }
        let mut targets: Vec<String> = Vec::new();
        let n = keys.len();
        let mut i: usize = 0;
        while i < n
            invariant
                self.wf(),
                n == keys@.len(),
                i <= n,
                ks == keys@.map_values(|s: String| s@),
                ks == self.tracked_order(),
                ks.no_duplicates(),
                ks.to_set() == self@.states.dom(),
                p == loading_pred(self@.states),
                self@.states.dom() == self.states.map().dom(),
                targets@.map_values(|s: String| s@) == ks.take(i as int).filter(p),
                targets@.map_values(|s: String| s@).no_duplicates(),
            decreases n - i,
        {
            let k = keys[i].as_str();
            let ghost prev = targets@.map_values(|s: String| s@);
            proof {
                assert(k@ == ks[i as int]);
                assert(ks.take(i + 1) =~= ks.take(i as int).push(k@));
                ks.take(i as int).lemma_filter_push(k@, p);
                assert(ks.contains(k@));
            }
            let loading = match self.states.get(k) {
                Some(AssetLoadState::Loading { .. }) => true,
                _ => false,
            };
            proof {
                assert(ks.to_set().contains(k@));
                assert(loading == (self@.states[k@] is Loading));
                assert(p(k@) == loading);
            }
            if loading {
                targets.push(keys[i].clone());
                proof {
                    assert(targets@.map_values(|s: String| s@) =~= prev.push(k@));
                    if prev.contains(k@) {
                        ks.take(i as int).lemma_filter_contains_rev(p, k@);
                        let j = choose|j: int| 0 <= j < i && ks.take(i as int)[j] == k@;
                        assert(ks[j] == ks[i as int]);
                    }
                }
            }
            i = i + 1;
        }
        proof {
            assert(ks.take(n as int) =~= ks);
        }
        targets
    }

    /// Asks the asset server about each path that is loading, once, in the order the
    /// manager keeps them (the paths of [`AssetManager::poll_targets`]), and applies each
    /// answer as [`AssetManager::resolve_load`] does, at the current time. Paths in any
    /// other state are not asked about and do not change.
    pub fn poll(&mut self, asset_server: &bevy::asset::AssetServer)
        requires
            old(self).wf(),
        ensures
            final(self).wf(),
            old(self).loading_order().no_duplicates(),
            old(self).loading_order().to_set() == loading_paths(old(self)@.states),
            exists|outcomes: Seq<AssetLoadOutcome>, times: Seq<u64>|
                #![trigger resolve_all(old(self)@, old(self).loading_order(), outcomes, times)]
                outcomes.len() == old(self).loading_order().len() && times.len()
                    == old(self).loading_order().len() && final(self)@ == resolve_all(
                    old(self)@,
                    old(self).loading_order(),
                    outcomes,
                    times,
                ),
            final(self)@.states.dom() == old(self)@.states.dom(),
            forall|k: Seq<char>| #[trigger] old(self)@.states.dom().contains(k) ==> poll_step(
                old(self)@.states[k],
                final(self)@.states[k],
            ),
            final(self)@.pending() + final(self)@.completed() == old(self)@.pending() + old(self)@.completed(),
            final(self)@.hits == old(self)@.hits,
            final(self)@.misses == old(self)@.misses,
            final(self)@.next_id == old(self)@.next_id,
            final(self)@.cache_capacity == old(self)@.cache_capacity,
    {
        let ghost v0 = self@;
        let targets = self.poll_targets();
        let ghost tks = targets@.map_values(|s: String| s@);
        let ghost mut outs: Seq<AssetLoadOutcome> = Seq::empty();
        let ghost mut ts: Seq<u64> = Seq::empty();
        proof {
            assert forall|j: int| 0 <= j < tks.len() implies v0.states.dom().contains(#[trigger] tks[j])
                && v0.states[tks[j]] is Loading by {
                assert(tks.contains(tks[j]));
                assert(tks.to_set().contains(tks[j]));
            }
        }
        let n = targets.len();
        let mut i: usize = 0;
        while i < n
            invariant
                self.wf(),
                n == targets@.len(),
                i <= n,
                tks == targets@.map_values(|s: String| s@),
                tks.no_duplicates(),
                forall|j: int| 0 <= j < n ==> v0.states.dom().contains(#[trigger] tks[j])
                    && v0.states[tks[j]] is Loading,
                v0.wf(),
                self@.states.dom() == v0.states.dom(),
                forall|k: Seq<char>| #[trigger] v0.states.dom().contains(k) ==> poll_step(
                    v0.states[k],
                    self@.states[k],
                ),
                forall|j: int| i <= j < n ==> self@.states[#[trigger] tks[j]] == v0.states[tks[j]],
                self@.pending() + self@.completed() == v0.pending() + v0.completed(),
                self@.hits == v0.hits,
                self@.misses == v0.misses,
                self@.next_id == v0.next_id,
                self@.cache_capacity == v0.cache_capacity,
                outs.len() == i,
                ts.len() == i,
                self@ == resolve_all(v0, tks.take(i as int), outs, ts),
            decreases n - i,
        {
            let path = targets[i].as_str();
            proof {
                assert(tks.take(i + 1).drop_last() =~= tks.take(i as int));
                assert(tks.take(i + 1).last() == tks[i as int]);
                assert(path@ == tks[i as int]);
            }
            let outcome = server_load_outcome(asset_server, path);
            let now = now_millis();
            let ghost before = self@;
            self.resolve_load(path, outcome, now);
            proof {
                assert(outs.push(outcome).drop_last() =~= outs);
                assert(ts.push(now).drop_last() =~= ts);
                outs = outs.push(outcome);
                ts = ts.push(now);
                assert(v0.states.dom().contains(tks[i as int]));
                assert(self@.states =~= before.states.insert(path@, self@.states[path@]));
                assert forall|j: int| i + 1 <= j < n implies self@.states[#[trigger] tks[j]]
                    == v0.states[tks[j]] by {
                    assert(tks[j] != tks[i as int]);
                }
                assert forall|k: Seq<char>| #[trigger] v0.states.dom().contains(k) implies poll_step(
                    v0.states[k],
                    self@.states[k],
                ) by {
                    if k != path@ {
                        assert(self@.states[k] == before.states[k]);
                    } else {
                        assert(v0.states[k].path() == k);
                    }
                }
            }
            i = i + 1;
        }
        proof {
            assert(tks.take(n as int) =~= tks);
        }
    }

    /// Drops from the cache every entry not used within `max_age` (measured with the wall
    /// clock); nothing else changes.
    pub fn clear_unused_older_than(&mut self, max_age: std::time::Duration)
        requires
            old(self).wf(),
        ensures
            final(self).wf(),
            exists|now: u64, limit: int| #[trigger] kept_entries(old(self)@.cache, now, limit)
                == final(self)@.cache,
            final(self)@ == (AssetManagerView { cache: final(self)@.cache, ..old(self)@ }),
    {
        let limit = whole_millis(max_age);
        let now = now_millis();
        self.clear_unused_older_than_at(now, limit);
    }

    /// Drops from the cache every entry whose last use lies more than `max_age_ms` before
    /// `now_ms`, keeping the others in their order; nothing else changes.
    pub fn clear_unused_older_than_at(&mut self, now_ms: u64, max_age_ms: u128)
        requires
            old(self).wf(),
        ensures
            final(self).wf(),
            final(self)@ == (AssetManagerView {
                cache: kept_entries(old(self)@.cache, now_ms, max_age_ms as int),
                ..old(self)@
            }),
    {
        let ghost v0 = self@;
        let ghost e0 = v0.cache;
        let entries = cache_snapshot(&self.cache);
        let n = entries.len();
        let mut i: usize = 0;
        while i < n
            invariant
                self.wf(),
                n == entries@.len(),
                n == e0.len(),
                i <= n,
                entry_keys(e0).no_duplicates(),
                forall|j: int| #![auto] 0 <= j < n ==> entries@[j].0@ == e0[j].0 && entries@[j].1
                    == e0[j].1,
                self@.cache == kept_entries(e0.take(i as int), now_ms, max_age_ms as int) + e0.skip(
                    i as int,
                ),
                self@ == (AssetManagerView { cache: self@.cache, ..v0 }),
            decreases n - i,
        {
            let last_used = entries[i].1.last_used;
            let age_ms: u64 = if now_ms >= last_used {
                now_ms - last_used
            } else {
                0
            };
            let ghost keep = |p: (Seq<char>, CachedAsset)| age(now_ms, p.1.last_used) <= max_age_ms as int;
            let ghost kept = kept_entries(e0.take(i as int), now_ms, max_age_ms as int);
            proof {
                assert(e0.take(i + 1).drop_last() =~= e0.take(i as int));
                assert(e0.take(i + 1).last() == e0[i as int]);
                reveal_with_fuel(Seq::filter, 1);
            }
            if (age_ms as u128) > max_age_ms {
                let ghost before = self@.cache;
                let _ = cache_pop(&mut self.cache, entries[i].0.as_str());
                proof {
                    lemma_without_key(before, e0[i as int].0);
                    assert(kept_entries(e0.take(i + 1), now_ms, max_age_ms as int) == kept);
                    let idx = kept.len() as int;
                    kept.lemma_filter_len(keep);
                    assert(before[idx] == e0[i as int]);
                    assert(entry_keys(before) =~= entry_keys(kept) + entry_keys(e0.skip(i as int)));
                    lemma_key_index(before, idx);
                    assert(self@.cache =~= before.remove(idx));
                    assert(self@.cache =~= kept + e0.skip(i + 1));
                }
            } else {
                proof {
                    assert(kept_entries(e0.take(i + 1), now_ms, max_age_ms as int) == kept.push(
                        e0[i as int],
                    ));
                    assert(kept + e0.skip(i as int) =~= kept.push(e0[i as int]) + e0.skip(i + 1));
                }
            }
            i = i + 1;
        }
        proof {
            assert(e0.take(n as int) =~= e0);
            assert(e0.skip(n as int) =~= Seq::<(Seq<char>, CachedAsset)>::empty());
            assert(self@.cache =~= kept_entries(e0, now_ms, max_age_ms as int));
        }
    }
}

} // verus!
