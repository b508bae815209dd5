use vstd::prelude::*;
use vstd::string::StringExecFns;

use dashmap::DashMap;

use crate::eviction::{is_oldest_choice, oldest_indices};
use crate::omdb::OMDBResponse;
use crate::store::{
    rating_entries, rating_map_get, rating_map_insert, rating_map_items, rating_map_len,
    rating_map_new, rating_map_remove, tv_entries, tv_map_get, tv_map_insert, tv_map_items,
    tv_map_len, tv_map_new, tv_map_remove,
};
use crate::timestamp::{deserialize, serialize};
use crate::tmdb::TVShowDetails;

verus! {

/// Entries per map before a capacity check evicts.
pub const MAX_CACHE_SIZE: usize = 1000;

/// Seconds for which an entry is served: a day.
pub const CACHE_TTL: u64 = 86400;

/// Seconds between two saves of the cache to disk.
pub const SAVE_INTERVAL: u64 = 300;

/// A cached value and the time it was stored (seconds on the caller's
/// monotonic clock).
#[derive(Clone, Copy, Debug)]
pub struct CachedItem<T> {
    pub data: T,
    pub timestamp: u64,
}

/// The datasets that the cache keeps.
#[derive(Clone, Copy, Debug, PartialEq, Eq, Structural)]
pub enum CacheType {
    TVDetails,
    OMDBRatings,
}

/// Seconds since `ts` at `now`; an entry stamped after `now` counts as new.
pub open spec fn age(ts: u64, now: u64) -> nat {
    if now >= ts {
        (now - ts) as nat
    } else {
        0
    }
}

/// An entry is served while its age is under the time-to-live.
pub open spec fn is_fresh<T>(item: CachedItem<T>, ttl: nat, now: u64) -> bool {
    age(item.timestamp, now) < ttl
}

/// What a lookup of `k` at `now` returns: the entry, if present and fresh.
pub open spec fn lookup<K, T>(m: Map<K, CachedItem<T>>, k: K, ttl: nat, now: u64) -> Option<
    CachedItem<T>,
> {
    if m.contains_key(k) && is_fresh(m[k], ttl, now) {
        Some(m[k])
    } else {
        None
    }
}

/// The entries after a lookup of `k` at `now`: an expired entry under `k` is
/// dropped, and nothing else changes.
pub open spec fn after_lookup<K, T>(m: Map<K, CachedItem<T>>, k: K, ttl: nat, now: u64) -> Map<
    K,
    CachedItem<T>,
> {
    if m.contains_key(k) && !is_fresh(m[k], ttl, now) {
        m.remove(k)
    } else {
        m
    }
}

/// The size that an over-full map is brought down to: three quarters of the
/// capacity (at least one entry), so that the next insertions do not evict
/// again at once.
pub open spec fn eviction_target(capacity: nat) -> nat {
    if capacity * 3 / 4 >= 1 {
        capacity * 3 / 4
    } else {
        1
    }
}

/// `after` is `before` after a capacity check: a map within capacity is left
/// alone; an over-full one keeps `eviction_target` of its entries, unchanged,
/// among them `keep`, and loses only entries no newer than any it keeps
/// (other than `keep`).
pub open spec fn evicted_oldest<K, T>(
    before: Map<K, CachedItem<T>>,
    after: Map<K, CachedItem<T>>,
    capacity: nat,
    keep: Option<K>,
) -> bool {
    if before.len() <= capacity {
        after == before
    } else {
        &&& after.len() == eviction_target(capacity)
        &&& forall|k: K| #[trigger]
            after.contains_key(k) ==> before.contains_key(k) && after[k] == before[k]
        &&& forall|k: K| keep == Some(k) && #[trigger] before.contains_key(k) ==> after.contains_key(k)
        &&& forall|r: K, k: K|
            #[trigger] before.contains_key(r) && !after.contains_key(r) && #[trigger] after.contains_key(k)
                && keep != Some(k) ==> before[r].timestamp <= before[k].timestamp
    }
}

/// The key that a capacity check must keep, by its characters.
pub open spec fn key_view(keep: Option<&String>) -> Option<Seq<char>> {
    match keep {
        Some(k) => Some(k@),
        None => None,
    }
}

/// `s` lists the entries of `m` that are fresh at `now`, each once, as
/// (key, value, age in seconds at `now`), in any order.
pub open spec fn is_snapshot<K: View, T>(
    s: Seq<(K, T, u64)>,
    m: Map<K::V, CachedItem<T>>,
    ttl: nat,
    now: u64,
) -> bool {
    &&& forall|i: int, j: int| 0 <= i < j < s.len() ==> s[i].0@ != s[j].0@
    &&& forall|i: int|
        0 <= i < s.len() ==> {
            let k = (#[trigger] s[i]).0@;
            &&& m.contains_key(k)
            &&& is_fresh(m[k], ttl, now)
            &&& s[i].1 == m[k].data
            &&& s[i].2 == age(m[k].timestamp, now)
        }
    &&& forall|k: K::V|
        #[trigger] m.contains_key(k) && is_fresh(m[k], ttl, now) ==> exists|i: int|
            0 <= i < s.len() && (#[trigger] s[i]).0@ == k
}

/// The entries rebuilt at `now` from a list of (key, value, age): an entry
/// still under the time-to-live is stamped `now - age` (so that it keeps
/// aging from where it was); older ones, and ones older than the clock
/// itself, are dropped; a later duplicate key wins.
pub open spec fn restored<K: View, T>(s: Seq<(K, T, u64)>, ttl: nat, now: u64) -> Map<
    K::V,
    CachedItem<T>,
>
    decreases s.len(),
{
    if s.len() == 0 {
        Map::empty()
    } else {
        let m = restored(s.drop_last(), ttl, now);
        let e = s.last();
        if e.2 < ttl && e.2 <= now {
            m.insert(e.0@, CachedItem { data: e.1, timestamp: (now - e.2) as u64 })
        } else {
            m
        }
    }
}

/// Whether a save is due at `now`: something changed since the last save
/// began, none is under way, and the last began `SAVE_INTERVAL` seconds ago
/// or more (or never).
pub open spec fn save_due(dirty: bool, saving: bool, last: Option<u64>, now: u64) -> bool {
    &&& dirty
    &&& !saving
    &&& match last {
        None => true,
        Some(t) => now >= t && now - t >= SAVE_INTERVAL,
    }
}

proof fn lemma_restored_finite<K: View, T>(s: Seq<(K, T, u64)>, ttl: nat, now: u64)
    ensures
        restored(s, ttl, now).dom().finite(),
    decreases s.len(),
{
    if s.len() > 0 {
        lemma_restored_finite(s.drop_last(), ttl, now);
    }
}

/// The persisted form of the cache: per dataset, the fresh entries as
/// (key, value, age in seconds).
pub struct CacheFile {
    pub tv_details: Vec<(i32, TVShowDetails, u64)>,
    pub omdb_ratings: Vec<(String, OMDBResponse, u64)>,
}

/// The key under which the ratings of a title of a given year are cached:
/// `<title>_<year>`.
pub fn rating_key(title: &str, year: &str) -> (r: String)
    ensures
        r@ == title@ + "_"@ + year@,
{
    String::from_str(title).concat("_").concat(year)
}

/// The two datasets of the dashboard, each a map with per-entry expiry and a
/// soft capacity bound, and the bookkeeping of saves to disk.
pub struct CacheManager {
    tv_details: DashMap<i32, CachedItem<TVShowDetails>>,
    omdb_ratings: DashMap<String, CachedItem<OMDBResponse>>,
    capacity: usize,
    ttl: u64,
    dirty: bool,
    saving: bool,
    last_save: Option<u64>,
}

impl CacheManager {
    /// TV details by show id.
    pub closed spec fn tv_view(&self) -> Map<i32, CachedItem<TVShowDetails>> {
        tv_entries(self.tv_details)
    }

    /// Ratings by key.
    pub closed spec fn ratings_view(&self) -> Map<Seq<char>, CachedItem<OMDBResponse>> {
        rating_entries(self.omdb_ratings)
    }

    pub closed spec fn capacity(&self) -> nat {
        self.capacity as nat
    }

    /// Time-to-live of an entry, in seconds.
    pub closed spec fn ttl(&self) -> nat {
        self.ttl as nat
    }

    /// Whether an entry was stored since the last save began.
    pub closed spec fn is_dirty(&self) -> bool {
        self.dirty
    }

    /// Whether a save is under way.
    pub closed spec fn is_saving(&self) -> bool {
        self.saving
    }

    /// When the last save began.
    pub closed spec fn last_save(&self) -> Option<u64> {
        self.last_save
    }

    pub closed spec fn wf(&self) -> bool {
        &&& self.capacity >= 1
        &&& self.tv_view().dom().finite()
        &&& self.ratings_view().dom().finite()
    }

    /// An empty cache of `capacity` entries per dataset, whose entries live
    /// `ttl` seconds.
    pub fn with_limits(capacity: usize, ttl: u64) -> (r: Self)
        requires
            capacity >= 1,
        ensures
            r.wf(),
            r.tv_view() == Map::<i32, CachedItem<TVShowDetails>>::empty(),
            r.ratings_view() == Map::<Seq<char>, CachedItem<OMDBResponse>>::empty(),
            r.capacity() == capacity,
            r.ttl() == ttl,
            !r.is_dirty(),
            !r.is_saving(),
            r.last_save() is None,
    {
        let r = CacheManager {
            tv_details: tv_map_new(capacity),
            omdb_ratings: rating_map_new(capacity),
            capacity,
            ttl,
            dirty: false,
            saving: false,
            last_save: None,
        };
        assert(r.tv_view() =~= Map::empty());
        assert(r.ratings_view() =~= Map::empty());
        r
    }

    /// An empty cache of `MAX_CACHE_SIZE` entries per dataset, whose entries
    /// live `CACHE_TTL` seconds.
    pub fn new() -> (r: Self)
        ensures
            r.wf(),
            r.tv_view() == Map::<i32, CachedItem<TVShowDetails>>::empty(),
            r.ratings_view() == Map::<Seq<char>, CachedItem<OMDBResponse>>::empty(),
            r.capacity() == MAX_CACHE_SIZE,
            r.ttl() == CACHE_TTL,
            !r.is_dirty(),
            !r.is_saving(),
            r.last_save() is None,
    {
        Self::with_limits(MAX_CACHE_SIZE, CACHE_TTL)
    }

    /// The TV details of show `id`, if cached and fresh at `now`; an expired
    /// entry is dropped on the way.
    pub fn get_tv_details(&mut self, id: i32, now: u64) -> (r: Option<CachedItem<TVShowDetails>>)
        requires
            old(self).wf(),
        ensures
            final(self).wf(),
            r == lookup(old(self).tv_view(), id, old(self).ttl(), now),
            final(self).tv_view() == after_lookup(old(self).tv_view(), id, old(self).ttl(), now),
            final(self).ratings_view() == old(self).ratings_view(),
            final(self).capacity() == old(self).capacity(),
            final(self).ttl() == old(self).ttl(),
            final(self).is_dirty() == old(self).is_dirty(),
            final(self).is_saving() == old(self).is_saving(),
            final(self).last_save() == old(self).last_save(),
    {
        match tv_map_get(&self.tv_details, id) {
            Some(item) => {
                if serialize(item.timestamp, now) < self.ttl {
                    Some(item)
                } else {
                    tv_map_remove(&mut self.tv_details, id);
                    None
                }
            },
            None => None,
        }
    }

    /// The capacity check of the TV details: an over-full map loses its
    /// oldest entries, but never `keep`.
    fn cleanup_tv(&mut self, keep: Option<i32>)
        requires
            old(self).wf(),
        ensures
            final(self).wf(),
            evicted_oldest(old(self).tv_view(), final(self).tv_view(), old(self).capacity(), keep),
            final(self).ratings_view() == old(self).ratings_view(),
            final(self).capacity() == old(self).capacity(),
            final(self).ttl() == old(self).ttl(),
            final(self).is_dirty() == old(self).is_dirty(),
            final(self).is_saving() == old(self).is_saving(),
            final(self).last_save() == old(self).last_save(),
    {
        let n = tv_map_len(&self.tv_details);
        if n <= self.capacity {
            return;
        }
        let ghost before = self.tv_view();
        let items = tv_map_items(&self.tv_details);
        let mut ts: Vec<u64> = Vec::new();
        let mut exclude: Option<usize> = None;
        let mut i: usize = 0;
        while i < items.len()
            invariant
                i <= items.len() == n,
                ts.len() == i,
                forall|x: int| 0 <= x < i ==> ts[x] == #[trigger] items[x].1.timestamp,
                exclude matches Some(e) ==> e < i && keep == Some(items[e as int].0),
                forall|x: int| 0 <= x < i && keep == Some(#[trigger] items[x].0) ==> exclude == Some(x as usize),
                forall|x: int, y: int| 0 <= x < y < items.len() ==> items[x].0 != items[y].0,
            decreases items.len() - i,
        {
            ts.push(items[i].1.timestamp);
            if keep == Some(items[i].0) {
                exclude = Some(i);
            }
            i = i + 1;
        }
        let target: usize = if self.capacity / 4 * 3 + (self.capacity % 4) * 3 / 4 >= 1 {
            self.capacity / 4 * 3 + (self.capacity % 4) * 3 / 4
        } else {
            1
        };
        assert(target == eviction_target(self.capacity as nat));
        let sel = oldest_indices(&ts, exclude, n - target);
        let mut a: usize = 0;
        while a < sel.len()
            invariant
                self.wf(),
                a <= sel.len(),
                n == items.len() == before.len() == ts.len(),
                is_oldest_choice(ts@, exclude, (n - target) as nat, sel@),
                forall|x: int| 0 <= x < n ==> ts[x] == #[trigger] items[x].1.timestamp,
                forall|x: int, y: int| 0 <= x < y < items.len() ==> items[x].0 != items[y].0,
                forall|x: int|
                    0 <= x < items.len() ==> before.contains_key(#[trigger] items[x].0) && before[items[x].0]
                        == items[x].1,
                self.tv_view().len() == before.len() - a,
                forall|k: i32| #[trigger]
                    self.tv_view().contains_key(k) ==> before.contains_key(k) && self.tv_view()[k]
                        == before[k],
                forall|k: i32|
                    #[trigger] before.contains_key(k) ==> (self.tv_view().contains_key(k) <==> !(exists|
                        b: int,
                    | 0 <= b < a && items[sel[b] as int].0 == k)),
                self.capacity == old(self).capacity,
                self.ttl == old(self).ttl,
                self.dirty == old(self).dirty,
                self.saving == old(self).saving,
                self.last_save == old(self).last_save,
                self.ratings_view() == old(self).ratings_view(),
            decreases sel.len() - a,
        {
            let x = sel[a];
            let key = items[x].0;
            assert(self.tv_view().contains_key(key)) by {
                if exists|b: int| 0 <= b < a && items[sel[b] as int].0 == key {
                    let b = choose|b: int| 0 <= b < a && items[sel[b] as int].0 == key;
                    assert(sel[b] == sel[a as int]);
                }
            }
            tv_map_remove(&mut self.tv_details, key);
            assert forall|k: i32| #[trigger] before.contains_key(k) implies (
            self.tv_view().contains_key(k) <==> !(exists|b: int|
                0 <= b < a + 1 && items[sel[b] as int].0 == k)) by {
                if k == key {
                    assert(items[sel[a as int] as int].0 == k);
                }
            }
            a = a + 1;
        }
        proof {
            let after = self.tv_view();
            assert forall|k: i32| keep == Some(k) && #[trigger] before.contains_key(k) implies after.contains_key(k) by {
                let j = choose|j: int| 0 <= j < items.len() && #[trigger] items[j].0 == k;
                if exists|b: int| 0 <= b < sel.len() && items[sel[b] as int].0 == k {
                    let b = choose|b: int| 0 <= b < sel.len() && items[sel[b] as int].0 == k;
                    assert(sel[b] as int == j);
                }
            }
            assert forall|r: i32, k: i32|
                #[trigger] before.contains_key(r) && !after.contains_key(r) && #[trigger] after.contains_key(k)
                    && keep != Some(k) implies before[r].timestamp <= before[k].timestamp by {
                let b = choose|b: int| 0 <= b < sel.len() && items[sel[b] as int].0 == r;
                let j = choose|j: int| 0 <= j < items.len() && #[trigger] items[j].0 == k;
                assert(!sel@.contains(j as usize)) by {
                    if sel@.contains(j as usize) {
                        let c = choose|c: int| 0 <= c < sel.len() && sel[c] == j as usize;
                        assert(items[sel[c] as int].0 == k);
                    }
                }
                assert(ts[sel[b] as int] <= ts[j]);
            }
        }
    }

    /// Stores the TV details of show `id`, stamped `now`, then runs the
    /// capacity check, which never evicts the entry just stored.
    pub fn insert_tv_details(&mut self, id: i32, details: TVShowDetails, now: u64)
        requires
            old(self).wf(),
        ensures
            final(self).wf(),
            evicted_oldest(
                old(self).tv_view().insert(id, CachedItem { data: details, timestamp: now }),
                final(self).tv_view(),
                old(self).capacity(),
                Some(id),
            ),
            final(self).ratings_view() == old(self).ratings_view(),
            final(self).capacity() == old(self).capacity(),
            final(self).ttl() == old(self).ttl(),
            final(self).is_dirty(),
            final(self).is_saving() == old(self).is_saving(),
            final(self).last_save() == old(self).last_save(),
    {
        tv_map_insert(&mut self.tv_details, id, CachedItem { data: details, timestamp: now });
        self.dirty = true;
        self.cleanup_tv(Some(id));
    }

    /// The ratings stored under `key`, if cached and fresh at `now`; an
    /// expired entry is dropped on the way.
    pub fn get_omdb_rating(&mut self, key: &str, now: u64) -> (r: Option<CachedItem<OMDBResponse>>)
        requires
            old(self).wf(),
        ensures
            final(self).wf(),
            r == lookup(old(self).ratings_view(), key@, old(self).ttl(), now),
            final(self).ratings_view() == after_lookup(old(self).ratings_view(), key@, old(self).ttl(), now),
            final(self).tv_view() == old(self).tv_view(),
            final(self).capacity() == old(self).capacity(),
            final(self).ttl() == old(self).ttl(),
            final(self).is_dirty() == old(self).is_dirty(),
            final(self).is_saving() == old(self).is_saving(),
            final(self).last_save() == old(self).last_save(),
    {
        match rating_map_get(&self.omdb_ratings, key) {
            Some(item) => {
                if serialize(item.timestamp, now) < self.ttl {
                    Some(item)
                } else {
                    rating_map_remove(&mut self.omdb_ratings, key);
                    None
                }
            },
            None => None,
        }
    }

    /// The capacity check of the ratings: an over-full map loses its oldest
    /// entries, but never `keep`.
    fn cleanup_ratings(&mut self, keep: Option<&String>)
        requires
            old(self).wf(),
        ensures
            final(self).wf(),
            evicted_oldest(
                old(self).ratings_view(),
                final(self).ratings_view(),
                old(self).capacity(),
                key_view(keep),
            ),
            final(self).tv_view() == old(self).tv_view(),
            final(self).capacity() == old(self).capacity(),
            final(self).ttl() == old(self).ttl(),
            final(self).is_dirty() == old(self).is_dirty(),
            final(self).is_saving() == old(self).is_saving(),
            final(self).last_save() == old(self).last_save(),
    {
        let n = rating_map_len(&self.omdb_ratings);
        if n <= self.capacity {
            return;
        }
        let ghost before = self.ratings_view();
        let items = rating_map_items(&self.omdb_ratings);
        let mut ts: Vec<u64> = Vec::new();
        let mut exclude: Option<usize> = None;
        let mut i: usize = 0;
        while i < items.len()
            invariant
                i <= items.len() == n,
                ts.len() == i,
                forall|x: int| 0 <= x < i ==> ts[x] == #[trigger] items[x].1.timestamp,
                exclude matches Some(e) ==> e < i && key_view(keep) == Some(items[e as int].0@),
                forall|x: int| 0 <= x < i && key_view(keep) == Some(#[trigger] items[x].0@) ==> exclude == Some(x as usize),
                forall|x: int, y: int| 0 <= x < y < items.len() ==> items[x].0@ != items[y].0@,
            decreases items.len() - i,
        {
            ts.push(items[i].1.timestamp);
            match keep {
                Some(k) => if items[i].0 == *k {
                    exclude = Some(i);
                },
                None => {},
            }
            i = i + 1;
        }
        let target: usize = if self.capacity / 4 * 3 + (self.capacity % 4) * 3 / 4 >= 1 {
            self.capacity / 4 * 3 + (self.capacity % 4) * 3 / 4
        } else {
            1
        };
        assert(target == eviction_target(self.capacity as nat));
        let sel = oldest_indices(&ts, exclude, n - target);
        let mut a: usize = 0;
        while a < sel.len()
            invariant
                self.wf(),
                a <= sel.len(),
                n == items.len() == before.len() == ts.len(),
                is_oldest_choice(ts@, exclude, (n - target) as nat, sel@),
                forall|x: int| 0 <= x < n ==> ts[x] == #[trigger] items[x].1.timestamp,
                forall|x: int, y: int| 0 <= x < y < items.len() ==> items[x].0@ != items[y].0@,
                forall|x: int|
                    0 <= x < items.len() ==> before.contains_key(#[trigger] items[x].0@) && before[items[x].0@]
                        == items[x].1,
                self.ratings_view().len() == before.len() - a,
                forall|k: Seq<char>| #[trigger]
                    self.ratings_view().contains_key(k) ==> before.contains_key(k) && self.ratings_view()[k]
                        == before[k],
                forall|k: Seq<char>|
                    #[trigger] before.contains_key(k) ==> (self.ratings_view().contains_key(k) <==> !(exists|
                        b: int,
                    | 0 <= b < a && items[sel[b] as int].0@ == k)),
                self.capacity == old(self).capacity,
                self.ttl == old(self).ttl,
                self.dirty == old(self).dirty,
                self.saving == old(self).saving,
                self.last_save == old(self).last_save,
                self.tv_view() == old(self).tv_view(),
            decreases sel.len() - a,
        {
            let x = sel[a];
            let key = items[x].0.as_str();
            assert(self.ratings_view().contains_key(key@)) by {
                if exists|b: int| 0 <= b < a && items[sel[b] as int].0@ == key@ {
                    let b = choose|b: int| 0 <= b < a && items[sel[b] as int].0@ == key@;
                    assert(sel[b] == sel[a as int]);
                }
            }
            rating_map_remove(&mut self.omdb_ratings, key);
            assert forall|k: Seq<char>| #[trigger] before.contains_key(k) implies (
            self.ratings_view().contains_key(k) <==> !(exists|b: int|
                0 <= b < a + 1 && items[sel[b] as int].0@ == k)) by {
                if k == key@ {
                    assert(items[sel[a as int] as int].0@ == k);
                }
            }
            a = a + 1;
        }
        proof {
            let after = self.ratings_view();
            assert forall|k: Seq<char>| key_view(keep) == Some(k) && #[trigger] before.contains_key(k) implies after.contains_key(k) by {
                let j = choose|j: int| 0 <= j < items.len() && #[trigger] items[j].0@ == k;
                if exists|b: int| 0 <= b < sel.len() && items[sel[b] as int].0@ == k {
                    let b = choose|b: int| 0 <= b < sel.len() && items[sel[b] as int].0@ == k;
                    assert(sel[b] as int == j);
                }
            }
            assert forall|r: Seq<char>, k: Seq<char>|
                #[trigger] before.contains_key(r) && !after.contains_key(r) && #[trigger] after.contains_key(k)
                    && key_view(keep) != Some(k) implies before[r].timestamp <= before[k].timestamp by {
                let b = choose|b: int| 0 <= b < sel.len() && items[sel[b] as int].0@ == r;
                let j = choose|j: int| 0 <= j < items.len() && #[trigger] items[j].0@ == k;
                assert(!sel@.contains(j as usize)) by {
                    if sel@.contains(j as usize) {
                        let c = choose|c: int| 0 <= c < sel.len() && sel[c] == j as usize;
                        assert(items[sel[c] as int].0@ == k);
                    }
                }
                assert(ts[sel[b] as int] <= ts[j]);
            }
        }
    }

    /// Stores ratings under `key`, stamped `now`, then runs the capacity
    /// check, which never evicts the entry just stored.
    pub fn insert_omdb_rating(&mut self, key: String, rating: OMDBResponse, now: u64)
        requires
            old(self).wf(),
        ensures
            final(self).wf(),
            evicted_oldest(
                old(self).ratings_view().insert(key@, CachedItem { data: rating, timestamp: now }),
                final(self).ratings_view(),
                old(self).capacity(),
                Some(key@),
            ),
            final(self).tv_view() == old(self).tv_view(),
            final(self).capacity() == old(self).capacity(),
            final(self).ttl() == old(self).ttl(),
            final(self).is_dirty(),
            final(self).is_saving() == old(self).is_saving(),
            final(self).last_save() == old(self).last_save(),
    {
        let kept = key.clone();
        rating_map_insert(&mut self.omdb_ratings, key, CachedItem { data: rating, timestamp: now });
        self.dirty = true;
        self.cleanup_ratings(Some(&kept));
    }

    fn snapshot_tv(&self, now: u64) -> (r: Vec<(i32, TVShowDetails, u64)>)
        ensures
            is_snapshot(r@, self.tv_view(), self.ttl(), now),
    {
        let mut items = tv_map_items(&self.tv_details);
        let ghost all = items@;
        let ghost m = self.tv_view();
        let mut out: Vec<(i32, TVShowDetails, u64)> = Vec::new();
        while items.len() > 0
            invariant
                m == self.tv_view(),
                items@ == all.take(items.len() as int),
                items.len() <= all.len(),
                forall|i: int, j: int| 0 <= i < j < all.len() ==> all[i].0 != all[j].0,
                forall|i: int|
                    0 <= i < all.len() ==> m.contains_key(#[trigger] all[i].0) && m[all[i].0] == all[i].1,
                forall|k: i32| m.contains_key(k) ==> exists|i: int| 0 <= i < all.len() && #[trigger] all[i].0 == k,
                forall|p: int|
                    0 <= p < out.len() ==> exists|i: int|
                        items.len() <= i < all.len() && #[trigger] all[i].0 == (#[trigger] out[p]).0,
                forall|i: int| items.len() <= i < all.len() && is_fresh(#[trigger] all[i].1, self.ttl(), now)
                    ==> exists|p: int| 0 <= p < out.len() && (#[trigger] out[p]).0 == all[i].0,
                forall|p: int, q: int| 0 <= p < q < out.len() ==> out[p].0 != out[q].0,
                forall|p: int|
                    0 <= p < out.len() ==> {
                        let k = (#[trigger] out[p]).0;
                        &&& m.contains_key(k)
                        &&& is_fresh(m[k], self.ttl(), now)
                        &&& out[p].1 == m[k].data
                        &&& out[p].2 == age(m[k].timestamp, now)
                    },
            decreases items.len(),
        {
            let ghost n = items.len() - 1;
            let ghost out0 = out@;
            let e = items.pop().unwrap();
            assert(e == all[n]);
            let a = serialize(e.1.timestamp, now);
            if a < self.ttl {
                out.push((e.0, e.1.data, a));
                assert forall|p: int| 0 <= p < out.len() implies exists|i: int|
                    items.len() <= i < all.len() && #[trigger] all[i].0 == (#[trigger] out[p]).0 by {
                    if p < out0.len() {
                        assert(out0[p] == out[p]);
                    } else {
                        assert(all[n].0 == out[p].0);
                    }
                }
                assert forall|p: int, q: int| 0 <= p < q < out.len() implies out[p].0 != out[q].0 by {
                    if q == out.len() - 1 {
                        assert(out0[p] == out[p]);
                        let i = choose|i: int| n < i < all.len() && #[trigger] all[i].0 == out0[p].0;
                    }
                }
            }
            assert forall|i: int| items.len() <= i < all.len() && is_fresh(#[trigger] all[i].1, self.ttl(), now)
                implies exists|p: int| 0 <= p < out.len() && (#[trigger] out[p]).0 == all[i].0 by {
                if i == n {
                    assert(out[out.len() - 1].0 == all[i].0);
                } else {
                    let p = choose|p: int| 0 <= p < out0.len() && (#[trigger] out0[p]).0 == all[i].0;
                    assert(out[p] == out0[p]);
                }
            }
        }
        proof {
            assert forall|k: i32| #[trigger] m.contains_key(k) && is_fresh(m[k], self.ttl(), now) implies exists|p: int|
                0 <= p < out.len() && (#[trigger] out[p]).0@ == k by {
                let i = choose|i: int| 0 <= i < all.len() && #[trigger] all[i].0 == k;
                let p = choose|p: int| 0 <= p < out.len() && (#[trigger] out[p]).0 == all[i].0;
                assert(out[p].0@ == k);
            }
        }
        out
    }

    fn restore_tv(&mut self, entries: Vec<(i32, TVShowDetails, u64)>, now: u64)
        requires
            old(self).tv_view() == Map::<i32, CachedItem<TVShowDetails>>::empty(),
        ensures
            final(self).tv_view() == restored(entries@, old(self).ttl(), now),
            final(self).ratings_view() == old(self).ratings_view(),
            final(self).capacity() == old(self).capacity(),
            final(self).ttl() == old(self).ttl(),
            final(self).is_dirty() == old(self).is_dirty(),
            final(self).is_saving() == old(self).is_saving(),
            final(self).last_save() == old(self).last_save(),
    {
        let ghost all = entries@;
        let mut entries = entries;
        let mut j: usize = 0;
        assert(all.len() == entries.len());
        assert(all.take(0) =~= Seq::<(i32, TVShowDetails, u64)>::empty());
        while entries.len() > 0
            invariant
                j <= all.len() <= usize::MAX,
                entries@ == all.skip(j as int),
                self.tv_view() == restored(all.take(j as int), self.ttl(), now),
                self.capacity == old(self).capacity,
                self.ttl == old(self).ttl,
                self.dirty == old(self).dirty,
                self.saving == old(self).saving,
                self.last_save == old(self).last_save,
                self.ratings_view() == old(self).ratings_view(),
            decreases entries.len(),
        {
            let e = entries.remove(0);
            assert(e == all[j as int]);
            assert(all.take(j + 1).drop_last() =~= all.take(j as int));
            assert(all.take(j + 1).last() == e);
            if e.2 < self.ttl {
                match deserialize(e.2, now) {
                    Some(timestamp) => tv_map_insert(
                        &mut self.tv_details,
                        e.0,
                        CachedItem { data: e.1, timestamp },
                    ),
                    None => {},
                }
            }
            assert(entries@ =~= all.skip(j + 1));
            j = j + 1;
        }
        assert(all.take(j as int) =~= all);
    }
    fn snapshot_ratings(&self, now: u64) -> (r: Vec<(String, OMDBResponse, u64)>)
        ensures
            is_snapshot(r@, self.ratings_view(), self.ttl(), now),
    {
        let mut items = rating_map_items(&self.omdb_ratings);
        let ghost all = items@;
        let ghost m = self.ratings_view();
        let mut out: Vec<(String, OMDBResponse, u64)> = Vec::new();
        let ghost mut src: Seq<int> = Seq::empty();
        while items.len() > 0
            invariant
                m == self.ratings_view(),
                items@ == all.take(items.len() as int),
                items.len() <= all.len(),
                forall|i: int, j: int| 0 <= i < j < all.len() ==> all[i].0@ != all[j].0@,
                forall|i: int|
                    0 <= i < all.len() ==> m.contains_key(#[trigger] all[i].0@) && m[all[i].0@] == all[i].1,
                forall|k: Seq<char>| m.contains_key(k) ==> exists|i: int| 0 <= i < all.len() && #[trigger] all[i].0@ == k,
                src.len() == out.len(),
                forall|p: int|
                    0 <= p < out.len() ==> items.len() <= #[trigger] src[p] < all.len() && all[src[p]].0@
                        == out[p].0@,
                forall|i: int| items.len() <= i < all.len() && is_fresh(#[trigger] all[i].1, self.ttl(), now)
                    ==> exists|p: int| 0 <= p < out.len() && (#[trigger] out[p]).0@ == all[i].0@,
                forall|p: int, q: int| 0 <= p < q < out.len() ==> out[p].0@ != out[q].0@,
                forall|p: int|
                    0 <= p < out.len() ==> {
                        let k = (#[trigger] out[p]).0@;
                        &&& m.contains_key(k)
                        &&& is_fresh(m[k], self.ttl(), now)
                        &&& out[p].1 == m[k].data
                        &&& out[p].2 == age(m[k].timestamp, now)
                    },
            decreases items.len(),
        {
            let ghost n = items.len() - 1;
            let ghost out0 = out@;
            let e = items.pop().unwrap();
            assert(e == all[n]);
            let a = serialize(e.1.timestamp, now);
            if a < self.ttl {
                out.push((e.0, e.1.data, a));
                proof {
                    src = src.push(n);
                }
                assert forall|p: int, q: int| 0 <= p < q < out.len() implies out[p].0@ != out[q].0@ by {
                    if q == out.len() - 1 {
                        assert(out0[p] == out[p]);
                        assert(all[src[p]].0@ == out[p].0@);
                    }
                }
            }
            assert forall|i: int| items.len() <= i < all.len() && is_fresh(#[trigger] all[i].1, self.ttl(), now)
                implies exists|p: int| 0 <= p < out.len() && (#[trigger] out[p]).0@ == all[i].0@ by {
                if i == n {
                    assert(out[out.len() - 1].0@ == all[i].0@);
                } else {
                    let p = choose|p: int| 0 <= p < out0.len() && (#[trigger] out0[p]).0@ == all[i].0@;
                    assert(out[p] == out0[p]);
                }
            }
        }
        proof {
            assert forall|k: Seq<char>| #[trigger] m.contains_key(k) && is_fresh(m[k], self.ttl(), now) implies exists|p: int|
                0 <= p < out.len() && (#[trigger] out[p]).0@ == k by {
                let i = choose|i: int| 0 <= i < all.len() && #[trigger] all[i].0@ == k;
                let p = choose|p: int| 0 <= p < out.len() && (#[trigger] out[p]).0@ == all[i].0@;
                assert(out[p].0@ == k);
            }
        }
        out
    }

    fn restore_ratings(&mut self, entries: Vec<(String, OMDBResponse, u64)>, now: u64)
        requires
            old(self).ratings_view() == Map::<Seq<char>, CachedItem<OMDBResponse>>::empty(),
        ensures
            final(self).ratings_view() == restored(entries@, old(self).ttl(), now),
            final(self).tv_view() == old(self).tv_view(),
            final(self).capacity() == old(self).capacity(),
            final(self).ttl() == old(self).ttl(),
            final(self).is_dirty() == old(self).is_dirty(),
            final(self).is_saving() == old(self).is_saving(),
            final(self).last_save() == old(self).last_save(),
    {
        let ghost all = entries@;
        let mut entries = entries;
        let mut j: usize = 0;
        assert(all.len() == entries.len());
        assert(all.take(0) =~= Seq::<(String, OMDBResponse, u64)>::empty());
        while entries.len() > 0
            invariant
                j <= all.len() <= usize::MAX,
                entries@ == all.skip(j as int),
                self.ratings_view() == restored(all.take(j as int), self.ttl(), now),
                self.capacity == old(self).capacity,
                self.ttl == old(self).ttl,
                self.dirty == old(self).dirty,
                self.saving == old(self).saving,
                self.last_save == old(self).last_save,
                self.tv_view() == old(self).tv_view(),
            decreases entries.len(),
        {
            let e = entries.remove(0);
            assert(e == all[j as int]);
            assert(all.take(j + 1).drop_last() =~= all.take(j as int));
            assert(all.take(j + 1).last() == e);
            if e.2 < self.ttl {
                match deserialize(e.2, now) {
                    Some(timestamp) => rating_map_insert(
                        &mut self.omdb_ratings,
                        e.0,
                        CachedItem { data: e.1, timestamp },
                    ),
                    None => {},
                }
            }
            assert(entries@ =~= all.skip(j + 1));
            j = j + 1;
        }
        assert(all.take(j as int) =~= all);
    }

    /// The entries fresh at `now`, each with its age, for persisting.
    pub fn snapshot(&self, now: u64) -> (r: CacheFile)
        ensures
            is_snapshot(r.tv_details@, self.tv_view(), self.ttl(), now),
            is_snapshot(r.omdb_ratings@, self.ratings_view(), self.ttl(), now),
    {
        CacheFile { tv_details: self.snapshot_tv(now), omdb_ratings: self.snapshot_ratings(now) }
    }

    /// A cache rebuilt at `now` from a persisted form: the entries still
    /// under the time-to-live resume aging from the age they were saved with.
    pub fn restore_with_limits(file: CacheFile, capacity: usize, ttl: u64, now: u64) -> (r: Self)
        requires
            capacity >= 1,
        ensures
            r.wf(),
            r.tv_view() == restored(file.tv_details@, ttl as nat, now),
            r.ratings_view() == restored(file.omdb_ratings@, ttl as nat, now),
            r.capacity() == capacity,
            r.ttl() == ttl,
            !r.is_dirty(),
            !r.is_saving(),
            r.last_save() is None,
    {
        let mut r = Self::with_limits(capacity, ttl);
        r.restore_tv(file.tv_details, now);
        r.restore_ratings(file.omdb_ratings, now);
        proof {
            lemma_restored_finite(file.tv_details@, ttl as nat, now);
            lemma_restored_finite(file.omdb_ratings@, ttl as nat, now);
        }
        r
    }

    /// `restore_with_limits` with `MAX_CACHE_SIZE` and `CACHE_TTL`.
    pub fn restore(file: CacheFile, now: u64) -> (r: Self)
        ensures
            r.wf(),
            r.tv_view() == restored(file.tv_details@, CACHE_TTL as nat, now),
            r.ratings_view() == restored(file.omdb_ratings@, CACHE_TTL as nat, now),
            r.capacity() == MAX_CACHE_SIZE,
            r.ttl() == CACHE_TTL,
            !r.is_dirty(),
            !r.is_saving(),
            r.last_save() is None,
    {
        Self::restore_with_limits(file, MAX_CACHE_SIZE, CACHE_TTL, now)
    }

    /// The capacity check of both datasets, on its own.
    pub fn maybe_cleanup(&mut self)
        requires
            old(self).wf(),
        ensures
            final(self).wf(),
            evicted_oldest(old(self).tv_view(), final(self).tv_view(), old(self).capacity(), None),
            evicted_oldest(
                old(self).ratings_view(),
                final(self).ratings_view(),
                old(self).capacity(),
                None,
            ),
            final(self).capacity() == old(self).capacity(),
            final(self).ttl() == old(self).ttl(),
            final(self).is_dirty() == old(self).is_dirty(),
            final(self).is_saving() == old(self).is_saving(),
            final(self).last_save() == old(self).last_save(),
    {
        self.cleanup_tv(None);
        self.cleanup_ratings(None);
    }

    /// Starts a save at `now` if one is due: at most one save at a time, at
    /// most one per `SAVE_INTERVAL`, and only after a change. Returns what
    /// to write; the caller reports the outcome with `finish_save`.
    pub fn begin_save(&mut self, now: u64) -> (r: Option<CacheFile>)
        requires
            old(self).wf(),
        ensures
            final(self).wf(),
            final(self).tv_view() == old(self).tv_view(),
            final(self).ratings_view() == old(self).ratings_view(),
            final(self).capacity() == old(self).capacity(),
            final(self).ttl() == old(self).ttl(),
            (r is Some) == save_due(old(self).is_dirty(), old(self).is_saving(), old(self).last_save(), now),
            match r {
                Some(f) => {
                    &&& is_snapshot(f.tv_details@, old(self).tv_view(), old(self).ttl(), now)
                    &&& is_snapshot(f.omdb_ratings@, old(self).ratings_view(), old(self).ttl(), now)
                    &&& !final(self).is_dirty()
                    &&& final(self).is_saving()
                    &&& final(self).last_save() == Some(now)
                },
                None => {
                    &&& final(self).is_dirty() == old(self).is_dirty()
                    &&& final(self).is_saving() == old(self).is_saving()
                    &&& final(self).last_save() == old(self).last_save()
                },
            },
    {
        let due = self.dirty && !self.saving && match self.last_save {
            None => true,
            Some(t) => now >= t && now - t >= SAVE_INTERVAL,
        };
        if due {
            self.saving = true;
            self.dirty = false;
            self.last_save = Some(now);
            Some(self.snapshot(now))
        } else {
            None
        }
    }

    /// Ends the save under way; after a failed one the changes count as
    /// unsaved again.
    pub fn finish_save(&mut self, succeeded: bool)
        requires
            old(self).wf(),
        ensures
            final(self).wf(),
            final(self).tv_view() == old(self).tv_view(),
            final(self).ratings_view() == old(self).ratings_view(),
            final(self).capacity() == old(self).capacity(),
            final(self).ttl() == old(self).ttl(),
            !final(self).is_saving(),
            final(self).is_dirty() == (old(self).is_dirty() || !succeeded),
            final(self).last_save() == old(self).last_save(),
    {
        self.saving = false;
        if !succeeded {
            self.dirty = true;
        }
    }

    /// The number of TV details held, expired ones included.
    pub fn tv_len(&self) -> (r: usize)
        ensures
            r == self.tv_view().len(),
    {
        tv_map_len(&self.tv_details)
    }

    /// The number of ratings held, expired ones included.
    pub fn ratings_len(&self) -> (r: usize)
        ensures
            r == self.ratings_view().len(),
    {
        rating_map_len(&self.omdb_ratings)
    }
}

} // verus!
