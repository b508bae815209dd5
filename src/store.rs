//! The concurrent maps that hold the cache's entries, seen through the
//! contents they hold.
use vstd::prelude::*;

use dashmap::DashMap;

use crate::cache::CachedItem;
use crate::omdb::OMDBResponse;
use crate::tmdb::TVShowDetails;

verus! {

#[verifier::external_type_specification]
#[verifier::external_body]
#[verifier::reject_recursive_types(K)]
#[verifier::reject_recursive_types(V)]
#[verifier::reject_recursive_types(S)]
pub struct ExDashMap<K, V, S>(DashMap<K, V, S>);

/// The entries of a map of TV details, by show id.
pub uninterp spec fn tv_entries(m: DashMap<i32, CachedItem<TVShowDetails>>) -> Map<
    i32,
    CachedItem<TVShowDetails>,
>;

/// The entries of a map of ratings, by the characters of their key.
pub uninterp spec fn rating_entries(m: DashMap<String, CachedItem<OMDBResponse>>) -> Map<
    Seq<char>,
    CachedItem<OMDBResponse>,
>;

/// Relies on `DashMap::with_capacity`: a new map holds no entry.
#[verifier::external_body]
pub(crate) fn tv_map_new(capacity: usize) -> (r: DashMap<i32, CachedItem<TVShowDetails>>)
    ensures
        tv_entries(r).dom() == Set::<i32>::empty(),
{
    DashMap::with_capacity(capacity)
}

/// Relies on `DashMap::get`: the entry under `id`, if there is one.
#[verifier::external_body]
pub(crate) fn tv_map_get(m: &DashMap<i32, CachedItem<TVShowDetails>>, id: i32) -> (r: Option<
    CachedItem<TVShowDetails>,
>)
    ensures
        r == (if tv_entries(*m).contains_key(id) {
            Some(tv_entries(*m)[id])
        } else {
            None
        }),
{
    m.get(&id).map(|e| *e.value())
}

/// Relies on `DashMap::insert`: `id` maps to `item` afterwards, and every
/// other key keeps its entry.
#[verifier::external_body]
pub(crate) fn tv_map_insert(
    m: &mut DashMap<i32, CachedItem<TVShowDetails>>,
    id: i32,
    item: CachedItem<TVShowDetails>,
)
    ensures
        tv_entries(*final(m)) == tv_entries(*old(m)).insert(id, item),
{
    m.insert(id, item);
}

/// Relies on `DashMap::remove`: the entry under `id` is gone afterwards, and
/// every other key keeps its entry.
#[verifier::external_body]
pub(crate) fn tv_map_remove(m: &mut DashMap<i32, CachedItem<TVShowDetails>>, id: i32)
    ensures
        tv_entries(*final(m)) == tv_entries(*old(m)).remove(id),
{
    m.remove(&id);
}

/// Relies on `DashMap::len`: the number of entries.
#[verifier::external_body]
pub(crate) fn tv_map_len(m: &DashMap<i32, CachedItem<TVShowDetails>>) -> (r: usize)
    ensures
        r == tv_entries(*m).len(),
{
    m.len()
}

/// Relies on `DashMap::iter`, which visits every entry once: the entries as
/// pairs, in no particular order.
#[verifier::external_body]
pub(crate) fn tv_map_items(m: &DashMap<i32, CachedItem<TVShowDetails>>) -> (r: Vec<
    (i32, CachedItem<TVShowDetails>),
>)
    ensures
        r.len() == tv_entries(*m).len(),
        forall|i: int, j: int| 0 <= i < j < r.len() ==> r[i].0 != r[j].0,
        forall|i: int|
            0 <= i < r.len() ==> tv_entries(*m).contains_key(#[trigger] r[i].0) && tv_entries(
                *m,
            )[r[i].0] == r[i].1,
        forall|k: i32|
            tv_entries(*m).contains_key(k) ==> exists|i: int| 0 <= i < r.len() && #[trigger] r[i].0 == k,
{
    m.iter().map(|e| (*e.key(), *e.value())).collect()
}

/// Relies on `DashMap::with_capacity`: a new map holds no entry.
#[verifier::external_body]
pub(crate) fn rating_map_new(capacity: usize) -> (r: DashMap<String, CachedItem<OMDBResponse>>)
    ensures
        rating_entries(r).dom() == Set::<Seq<char>>::empty(),
{
    DashMap::with_capacity(capacity)
}

/// Relies on `DashMap::get`: the entry under `key`, if there is one (a clone
/// of it, as the map keeps its own).
#[verifier::external_body]
pub(crate) fn rating_map_get(m: &DashMap<String, CachedItem<OMDBResponse>>, key: &str) -> (r:
    Option<CachedItem<OMDBResponse>>)
    ensures
        r == (if rating_entries(*m).contains_key(key@) {
            Some(rating_entries(*m)[key@])
        } else {
            None
        }),
{
    m.get(key).map(|e| e.value().clone())
}

/// Relies on `DashMap::insert`: `key` maps to `item` afterwards, and every
/// other key keeps its entry.
#[verifier::external_body]
pub(crate) fn rating_map_insert(
    m: &mut DashMap<String, CachedItem<OMDBResponse>>,
    key: String,
    item: CachedItem<OMDBResponse>,
)
    ensures
        rating_entries(*final(m)) == rating_entries(*old(m)).insert(key@, item),
{
    m.insert(key, item);
}

/// Relies on `DashMap::remove`: the entry under `key` is gone afterwards, and
/// every other key keeps its entry.
#[verifier::external_body]
pub(crate) fn rating_map_remove(m: &mut DashMap<String, CachedItem<OMDBResponse>>, key: &str)
    ensures
        rating_entries(*final(m)) == rating_entries(*old(m)).remove(key@),
{
    m.remove(key);
}

/// Relies on `DashMap::len`: the number of entries.
#[verifier::external_body]
pub(crate) fn rating_map_len(m: &DashMap<String, CachedItem<OMDBResponse>>) -> (r: usize)
    ensures
        r == rating_entries(*m).len(),
{
    m.len()
}

/// Relies on `DashMap::iter`, which visits every entry once: the entries as
/// pairs (clones of them), in no particular order.
#[verifier::external_body]
pub(crate) fn rating_map_items(m: &DashMap<String, CachedItem<OMDBResponse>>) -> (r: Vec<
    (String, CachedItem<OMDBResponse>),
>)
    ensures
        r.len() == rating_entries(*m).len(),
        forall|i: int, j: int| 0 <= i < j < r.len() ==> r[i].0@ != r[j].0@,
        forall|i: int|
            0 <= i < r.len() ==> rating_entries(*m).contains_key(#[trigger] r[i].0@)
                && rating_entries(*m)[r[i].0@] == r[i].1,
        forall|k: Seq<char>|
            rating_entries(*m).contains_key(k) ==> exists|i: int|
                0 <= i < r.len() && #[trigger] r[i].0@ == k,
{
    m.iter().map(|e| (e.key().clone(), e.value().clone())).collect()
}

} // verus!
