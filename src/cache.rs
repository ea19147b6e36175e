//! The bounded, least-recently-used memory of washed URLs, kept in an `lru::LruCache`.
use crate::web_url::{WebUrl, WebUrlView};
use lru::LruCache;
use std::collections::hash_map::RandomState;
use vstd::prelude::*;

verus! {

#[verifier::external_type_specification]
#[verifier::external_body]
#[verifier::reject_recursive_types(K)]
#[verifier::reject_recursive_types(V)]
#[verifier::reject_recursive_types(S)]
pub struct ExLruCache<K, V, S>(LruCache<K, V, S>);

/// The cache type: dirty URL text to washed URL, hashed with std's `RandomState`.
pub type UrlCache = LruCache<String, WebUrl, RandomState>;

/// What the cache maps each dirty URL's text to.
pub uninterp spec fn cache_entries(c: UrlCache) -> Map<Seq<char>, WebUrlView>;

/// For each key, how many entries were used more recently than it (0 for the most
/// recently used); the entry with the most is the least recently used.
pub uninterp spec fn cache_ages(c: UrlCache) -> Map<Seq<char>, nat>;

/// The number of entries the cache holds at most.
pub uninterp spec fn cache_capacity(c: UrlCache) -> nat;

/// Relies on `LruCache::with_hasher` (and `RandomState::new`): an empty cache that
/// holds at most `cap` entries.
#[verifier::external_body]
pub(crate) fn new_cache(cap: usize) -> (r: UrlCache)
    requires
        cap > 0,
    ensures
        cache_entries(r).dom() == Set::<Seq<char>>::empty(),
        cache_capacity(r) == cap,
{
    LruCache::with_hasher(std::num::NonZeroUsize::new(cap).unwrap(), RandomState::new())
}

/// Relies on `LruCache::get`: the value stored under `k`, if any. A hit moves `k` to
/// the most recently used place, so the entries used after `k` age by one; no entry
/// changes.
#[verifier::external_body]
pub(crate) fn cache_get(c: &mut UrlCache, k: &String) -> (r: Option<WebUrl>)
    ensures
        cache_entries(*final(c)) == cache_entries(*old(c)),
        cache_capacity(*final(c)) == cache_capacity(*old(c)),
        match r {
            Some(v) => cache_entries(*old(c)).contains_key(k@) && v@ == cache_entries(
                *old(c),
            )[k@],
            None => !cache_entries(*old(c)).contains_key(k@),
        },
        r is Some ==> cache_ages(*final(c))[k@] == 0,
        forall|x: Seq<char>|
            x != k@ && #[trigger] cache_entries(*old(c)).contains_key(x) ==> cache_ages(*final(c))[x]
                == if r is Some && cache_ages(*old(c))[x] < cache_ages(*old(c))[k@] {
                cache_ages(*old(c))[x] + 1
            } else {
                cache_ages(*old(c))[x]
            },
{
    c.get(k).cloned()
}

/// Whether `after` is `before` with `k` mapped to `v`, less possibly some entries
/// evicted to stay within the capacity.
pub open spec fn stored(
    before: Map<Seq<char>, WebUrlView>,
    after: Map<Seq<char>, WebUrlView>,
    k: Seq<char>,
    v: WebUrlView,
) -> bool {
    &&& after.contains_key(k)
    &&& after[k] == v
    &&& forall|k2: Seq<char>|
        #[trigger] after.contains_key(k2) && k2 != k ==> before.contains_key(k2) && after[k2]
            == before[k2]
}

/// Relies on `LruCache::put`: afterwards `k` maps to `v` and is the most recently used.
/// Where `k` was present, the entries used after it age by one and none is dropped;
/// otherwise every entry ages by one, and only one that reaches the capacity, the least
/// recently used of a full cache, is dropped.
#[verifier::external_body]
pub(crate) fn cache_put(c: &mut UrlCache, k: String, v: WebUrl)
    ensures
        stored(cache_entries(*old(c)), cache_entries(*final(c)), k@, v@),
        cache_capacity(*final(c)) == cache_capacity(*old(c)),
        cache_ages(*final(c))[k@] == 0,
        forall|x: Seq<char>|
            x != k@ && #[trigger] cache_entries(*old(c)).contains_key(x) ==> if cache_entries(
                *old(c),
            ).contains_key(k@) {
                &&& cache_entries(*final(c)).contains_key(x)
                &&& cache_ages(*final(c))[x] == if cache_ages(*old(c))[x] < cache_ages(
                    *old(c),
                )[k@] {
                    cache_ages(*old(c))[x] + 1
                } else {
                    cache_ages(*old(c))[x]
                }
            } else {
                &&& cache_ages(*old(c))[x] + 1 < cache_capacity(*old(c)) ==> cache_entries(
                    *final(c),
                ).contains_key(x)
                &&& cache_entries(*final(c)).contains_key(x) ==> cache_ages(*final(c))[x]
                    == cache_ages(*old(c))[x] + 1
            },
{
    c.put(k, v);
}

} // verus!
