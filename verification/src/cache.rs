//! The bounded, weighted, TTL-based response cache.
//!
//! The store itself is moka's synchronous cache; the library reasons
//! about it through a contents model: a map that over-approximates what
//! the cache holds.  A fresh cache models as empty, an insertion adds at
//! most its own pair, and eviction or expiry only ever remove entries, so
//! a lookup can only return what was stored under the looked-up key.

use vstd::prelude::*;

verus! {

/// Cache key for storing responses: the resource identity (path plus raw
/// query) and the textual tag of the resolved output format.
#[derive(Debug, Clone, Hash, Eq, PartialEq)]
pub struct CacheKey {
    pub path: String,
    pub format: String,
}

impl View for CacheKey {
    type V = (Seq<char>, Seq<char>);

    open spec fn view(&self) -> (Seq<char>, Seq<char>) {
        (self.path@, self.format@)
    }
}

impl CacheKey {
    pub fn new(path: String, format: String) -> (r: Self)
        ensures
            r@ == (path@, format@),
    {
        Self { path, format }
    }
}

/// What a cached response models as: its bytes, its content type, and
/// the preserved upstream headers, if any.
pub ghost struct CachedResponseView {
    pub data: Seq<u8>,
    pub content_type: Seq<char>,
    pub upstream_headers: Option<Seq<(Seq<char>, Seq<char>)>>,
}

/// Cached response data.  Immutable once stored.
#[derive(Debug, Clone)]
pub struct CachedResponse {
    pub data: Vec<u8>,
    pub content_type: String,
    pub upstream_headers: Option<Vec<(String, String)>>,
}

impl View for CachedResponse {
    type V = CachedResponseView;

    open spec fn view(&self) -> CachedResponseView {
        CachedResponseView {
            data: self.data@,
            content_type: self.content_type@,
            upstream_headers: match self.upstream_headers {
                Some(h) => Some(h@.map_values(|p: (String, String)| (p.0@, p.1@))),
                None => None,
            },
        }
    }
}

/// Cache statistics: an instantaneous snapshot of the entry count and
/// the weighted (byte) size.
#[derive(Debug, Clone)]
pub struct CacheStats {
    pub entry_count: u64,
    pub weighted_size: u64,
}

/// The weight of a cache entry: the byte length of its data, at least one.
pub open spec fn spec_entry_weight(data_len: int) -> int {
    let truncated = data_len % 0x100000000;
    if truncated == 0 {
        1
    } else {
        truncated
    }
}

/// Weight of an entry for the cache's byte budget.
pub fn entry_weight(v: &CachedResponse) -> (r: u32)
    ensures
        r as int == spec_entry_weight(v@.data.len() as int),
{
    let n64: u64 = v.data.len() as u64;
    let size = #[verifier::truncate] (n64 as u32);
    proof {
        assert(size as u64 == n64 % 0x100000000) by (bit_vector)
            requires size == n64 as u32;
        assert(v@.data.len() == n64 as int);
    }
    if size == 0 {
        1
    } else {
        size
    }
}

/// Response cache manager.
#[verifier::external_body]
pub struct ResponseCache {
    cache: moka::sync::Cache<CacheKey, std::sync::Arc<CachedResponse>>,
}

/// What the cache may hold: every entry the cache can still return is in
/// this map.  Eviction and expiry shrink the real contents, never this
/// model, so the model over-approximates the store.
pub uninterp spec fn cache_contents(c: ResponseCache) -> Map<
    (Seq<char>, Seq<char>),
    CachedResponseView,
>;

/// The contents model of a cache that holds nothing.
pub open spec fn empty_contents() -> Map<(Seq<char>, Seq<char>), CachedResponseView> {
    Map::empty()
}

/// The weighted (byte) capacity a cache was built with.
pub uninterp spec fn cache_capacity(c: ResponseCache) -> u64;

/// The time-to-live, in seconds, a cache was built with.
pub uninterp spec fn cache_ttl(c: ResponseCache) -> u64;

impl ResponseCache {
    /// Create a new response cache with a weighted capacity, a
    /// time-to-live in seconds, and an (unused here, caller-enforced)
    /// maximum item size.
    ///
    /// Relies on moka::sync::Cache::builder: a freshly built cache holds
    /// nothing and is configured with this capacity and time-to-live.
    /// Entries are weighed by [`entry_weight`] and expire `ttl_secs`
    /// after insertion.  The builder refuses a time-to-live beyond a
    /// thousand years, hence the bound on `ttl_secs`.
    #[verifier::external_body]
    pub fn new(max_capacity: u64, ttl_secs: u64, _max_item_size: u64) -> (result: Self)
        requires
            ttl_secs <= 31536000000,
        ensures
            cache_contents(result) == empty_contents(),
            cache_capacity(result) == max_capacity,
            cache_ttl(result) == ttl_secs,
    {
        let cache = moka::sync::Cache::builder()
            .max_capacity(max_capacity)
            .time_to_live(std::time::Duration::from_secs(ttl_secs))
            .weigher(|_key: &CacheKey, value: &std::sync::Arc<CachedResponse>| {
                entry_weight(value.as_ref())
            })
            .initial_capacity(100)
            .build();
        Self { cache }
    }

    /// Get a cached response.
    ///
    /// Relies on moka::sync::Cache::get: it returns a clone of the value
    /// stored under the key, or nothing; it never returns a value that
    /// was stored under another key.
    #[verifier::external_body]
    pub fn get(&self, key: &CacheKey) -> (r: Option<CachedResponse>)
        ensures
            r matches Some(v) ==> cache_contents(*self).contains_pair(key@, v@),
    {
        match self.cache.get(key) {
            Some(a) => Some((*a).clone()),
            None => None,
        }
    }

    /// Store a response in the cache, replacing any value under the key.
    ///
    /// Relies on moka::sync::Cache::insert: the key now maps to this
    /// value; any housekeeping that runs alongside only evicts entries.
    #[verifier::external_body]
    pub fn put(&mut self, key: CacheKey, response: CachedResponse)
        ensures
            cache_contents(*final(self)).submap_of(
                cache_contents(*old(self)).insert(key@, response@),
            ),
    {
        self.cache.insert(key, std::sync::Arc::new(response));
    }

    /// Run the cache's pending maintenance: apply queued evictions and
    /// drop expired entries.
    ///
    /// Relies on moka::sync::Cache::run_pending_tasks: maintenance only
    /// removes entries.
    #[verifier::external_body]
    pub fn run_pending_tasks(&mut self)
        ensures
            cache_contents(*final(self)).submap_of(cache_contents(*old(self))),
    {
        self.cache.run_pending_tasks();
    }

    /// Get cache statistics.
    ///
    /// Relies on moka::sync::Cache::entry_count and weighted_size: the
    /// counters of a cache that nothing was ever stored in are zero;
    /// otherwise they are an instantaneous snapshot with no promise
    /// about concurrent changes.
    #[verifier::external_body]
    pub fn stats(&self) -> (r: CacheStats)
        ensures
            cache_contents(*self) == empty_contents() ==> r.entry_count == 0 && r.weighted_size
                == 0,
    {
        CacheStats {
            entry_count: self.cache.entry_count(),
            weighted_size: self.cache.weighted_size(),
        }
    }
}

impl ResponseCache {
    /// Round trip over the cache API: store a response under a key, then
    /// look the key up.  Whatever the lookup returns — eviction may have
    /// already removed the entry — it is the stored response, never
    /// another value.
    pub fn store_then_lookup(&mut self, key: &CacheKey, response: CachedResponse) -> (r: Option<
        CachedResponse,
    >)
        ensures
            r matches Some(v) ==> v@ == response@,
    {
        let ghost before = cache_contents(*self);
        let owned = CacheKey::new(key.path.clone(), key.format.clone());
        self.put(owned, response);
        let got = self.get(key);
        proof {
            if let Some(v) = &got {
                lemma_cache_round_trip(
                    before,
                    cache_contents(*self),
                    key@,
                    response@,
                    v@,
                );
            }
        }
        got
    }
}

/// A lookup in a cache that nothing was stored in returns nothing.
pub fn fresh_cache_misses(key: &CacheKey) -> (r: Option<CachedResponse>)
    ensures
        r is None,
{
    let cache = ResponseCache::new(16, 60, 16);
    let got = cache.get(key);
    proof {
        if let Some(v) = &got {
            assert(empty_contents().contains_pair(key@, v@));
            assert(false);
        }
    }
    got
}

/// Round trip: after a response is stored under a key, a lookup of that
/// key returns that response or nothing — never another value.  `before`
/// and `after` are the cache's modelled contents around the store, as
/// [`ResponseCache::put`] relates them, and `got` is what a lookup after
/// the store returned, as [`ResponseCache::get`] describes it.
pub proof fn lemma_cache_round_trip(
    before: Map<(Seq<char>, Seq<char>), CachedResponseView>,
    after: Map<(Seq<char>, Seq<char>), CachedResponseView>,
    key: (Seq<char>, Seq<char>),
    stored: CachedResponseView,
    got: CachedResponseView,
)
    requires
        after.submap_of(before.insert(key, stored)),
        after.contains_pair(key, got),
    ensures
        got == stored,
{
    assert(after.dom().contains(key));
    assert(before.insert(key, stored).dom().contains(key));
    assert(after[key] == before.insert(key, stored)[key]);
    assert(before.insert(key, stored)[key] == stored);
}

/// A key outside the modelled contents can pair with no value, so a
/// lookup of an unknown key returns nothing.
pub proof fn lemma_cache_miss(
    contents: Map<(Seq<char>, Seq<char>), CachedResponseView>,
    key: (Seq<char>, Seq<char>),
)
    requires
        !contents.dom().contains(key),
    ensures
        forall|v: CachedResponseView| !contents.contains_pair(key, v),
{
}

} // verus!
