//! The dispatcher's fallback cache: a time-bounded LRU map from destination
//! to the index of the last non-primary actor that worked for it. The map
//! comes from the `lru_time_cache` crate; entries expire after the configured
//! duration, so a read may find less than what was inserted, never more.

use vstd::prelude::*;

verus! {

#[verifier::external_type_specification]
#[verifier::external_body]
#[verifier::reject_recursive_types(Key)]
#[verifier::reject_recursive_types(Value)]
pub struct ExTimedLruCache<Key, Value>(lru_time_cache::LruCache<Key, Value>);

/// A time-bounded LRU map from destination bytes to actor index.
pub type FallbackMap = lru_time_cache::LruCache<Vec<u8>, usize>;

/// What the fallback cache holds: destination bytes to actor index.
pub uninterp spec fn fallback_contents(m: FallbackMap) -> Map<Seq<u8>, usize>;

/// The capacity the fallback cache was created with.
pub uninterp spec fn fallback_capacity(m: FallbackMap) -> nat;

/// The lifetime, in seconds, the fallback cache gives each entry.
pub uninterp spec fn fallback_ttl(m: FallbackMap) -> nat;

/// The contents of a fallback cache with nothing in it.
pub open spec fn no_fallback_contents() -> Map<Seq<u8>, usize> {
    Map::<Seq<u8>, usize>::empty()
}

/// The largest entry lifetime the cache is used with, in seconds (about 68
/// years). The crate's expiry sweep adds the lifetime to each entry's
/// timestamp as an instant-plus-duration, which the standard library panics
/// on when the sum leaves the clock's range; this bound keeps the sum far
/// inside it.
pub const FALLBACK_TTL_MAX_SECS: u64 = 0x7fff_ffff;

/// Relies on lru_time_cache::LruCache::with_expiry_duration_and_capacity: a
/// fresh cache is empty and keeps the given bound and lifetime. A capacity of
/// zero is excluded: the crate's eviction path drains one entry past an empty
/// queue on a zero-capacity cache and panics. The lifetime is bounded so the
/// expiry sweep's instant arithmetic cannot overflow later.
#[verifier::external_body]
pub(crate) fn fallback_new(ttl_secs: u64, cap: usize) -> (r: FallbackMap)
    requires
        cap >= 1,
        ttl_secs <= FALLBACK_TTL_MAX_SECS,
    ensures
        fallback_contents(r) == no_fallback_contents(),
        fallback_capacity(r) == cap as nat,
        fallback_ttl(r) == ttl_secs as nat,
{
    lru_time_cache::LruCache::with_expiry_duration_and_capacity(
        std::time::Duration::from_secs(ttl_secs),
        cap,
    )
}

/// Relies on lru_time_cache::LruCache::get: a hit is a binding the cache
/// held and still holds; expired entries may leave during the read, and no
/// binding ever changes its value or appears from nowhere. The bounded
/// lifetime keeps the expiry sweep's instant arithmetic from overflowing.
#[verifier::external_body]
pub(crate) fn fallback_get(m: &mut FallbackMap, k: &Vec<u8>) -> (r: Option<usize>)
    requires
        fallback_ttl(*old(m)) <= FALLBACK_TTL_MAX_SECS as nat,
    ensures
        fallback_capacity(*final(m)) == fallback_capacity(*old(m)),
        fallback_ttl(*final(m)) == fallback_ttl(*old(m)),
        forall|k2: Seq<u8>|
            #[trigger] fallback_contents(*final(m)).contains_key(k2) ==> fallback_contents(
                *old(m),
            ).contains_key(k2) && fallback_contents(*final(m))[k2] == fallback_contents(*old(m))[k2],
        (match r {
            Some(v) => fallback_contents(*old(m)).contains_pair(k@, v) && fallback_contents(
                *final(m),
            ).contains_pair(k@, v),
            None => true,
        }),
{
    m.get(k).copied()
}

/// Relies on lru_time_cache::LruCache::insert: afterwards the key is bound
/// to the value; expired entries and (when full) the least recently used ones
/// may leave, every other surviving binding comes unchanged from before, and
/// a cache within its bound stays within it. The bounded lifetime keeps the
/// expiry sweep's instant arithmetic from overflowing. Which entries count
/// as least recently used is not modelled: the contents name carries the
/// bindings alone, no recency order.
#[verifier::external_body]
pub(crate) fn fallback_insert(m: &mut FallbackMap, k: Vec<u8>, v: usize)
    requires
        fallback_ttl(*old(m)) <= FALLBACK_TTL_MAX_SECS as nat,
    ensures
        fallback_capacity(*final(m)) == fallback_capacity(*old(m)),
        fallback_ttl(*final(m)) == fallback_ttl(*old(m)),
        fallback_contents(*final(m)).contains_pair(k@, v),
        forall|k2: Seq<u8>|
            #[trigger] fallback_contents(*final(m)).contains_key(k2) && k2 != k@
                ==> fallback_contents(*old(m)).contains_key(k2) && fallback_contents(*final(m))[k2]
                == fallback_contents(*old(m))[k2],
        fallback_contents(*old(m)).len() <= fallback_capacity(*old(m)) ==> fallback_contents(
            *final(m),
        ).len() <= fallback_capacity(*final(m)),
{
    m.insert(k, v);
}

} // verus!
