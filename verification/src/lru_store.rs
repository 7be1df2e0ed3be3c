//! The bounded LRU maps behind the resolver's two address caches. The maps
//! come from the `lru` crate; their contents and capacity are named here, and
//! each method the cache store calls gets a contract over those names.

use vstd::prelude::*;

use crate::cache::{CacheEntry, EntryModel};

verus! {

#[verifier::external_type_specification]
#[verifier::external_body]
#[verifier::reject_recursive_types(K)]
#[verifier::reject_recursive_types(V)]
#[verifier::reject_recursive_types(S)]
pub struct ExLruCache<K, V, S>(lru::LruCache<K, V, S>);

/// A bounded LRU map from hostname bytes to cache entries.
pub type HostCache = lru::LruCache<Vec<u8>, CacheEntry>;

/// What a cache holds: hostname bytes to entry model.
pub uninterp spec fn lru_contents(m: HostCache) -> Map<Seq<u8>, EntryModel>;

/// The contents of a cache with nothing in it.
pub open spec fn no_contents() -> Map<Seq<u8>, EntryModel> {
    Map::<Seq<u8>, EntryModel>::empty()
}

/// The bound the cache was created with.
pub uninterp spec fn lru_capacity(m: HostCache) -> nat;

/// Relies on lru::LruCache::new: a fresh cache is empty and holds at most
/// `cap` entries.
#[verifier::external_body]
pub(crate) fn lru_new(cap: usize) -> (r: HostCache)
    requires
        cap >= 1,
    ensures
        lru_contents(r) == no_contents(),
        lru_capacity(r) == cap as nat,
{
    lru::LruCache::new(std::num::NonZeroUsize::new(cap).unwrap())
}

/// Relies on lru::LruCache::get, and on Clone for the entry's address vector
/// and deadline: hands back a copy of the entry stored under `k`; only the
/// recency order changes, never the mapping itself.
#[verifier::external_body]
pub(crate) fn lru_get(m: &mut HostCache, k: &Vec<u8>) -> (r: Option<CacheEntry>)
    ensures
        lru_contents(*final(m)) == lru_contents(*old(m)),
        lru_capacity(*final(m)) == lru_capacity(*old(m)),
        (match r {
            Some(e) => lru_contents(*old(m)).contains_key(k@) && e@ == lru_contents(*old(m))[k@],
            None => !lru_contents(*old(m)).contains_key(k@),
        }),
{
    m.get(k).cloned()
}

/// What lru::LruCache::put does to the contents: the key is bound to the
/// value, and when the key is new and the map is full, one present entry (the
/// least recently used one) leaves first.
pub open spec fn lru_put_post(
    pre: Map<Seq<u8>, EntryModel>,
    cap: nat,
    k: Seq<u8>,
    v: EntryModel,
    post: Map<Seq<u8>, EntryModel>,
) -> bool {
    &&& (pre.contains_key(k) || pre.len() < cap ==> post == pre.insert(k, v))
    &&& (post == pre.insert(k, v) || (exists|k2: Seq<u8>|
        #[trigger] pre.contains_key(k2) && k2 != k && post == pre.remove(k2).insert(k, v)))
}

/// Relies on lru::LruCache::put: a present key only changes its value, a new
/// key evicts the least recently used entry first when the cache is full, and
/// a cache within its bound stays within it. Which entry counts as least
/// recently used is not modelled: the contents name carries the bindings
/// alone, no recency order, so the evicted key stays existential here.
#[verifier::external_body]
pub(crate) fn lru_put(m: &mut HostCache, k: Vec<u8>, v: CacheEntry)
    ensures
        lru_capacity(*final(m)) == lru_capacity(*old(m)),
        lru_contents(*old(m)).len() <= lru_capacity(*old(m)) ==> lru_contents(*final(m)).len()
            <= lru_capacity(*final(m)),
        lru_put_post(
            lru_contents(*old(m)),
            lru_capacity(*old(m)),
            k@,
            v@,
            lru_contents(*final(m)),
        ),
{
    m.put(k, v);
}

} // verus!
