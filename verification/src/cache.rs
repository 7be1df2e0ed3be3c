//! The resolver's cache store: two bounded LRU maps, one per address family,
//! each from hostname to a cache entry of addresses and an absolute deadline.
//! The store keeps the family discipline — the v4 map holds only all-v4
//! entries, the v6 map only all-v6 entries — and the first address of an
//! entry is the one most recently seen to work (kept by rotation).

use vstd::prelude::*;

use crate::addr::IpAddress;
use crate::lru_store::{lru_capacity, lru_contents, lru_get, lru_new, lru_put, lru_put_post, HostCache};

verus! {

/// The mathematical content of one cache entry.
pub struct EntryModel {
    pub ips: Seq<IpAddress>,
    pub deadline: u64,
}

impl EntryModel {
    /// Non-empty, and every address of the family of the first.
    pub open spec fn uniform(self) -> bool {
        self.ips.len() > 0 && (forall|i: int|
            0 <= i < self.ips.len() ==> (#[trigger] self.ips[i]).is_v4() == self.ips[0].is_v4())
    }

    /// An entry is expired once `now` has passed its deadline.
    pub open spec fn expired(self, now: u64) -> bool {
        self.deadline < now
    }

    pub open spec fn all_v4(self) -> bool {
        forall|i: int| 0 <= i < self.ips.len() ==> (#[trigger] self.ips[i]).is_v4()
    }

    pub open spec fn all_v6(self) -> bool {
        forall|i: int| 0 <= i < self.ips.len() ==> (#[trigger] self.ips[i]).is_v6()
    }
}

/// One cached resolution: an ordered address sequence and an absolute expiry
/// instant in milliseconds.
#[derive(Clone, Debug)]
pub struct CacheEntry {
    pub ips: Vec<IpAddress>,
    pub deadline: u64,
}

impl View for CacheEntry {
    type V = EntryModel;

    open spec fn view(&self) -> EntryModel {
        EntryModel { ips: self.ips@, deadline: self.deadline }
    }
}

impl CacheEntry {
    /// Checks the entry invariant: non-empty and single-family.
    pub fn is_uniform(&self) -> (r: bool)
        ensures
            r == self@.uniform(),
    {
        if self.ips.len() == 0 {
            return false;
        }
        let first_v4 = self.ips[0].family_is_v4();
        let mut i: usize = 0;
        while i < self.ips.len()
            invariant
                0 <= i <= self.ips@.len(),
                self.ips@.len() > 0,
                first_v4 == self.ips@[0].is_v4(),
                forall|j: int| 0 <= j < i ==> (#[trigger] self.ips@[j]).is_v4() == self.ips@[0].is_v4(),
            decreases self.ips@.len() - i,
        {
            if self.ips[i].family_is_v4() != first_v4 {
                return false;
            }
            i = i + 1;
        }
        true
    }
}

/// Index of the first occurrence of `ip`.
pub open spec fn index_of_ip(s: Seq<IpAddress>, ip: IpAddress) -> Option<int>
    decreases s.len(),
{
    if s.len() == 0 {
        None
    } else if s[0] == ip {
        Some(0)
    } else {
        match index_of_ip(s.drop_first(), ip) {
            Some(i) => Some(i + 1),
            None => None,
        }
    }
}

/// Everything the first-occurrence index promises.
pub proof fn lemma_index_of_ip(s: Seq<IpAddress>, ip: IpAddress)
    ensures
        (match index_of_ip(s, ip) {
            Some(i) => 0 <= i < s.len() && s[i] == ip && (forall|j: int| 0 <= j < i ==> s[j] != ip),
            None => forall|j: int| 0 <= j < s.len() ==> s[j] != ip,
        }),
    decreases s.len(),
{
    if s.len() > 0 && s[0] != ip {
        lemma_index_of_ip(s.drop_first(), ip);
        match index_of_ip(s.drop_first(), ip) {
            Some(i0) => {
                assert forall|j: int| 0 <= j < i0 + 1 implies s[j] != ip by {
                    if j > 0 {
                        assert(s.drop_first()[j - 1] != ip);
                    }
                }
            },
            None => {
                assert forall|j: int| 0 <= j < s.len() implies s[j] != ip by {
                    if j > 0 {
                        assert(s.drop_first()[j - 1] != ip);
                    }
                }
            },
        }
    }
}

proof fn lemma_index_of_ip_at(s: Seq<IpAddress>, ip: IpAddress, i: int)
    requires
        0 <= i < s.len(),
        s[i] == ip,
        forall|j: int| 0 <= j < i ==> s[j] != ip,
    ensures
        index_of_ip(s, ip) == Some(i),
    decreases i,
{
    if i > 0 {
        lemma_index_of_ip_at(s.drop_first(), ip, i - 1);
    }
}

/// The sequence after feedback for `ip`: rotated left so that the first
/// occurrence of `ip` leads, untouched when `ip` is absent.
pub open spec fn rotated_to_front(s: Seq<IpAddress>, ip: IpAddress) -> Seq<IpAddress> {
    match index_of_ip(s, ip) {
        Some(i) => s.skip(i) + s.take(i),
        None => s,
    }
}

/// Rotation bounds: feedback either leaves the sequence as it stands or
/// brings the connected address to the front, and it never adds or drops an
/// address.
pub proof fn lemma_rotation_bounds(s: Seq<IpAddress>, ip: IpAddress)
    ensures
        rotated_to_front(s, ip) == s || rotated_to_front(s, ip)[0] == ip,
        rotated_to_front(s, ip).to_multiset() == s.to_multiset(),
{
    lemma_index_of_ip(s, ip);
    match index_of_ip(s, ip) {
        Some(i) => {
            let r = s.skip(i) + s.take(i);
            assert(r[0] == s[i]);
            vstd::seq_lib::lemma_multiset_commutative(s.skip(i), s.take(i));
            vstd::seq_lib::lemma_multiset_commutative(s.take(i), s.skip(i));
            assert(s.take(i) + s.skip(i) =~= s);
        },
        None => {},
    }
}

/// Rotation idempotence: a second rotation with the same address changes
/// nothing more.
pub proof fn lemma_rotation_idempotent(s: Seq<IpAddress>, ip: IpAddress)
    ensures
        rotated_to_front(rotated_to_front(s, ip), ip) == rotated_to_front(s, ip),
{
    lemma_index_of_ip(s, ip);
    match index_of_ip(s, ip) {
        Some(i) => {
            let r = s.skip(i) + s.take(i);
            assert(r[0] == s[i]);
            assert(r.len() > 0);
            assert(index_of_ip(r, ip) == Some(0int));
            assert(r.skip(0) + r.take(0) =~= r);
        },
        None => {},
    }
}

/// Finds the first occurrence of `ip` by a linear scan.
fn find_ip(s: &Vec<IpAddress>, ip: IpAddress) -> (r: Option<usize>)
    ensures
        (match r {
            Some(i) => index_of_ip(s@, ip) == Some(i as int) && i < s@.len(),
            None => index_of_ip(s@, ip) is None,
        }),
{
    let mut i: usize = 0;
    while i < s.len()
        invariant
            0 <= i <= s@.len(),
            forall|j: int| 0 <= j < i ==> s@[j] != ip,
        decreases s@.len() - i,
    {
        if s[i] == ip {
            proof {
                lemma_index_of_ip_at(s@, ip, i as int);
            }
            return Some(i);
        }
        i = i + 1;
    }
    proof {
        lemma_index_of_ip(s@, ip);
        if index_of_ip(s@, ip) is Some {
            let k = index_of_ip(s@, ip).unwrap();
            assert(s@[k] != ip);
        }
    }
    None
}

/// Builds the left rotation of `s` by `k` places.
fn rotate_left_vec(s: &Vec<IpAddress>, k: usize) -> (r: Vec<IpAddress>)
    requires
        k <= s@.len(),
    ensures
        r@ == s@.skip(k as int) + s@.take(k as int),
{
    let n = s.len();
    let mut r: Vec<IpAddress> = Vec::new();
    let mut i: usize = k;
    while i < n
        invariant
            k <= i <= n,
            n == s@.len(),
            r@ == s@.subrange(k as int, i as int),
        decreases n - i,
    {
        r.push(s[i]);
        i = i + 1;
        proof {
            assert(r@ =~= s@.subrange(k as int, i as int));
        }
    }
    let mut j: usize = 0;
    while j < k
        invariant
            0 <= j <= k <= n == s@.len(),
            r@ == s@.subrange(k as int, n as int) + s@.subrange(0int, j as int),
        decreases k - j,
    {
        r.push(s[j]);
        j = j + 1;
        proof {
            assert(r@ =~= s@.subrange(k as int, n as int) + s@.subrange(0int, j as int));
        }
    }
    proof {
        assert(s@.subrange(k as int, n as int) =~= s@.skip(k as int));
        assert(s@.subrange(0int, k as int) =~= s@.take(k as int));
    }
    r
}

/// Appends all of `src` to `dst`.
pub(crate) fn extend_ips(dst: &mut Vec<IpAddress>, src: &Vec<IpAddress>)
    ensures
        final(dst)@ == old(dst)@ + src@,
{
    let mut i: usize = 0;
    while i < src.len()
        invariant
            0 <= i <= src@.len(),
            dst@ == old(dst)@ + src@.take(i as int),
        decreases src@.len() - i,
    {
        dst.push(src[i]);
        i = i + 1;
        proof {
            assert(dst@ =~= old(dst)@ + src@.take(i as int));
        }
    }
    proof {
        assert(old(dst)@ + src@.take(src@.len() as int) =~= old(dst)@ + src@);
    }
}

/// What a cache read finds.
#[derive(Debug)]
pub enum CacheLookup {
    /// Fresh addresses, in policy order.
    Hit(Vec<IpAddress>),
    /// Some consulted entry has passed its deadline.
    Expired,
    /// No consulted map holds the name.
    Miss,
}

/// The addresses a map holds for a name, or nothing.
pub open spec fn entry_ips(m: Map<Seq<u8>, EntryModel>, host: Seq<u8>) -> Seq<IpAddress> {
    if m.contains_key(host) {
        m[host].ips
    } else {
        Seq::<IpAddress>::empty()
    }
}

/// Whether any entry the policy consults is expired.
pub open spec fn policy_expired(
    v4m: Map<Seq<u8>, EntryModel>,
    v6m: Map<Seq<u8>, EntryModel>,
    host: Seq<u8>,
    enable_ipv6: bool,
    now: u64,
) -> bool {
    (v4m.contains_key(host) && v4m[host].expired(now)) || (enable_ipv6 && v6m.contains_key(host)
        && v6m[host].expired(now))
}

/// The addresses a cache read returns, in policy order: the preferred family
/// first when v6 is enabled, v4 alone otherwise.
pub open spec fn policy_ips(
    v4m: Map<Seq<u8>, EntryModel>,
    v6m: Map<Seq<u8>, EntryModel>,
    host: Seq<u8>,
    enable_ipv6: bool,
    prefer_ipv6: bool,
) -> Seq<IpAddress> {
    if enable_ipv6 && prefer_ipv6 {
        entry_ips(v6m, host) + entry_ips(v4m, host)
    } else if enable_ipv6 {
        entry_ips(v4m, host) + entry_ips(v6m, host)
    } else {
        entry_ips(v4m, host)
    }
}

/// Two bounded LRU maps keyed by hostname, one per family.
pub struct CacheStore {
    pub v4: HostCache,
    pub v6: HostCache,
}

impl CacheStore {
    pub open spec fn v4_map(&self) -> Map<Seq<u8>, EntryModel> {
        lru_contents(self.v4)
    }

    pub open spec fn v6_map(&self) -> Map<Seq<u8>, EntryModel> {
        lru_contents(self.v6)
    }

    pub open spec fn v4_cap(&self) -> nat {
        lru_capacity(self.v4)
    }

    pub open spec fn v6_cap(&self) -> nat {
        lru_capacity(self.v6)
    }

    /// Capacity bound: neither family map holds more entries than the bound
    /// it was created with.
    pub open spec fn bounded(&self) -> bool {
        self.v4_map().len() <= self.v4_cap() && self.v6_map().len() <= self.v6_cap()
    }

    /// Family discipline: the v4 map holds only well-formed all-v4 entries,
    /// the v6 map only well-formed all-v6 entries.
    pub open spec fn wf(&self) -> bool {
        (forall|h: Seq<u8>|
            #[trigger] self.v4_map().contains_key(h) ==> self.v4_map()[h].uniform()
                && self.v4_map()[h].all_v4()) && (forall|h: Seq<u8>|
            #[trigger] self.v6_map().contains_key(h) ==> self.v6_map()[h].uniform()
                && self.v6_map()[h].all_v6())
    }

    /// Two empty maps bounded by `cap`.
    pub fn new(cap: usize) -> (r: CacheStore)
        requires
            cap >= 1,
        ensures
            r.wf(),
            r.bounded(),
            r.v4_map() == Map::<Seq<u8>, EntryModel>::empty(),
            r.v6_map() == Map::<Seq<u8>, EntryModel>::empty(),
            r.v4_cap() == cap as nat,
            r.v6_cap() == cap as nat,
    {
        let r = CacheStore { v4: lru_new(cap), v6: lru_new(cap) };
        proof {
            assert(Map::<Seq<u8>, EntryModel>::empty().dom() =~= Set::<Seq<u8>>::empty());
        }
        r
    }

    /// What a store insert does: nothing for an entry that is empty or
    /// mixed-family; otherwise a put into the map of the first address's
    /// family, the other map untouched.
    pub open spec fn insert_post(pre: CacheStore, host: Seq<u8>, e: EntryModel, post: CacheStore) -> bool {
        &&& post.v4_cap() == pre.v4_cap()
        &&& post.v6_cap() == pre.v6_cap()
        &&& (!e.uniform() ==> post.v4_map() == pre.v4_map() && post.v6_map() == pre.v6_map())
        &&& (e.uniform() && e.ips[0].is_v4() ==> lru_put_post(
            pre.v4_map(),
            pre.v4_cap(),
            host,
            e,
            post.v4_map(),
        ) && post.v6_map() == pre.v6_map())
        &&& (e.uniform() && !e.ips[0].is_v4() ==> lru_put_post(
            pre.v6_map(),
            pre.v6_cap(),
            host,
            e,
            post.v6_map(),
        ) && post.v4_map() == pre.v4_map())
    }

    /// Stores an entry under a name; a no-op unless the entry is non-empty
    /// and single-family. The first address's family picks the map.
    pub fn insert(&mut self, host: &Vec<u8>, entry: CacheEntry)
        ensures
            CacheStore::insert_post(*old(self), host@, entry@, *final(self)),
            old(self).wf() ==> final(self).wf(),
            old(self).bounded() ==> final(self).bounded(),
    {
        if !entry.is_uniform() {
            return ;
        }
        let ghost pre = *self;
        let ghost vmodel = entry@;
        if entry.ips[0].family_is_v4() {
            lru_put(&mut self.v4, host.clone(), entry);
            proof {
                lemma_put_post_bindings(pre.v4_map(), pre.v4_cap(), host@, vmodel, self.v4_map());
                assert forall|i: int| 0 <= i < vmodel.ips.len() implies (
                #[trigger] vmodel.ips[i]).is_v4() by {
                    assert(vmodel.ips[i].is_v4() == vmodel.ips[0].is_v4());
                }
                if pre.wf() {
                    assert forall|h: Seq<u8>| #[trigger] self.v4_map().contains_key(h) implies self
                        .v4_map()[h].uniform() && self.v4_map()[h].all_v4() by {
                        if h != host@ {
                            assert(pre.v4_map().contains_key(h) && self.v4_map()[h] == pre.v4_map()[h]);
                        }
                    }
                    assert(self.v4_map()[host@] == vmodel);
                    assert(vmodel.uniform());
                    assert(vmodel.all_v4());
                    assert(self.v6_map() == pre.v6_map());
                    assert(forall|h: Seq<u8>|
                        #[trigger] self.v6_map().contains_key(h) ==> self.v6_map()[h].uniform()
                            && self.v6_map()[h].all_v6());
                    assert(self.wf());
                }
            }
        } else {
            lru_put(&mut self.v6, host.clone(), entry);
            proof {
                lemma_put_post_bindings(pre.v6_map(), pre.v6_cap(), host@, vmodel, self.v6_map());
                assert forall|i: int| 0 <= i < vmodel.ips.len() implies (
                #[trigger] vmodel.ips[i]).is_v6() by {
                    assert(vmodel.ips[i].is_v4() == vmodel.ips[0].is_v4());
                }
                if pre.wf() {
                    assert forall|h: Seq<u8>| #[trigger] self.v6_map().contains_key(h) implies self
                        .v6_map()[h].uniform() && self.v6_map()[h].all_v6() by {
                        if h != host@ {
                            assert(pre.v6_map().contains_key(h) && self.v6_map()[h] == pre.v6_map()[h]);
                        }
                    }
                    assert(self.v6_map()[host@] == vmodel);
                    assert(vmodel.uniform());
                    assert(vmodel.all_v6());
                    assert(self.v4_map() == pre.v4_map());
                    assert(forall|h: Seq<u8>|
                        #[trigger] self.v4_map().contains_key(h) ==> self.v4_map()[h].uniform()
                            && self.v4_map()[h].all_v4());
                    assert(self.wf());
                }
            }
        }
    }

    /// Reads the caches the policy selects. Any consulted expired entry
    /// fails the whole read; otherwise fresh addresses come back in policy
    /// order, and a read with nothing found is a miss. The maps themselves
    /// never change.
    pub fn get_cached(
        &mut self,
        host: &Vec<u8>,
        enable_ipv6: bool,
        prefer_ipv6: bool,
        now: u64,
    ) -> (r: CacheLookup)
        ensures
            final(self).v4_map() == old(self).v4_map(),
            final(self).v6_map() == old(self).v6_map(),
            final(self).v4_cap() == old(self).v4_cap(),
            final(self).v6_cap() == old(self).v6_cap(),
            old(self).bounded() ==> final(self).bounded(),
            (match r {
                CacheLookup::Expired => policy_expired(
                    old(self).v4_map(),
                    old(self).v6_map(),
                    host@,
                    enable_ipv6,
                    now,
                ),
                CacheLookup::Hit(ips) => !policy_expired(
                    old(self).v4_map(),
                    old(self).v6_map(),
                    host@,
                    enable_ipv6,
                    now,
                ) && ips@ == policy_ips(
                    old(self).v4_map(),
                    old(self).v6_map(),
                    host@,
                    enable_ipv6,
                    prefer_ipv6,
                ) && ips@.len() > 0,
                CacheLookup::Miss => !policy_expired(
                    old(self).v4_map(),
                    old(self).v6_map(),
                    host@,
                    enable_ipv6,
                    now,
                ) && policy_ips(
                    old(self).v4_map(),
                    old(self).v6_map(),
                    host@,
                    enable_ipv6,
                    prefer_ipv6,
                ).len() == 0,
            }),
    {
        let mut acc: Vec<IpAddress> = Vec::new();
        if enable_ipv6 && prefer_ipv6 {
            match lru_get(&mut self.v6, host) {
                Some(e) => {
                    if e.deadline < now {
                        return CacheLookup::Expired;
                    }
                    extend_ips(&mut acc, &e.ips);
                },
                None => {},
            }
            match lru_get(&mut self.v4, host) {
                Some(e) => {
                    if e.deadline < now {
                        return CacheLookup::Expired;
                    }
                    extend_ips(&mut acc, &e.ips);
                },
                None => {},
            }
        } else if enable_ipv6 {
            match lru_get(&mut self.v4, host) {
                Some(e) => {
                    if e.deadline < now {
                        return CacheLookup::Expired;
                    }
                    extend_ips(&mut acc, &e.ips);
                },
                None => {},
            }
            match lru_get(&mut self.v6, host) {
                Some(e) => {
                    if e.deadline < now {
                        return CacheLookup::Expired;
                    }
                    extend_ips(&mut acc, &e.ips);
                },
                None => {},
            }
        } else {
            match lru_get(&mut self.v4, host) {
                Some(e) => {
                    if e.deadline < now {
                        return CacheLookup::Expired;
                    }
                    extend_ips(&mut acc, &e.ips);
                },
                None => {},
            }
        }
        if acc.len() > 0 {
            CacheLookup::Hit(acc)
        } else {
            CacheLookup::Miss
        }
    }

    /// Feedback after a successful connection: rotates the address to the
    /// front of the name's entry in the family's map. A name without an
    /// entry, an entry without the address, and an entry already led by the
    /// address all stay as they are.
    pub fn rotate(&mut self, host: &Vec<u8>, ip: IpAddress)
        ensures
            final(self).v4_cap() == old(self).v4_cap(),
            final(self).v6_cap() == old(self).v6_cap(),
            ip.is_v4() ==> rotate_map_post(old(self).v4_map(), host@, ip, final(self).v4_map())
                && final(self).v6_map() == old(self).v6_map(),
            !ip.is_v4() ==> rotate_map_post(old(self).v6_map(), host@, ip, final(self).v6_map())
                && final(self).v4_map() == old(self).v4_map(),
            old(self).wf() ==> final(self).wf(),
            old(self).bounded() ==> final(self).bounded(),
    {
        let ghost pre = *self;
        if ip.family_is_v4() {
            let e = match lru_get(&mut self.v4, host) {
                Some(e) => e,
                None => {
                    proof {
                        if pre.wf() {
                            lemma_wf_from_maps(pre, *self);
                        }
                    }
                    return ;
                },
            };
            let idx = match find_ip(&e.ips, ip) {
                Some(i) => i,
                None => {
                    proof {
                        if pre.wf() {
                            lemma_wf_from_maps(pre, *self);
                        }
                    }
                    return ;
                },
            };
            if idx == 0 {
                proof {
                    if pre.wf() {
                        lemma_wf_from_maps(pre, *self);
                    }
                }
                return ;
            }
            let deadline = e.deadline;
            let rotated = rotate_left_vec(&e.ips, idx);
            let ghost vmodel = EntryModel { ips: rotated@, deadline };
            lru_put(&mut self.v4, host.clone(), CacheEntry { ips: rotated, deadline });
            proof {
                lemma_put_post_bindings(pre.v4_map(), pre.v4_cap(), host@, vmodel, self.v4_map());
                assert(vmodel.ips == rotated_to_front(pre.v4_map()[host@].ips, ip));
                assert(self.v4_map() == pre.v4_map().insert(host@, vmodel));
                if pre.wf() {
                    lemma_rotation_keeps_family(pre.v4_map()[host@].ips, ip);
                    assert(vmodel.all_v4());
                    assert(vmodel.ips.len() > 0);
                    assert forall|i2: int| 0 <= i2 < vmodel.ips.len() implies (
                    #[trigger] vmodel.ips[i2]).is_v4() == vmodel.ips[0].is_v4() by {}
                    assert(vmodel.uniform());
                    assert forall|h: Seq<u8>| #[trigger] self.v4_map().contains_key(h) implies self
                        .v4_map()[h].uniform() && self.v4_map()[h].all_v4() by {
                        if h != host@ {
                            assert(pre.v4_map().contains_key(h) && self.v4_map()[h] == pre.v4_map()[h]);
                        }
                    }
                    assert(self.v6_map() == pre.v6_map());
                    assert(forall|h: Seq<u8>|
                        #[trigger] self.v6_map().contains_key(h) ==> self.v6_map()[h].uniform()
                            && self.v6_map()[h].all_v6());
                    assert(self.wf());
                }
            }
        } else {
            let e = match lru_get(&mut self.v6, host) {
                Some(e) => e,
                None => {
                    proof {
                        if pre.wf() {
                            lemma_wf_from_maps(pre, *self);
                        }
                    }
                    return ;
                },
            };
            let idx = match find_ip(&e.ips, ip) {
                Some(i) => i,
                None => {
                    proof {
                        if pre.wf() {
                            lemma_wf_from_maps(pre, *self);
                        }
                    }
                    return ;
                },
            };
            if idx == 0 {
                proof {
                    if pre.wf() {
                        lemma_wf_from_maps(pre, *self);
                    }
                }
                return ;
            }
            let deadline = e.deadline;
            let rotated = rotate_left_vec(&e.ips, idx);
            let ghost vmodel = EntryModel { ips: rotated@, deadline };
            lru_put(&mut self.v6, host.clone(), CacheEntry { ips: rotated, deadline });
            proof {
                lemma_put_post_bindings(pre.v6_map(), pre.v6_cap(), host@, vmodel, self.v6_map());
                assert(vmodel.ips == rotated_to_front(pre.v6_map()[host@].ips, ip));
                assert(self.v6_map() == pre.v6_map().insert(host@, vmodel));
                if pre.wf() {
                    lemma_rotation_keeps_family(pre.v6_map()[host@].ips, ip);
                    assert(vmodel.all_v6());
                    assert(vmodel.ips.len() > 0);
                    assert forall|i2: int| 0 <= i2 < vmodel.ips.len() implies (
                    #[trigger] vmodel.ips[i2]).is_v4() == vmodel.ips[0].is_v4() by {}
                    assert(vmodel.uniform());
                    assert forall|h: Seq<u8>| #[trigger] self.v6_map().contains_key(h) implies self
                        .v6_map()[h].uniform() && self.v6_map()[h].all_v6() by {
                        if h != host@ {
                            assert(pre.v6_map().contains_key(h) && self.v6_map()[h] == pre.v6_map()[h]);
                        }
                    }
                    assert(self.v4_map() == pre.v4_map());
                    assert(forall|h: Seq<u8>|
                        #[trigger] self.v4_map().contains_key(h) ==> self.v4_map()[h].uniform()
                            && self.v4_map()[h].all_v4());
                    assert(self.wf());
                }
            }
        }
    }
}

/// A store whose maps agree with a well-formed store is well formed.
pub proof fn lemma_wf_from_maps(a: CacheStore, b: CacheStore)
    requires
        a.wf(),
        b.v4_map() == a.v4_map(),
        b.v6_map() == a.v6_map(),
    ensures
        b.wf(),
{
    assert forall|h: Seq<u8>| #[trigger] b.v4_map().contains_key(h) implies b.v4_map()[h].uniform()
        && b.v4_map()[h].all_v4() by {
        assert(a.v4_map().contains_key(h));
    }
    assert forall|h: Seq<u8>| #[trigger] b.v6_map().contains_key(h) implies b.v6_map()[h].uniform()
        && b.v6_map()[h].all_v6() by {
        assert(a.v6_map().contains_key(h));
    }
}

/// What feedback does to one family map: when the name's entry holds the
/// address beyond the front, the entry is replaced by its rotation (same
/// deadline); in every other case the map stands untouched.
pub open spec fn rotate_map_post(
    pre: Map<Seq<u8>, EntryModel>,
    host: Seq<u8>,
    ip: IpAddress,
    post: Map<Seq<u8>, EntryModel>,
) -> bool {
    if pre.contains_key(host) && (match index_of_ip(pre[host].ips, ip) {
        Some(i) => i > 0,
        None => false,
    }) {
        post == pre.insert(
            host,
            EntryModel { ips: rotated_to_front(pre[host].ips, ip), deadline: pre[host].deadline },
        )
    } else {
        post == pre
    }
}

/// Feedback applied twice with the same address is feedback applied once:
/// the second application finds the address already in front.
pub proof fn lemma_rotate_map_idempotent(
    pre: Map<Seq<u8>, EntryModel>,
    host: Seq<u8>,
    ip: IpAddress,
    mid: Map<Seq<u8>, EntryModel>,
    post: Map<Seq<u8>, EntryModel>,
)
    requires
        rotate_map_post(pre, host, ip, mid),
        rotate_map_post(mid, host, ip, post),
    ensures
        post == mid,
{
    lemma_index_of_ip(pre[host].ips, ip);
    if pre.contains_key(host) && (match index_of_ip(pre[host].ips, ip) {
        Some(i) => i > 0,
        None => false,
    }) {
        let s = pre[host].ips;
        let i = index_of_ip(s, ip).unwrap();
        let r = s.skip(i) + s.take(i);
        assert(mid[host].ips == r);
        assert(r[0] == s[i]);
        assert(index_of_ip(r, ip) == Some(0int));
    }
}

/// A rotated all-one-family sequence stays all that family.
proof fn lemma_rotation_keeps_family(s: Seq<IpAddress>, ip: IpAddress)
    ensures
        (forall|i: int| 0 <= i < s.len() ==> (#[trigger] s[i]).is_v4()) ==> (forall|i: int|
            0 <= i < rotated_to_front(s, ip).len() ==> (#[trigger] rotated_to_front(s, ip)[i]).is_v4()),
        (forall|i: int| 0 <= i < s.len() ==> (#[trigger] s[i]).is_v6()) ==> (forall|i: int|
            0 <= i < rotated_to_front(s, ip).len() ==> (#[trigger] rotated_to_front(s, ip)[i]).is_v6()),
        rotated_to_front(s, ip).len() == s.len(),
{
    lemma_index_of_ip(s, ip);
}

/// A put's bindings: the key maps to the put value, and every other binding
/// stood in the old map already.
proof fn lemma_put_post_bindings(
    pre: Map<Seq<u8>, EntryModel>,
    cap: nat,
    k: Seq<u8>,
    v: EntryModel,
    post: Map<Seq<u8>, EntryModel>,
)
    requires
        lru_put_post(pre, cap, k, v, post),
    ensures
        post.contains_key(k),
        post[k] == v,
        forall|h: Seq<u8>|
            #[trigger] post.contains_key(h) ==> h == k || (pre.contains_key(h) && post[h] == pre[h]),
{
    if post == pre.insert(k, v) {
    } else {
        let k2 = choose|k2: Seq<u8>|
            #[trigger] pre.contains_key(k2) && k2 != k && post == pre.remove(k2).insert(k, v);
    }
}

} // verus!
