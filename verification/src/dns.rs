//! The caching resolver: configuration loading, the literal short-circuit,
//! cache and static-hosts consultation, query planning, per-server query
//! sessions, opportunistic DoH with a failure cooldown, and cache feedback.
//!
//! All I/O stays with the caller: functions here take the current time and
//! received bytes as arguments and hand back values and decisions.

use vstd::prelude::*;

use crate::addr::{parse_ip, parse_ip_literal, views, Endpoint, IpAddress};
use crate::bytes::bytes_eq;
use crate::cache::{
    policy_expired, policy_ips, CacheEntry, CacheLookup, CacheStore, EntryModel,
};
use crate::wire::{
    check_hostname, encode_query_spec, new_query, parse_response, parse_response_spec,
    valid_hostname, AnswerData, DnsAnswer, DnsResponse, RTYPE_A, RTYPE_AAAA,
};

verus! {

/// Everything the resolver can fail with.
#[derive(Clone, Copy, Debug, PartialEq, Eq, Structural)]
pub enum DnsError {
    /// The configuration names no servers.
    NoDnsServers,
    /// A configured server is not an address literal.
    InvalidServerAddress,
    /// The name cannot be encoded as a query.
    InvalidDomainName,
    /// A response buffer the wire grammar rejects.
    ParseMessageFailed,
    /// A response code other than no-error.
    ResponseError(u8),
    /// A no-error response without usable answers.
    NoRecords,
    /// A time-to-live whose deadline cannot be represented.
    InvalidTtl,
    /// The datagram could not be sent.
    SendFailed,
    /// The socket failed while receiving.
    RecvFailed,
    /// No response within the per-attempt budget.
    RecvTimeout,
    /// Every attempt against a server was used up.
    AllAttemptsFailed,
    /// Indirect resolution without a dispatcher to route it.
    NoDispatcher,
    /// No server produced an address.
    ResolveFailed,
}

/// The resolver's part of the configuration, as plain values.
pub struct DnsConfig {
    /// Server address literals.
    pub servers: Vec<Vec<u8>>,
    /// Static overrides: name to address literals.
    pub hosts: Vec<(Vec<u8>, Vec<Vec<u8>>)>,
    /// DoH provider credentials, keyed by endpoint id.
    pub doh_keys: Vec<(Vec<u8>, Vec<u8>)>,
}

/// Process-wide switches, fixed at construction.
#[derive(Clone, Copy, Debug, PartialEq, Eq, Structural)]
pub struct DnsOptions {
    pub enable_ipv6: bool,
    pub prefer_ipv6: bool,
    /// Per-family cache capacity.
    pub cache_size: usize,
    /// Per-attempt receive budget, in seconds.
    pub timeout_secs: u64,
    /// Attempts per server per query.
    pub max_retries: u32,
}

pub open spec fn servers_parse_ok(ss: Seq<Seq<u8>>) -> bool {
    forall|i: int| 0 <= i < ss.len() ==> parse_ip(#[trigger] ss[i]) is Some
}

/// The endpoints a well-formed server list stands for: each literal with the
/// standard DNS port.
pub open spec fn parsed_endpoints(ss: Seq<Seq<u8>>) -> Seq<Endpoint> {
    Seq::new(ss.len(), |i: int| Endpoint { ip: parse_ip(ss[i]).unwrap(), port: 53 })
}

/// Parses the configured servers. Every entry must be an address literal,
/// and at least one server must be named.
pub fn load_servers(servers: &Vec<Vec<u8>>) -> (r: Result<Vec<Endpoint>, DnsError>)
    ensures
        (match r {
            Ok(v) => servers@.len() > 0 && servers_parse_ok(views(servers@)) && v@
                == parsed_endpoints(views(servers@)),
            Err(DnsError::InvalidServerAddress) => !servers_parse_ok(views(servers@)),
            Err(DnsError::NoDnsServers) => servers@.len() == 0,
            Err(_) => false,
        }),
{
    let mut out: Vec<Endpoint> = Vec::new();
    let mut i: usize = 0;
    while i < servers.len()
        invariant
            0 <= i <= servers@.len(),
            out@.len() == i,
            forall|j: int| 0 <= j < i ==> parse_ip(#[trigger] views(servers@)[j]) is Some,
            forall|j: int|
                0 <= j < i ==> #[trigger] out@[j] == (Endpoint {
                    ip: parse_ip(views(servers@)[j]).unwrap(),
                    port: 53,
                }),
        decreases servers@.len() - i,
    {
        proof {
            assert(views(servers@)[i as int] == servers@[i as int]@);
        }
        match parse_ip_literal(&servers[i]) {
            Some(ip) => {
                out.push(Endpoint { ip, port: 53 });
            },
            None => {
                return Err(DnsError::InvalidServerAddress);
            },
        }
        i = i + 1;
    }
    if out.len() == 0 {
        return Err(DnsError::NoDnsServers);
    }
    proof {
        assert(out@ =~= parsed_endpoints(views(servers@)));
    }
    Ok(out)
}

/// The addresses among a list of literals, in order, unparseable ones
/// dropped.
pub open spec fn parsed_ips(ss: Seq<Seq<u8>>) -> Seq<IpAddress>
    decreases ss.len(),
{
    if ss.len() == 0 {
        Seq::<IpAddress>::empty()
    } else {
        parsed_ips(ss.drop_last()) + (match parse_ip(ss.last()) {
            Some(ip) => seq![ip],
            None => Seq::<IpAddress>::empty(),
        })
    }
}

fn parse_ip_list(ss: &Vec<Vec<u8>>) -> (r: Vec<IpAddress>)
    ensures
        r@ == parsed_ips(views(ss@)),
{
    let mut out: Vec<IpAddress> = Vec::new();
    let mut i: usize = 0;
    proof {
        assert(views(ss@).take(0int) =~= Seq::<Seq<u8>>::empty());
    }
    while i < ss.len()
        invariant
            0 <= i <= ss@.len(),
            out@ == parsed_ips(views(ss@).take(i as int)),
        decreases ss@.len() - i,
    {
        proof {
            assert(views(ss@).take(i + 1int).drop_last() =~= views(ss@).take(i as int));
            assert(views(ss@)[i as int] == ss@[i as int]@);
        }
        match parse_ip_literal(&ss[i]) {
            Some(ip) => {
                out.push(ip);
                proof {
                    assert(out@ =~= parsed_ips(views(ss@).take(i + 1int)));
                }
            },
            None => {
                proof {
                    assert(out@ =~= parsed_ips(views(ss@).take(i + 1int)));
                }
            },
        }
        i = i + 1;
    }
    proof {
        assert(views(ss@).take(ss@.len() as int) =~= views(ss@));
    }
    out
}

/// What the static-hosts table holds for each configured name.
pub open spec fn hosts_model_ok(
    cfg_hosts: Seq<(Vec<u8>, Vec<Vec<u8>>)>,
    out: Seq<(Vec<u8>, Vec<IpAddress>)>,
) -> bool {
    out.len() == cfg_hosts.len() && (forall|i: int|
        0 <= i < out.len() ==> (#[trigger] out[i]).0@ == cfg_hosts[i].0@ && out[i].1@ == parsed_ips(
            views(cfg_hosts[i].1@),
        ))
}

/// Parses the static hosts, keeping each name with the literals among its
/// addresses.
pub fn load_hosts(hosts: &Vec<(Vec<u8>, Vec<Vec<u8>>)>) -> (r: Vec<(Vec<u8>, Vec<IpAddress>)>)
    ensures
        hosts_model_ok(hosts@, r@),
{
    let mut out: Vec<(Vec<u8>, Vec<IpAddress>)> = Vec::new();
    let mut i: usize = 0;
    while i < hosts.len()
        invariant
            0 <= i <= hosts@.len(),
            out@.len() == i,
            forall|j: int|
                0 <= j < i ==> (#[trigger] out@[j]).0@ == hosts@[j].0@ && out@[j].1@ == parsed_ips(
                    views(hosts@[j].1@),
                ),
        decreases hosts@.len() - i,
    {
        let name = hosts[i].0.clone();
        let ips = parse_ip_list(&hosts[i].1);
        proof {
            assert(name@ == hosts@[i as int].0@);
        }
        out.push((name, ips));
        i = i + 1;
    }
    out
}

/// The first entry for a name, when its address list is non-empty.
pub open spec fn hosts_found(
    hosts: Seq<(Vec<u8>, Vec<IpAddress>)>,
    host: Seq<u8>,
) -> Option<Seq<IpAddress>>
    decreases hosts.len(),
{
    if hosts.len() == 0 {
        None
    } else if hosts[0].0@ == host {
        if hosts[0].1@.len() > 0 {
            Some(hosts[0].1@)
        } else {
            None
        }
    } else {
        hosts_found(hosts.drop_first(), host)
    }
}

fn find_host(hosts: &Vec<(Vec<u8>, Vec<IpAddress>)>, host: &Vec<u8>) -> (r: Option<Vec<IpAddress>>)
    ensures
        (match r {
            Some(ips) => hosts_found(hosts@, host@) == Some(ips@),
            None => hosts_found(hosts@, host@) is None,
        }),
{
    let mut i: usize = 0;
    proof {
        assert(hosts@.skip(0int) =~= hosts@);
    }
    while i < hosts.len()
        invariant
            0 <= i <= hosts@.len(),
            hosts_found(hosts@, host@) == hosts_found(hosts@.skip(i as int), host@),
        decreases hosts@.len() - i,
    {
        proof {
            assert(hosts@.skip(i as int)[0] == hosts@[i as int]);
            assert(hosts@.skip(i as int).drop_first() =~= hosts@.skip(i + 1int));
        }
        if bytes_eq(&hosts[i].0, host) {
            if hosts[i].1.len() > 0 {
                return Some(hosts[i].1.clone());
            } else {
                return None;
            }
        }
        i = i + 1;
    }
    None
}

/// Pairs of byte strings agree entry by entry.
pub open spec fn pairs_model(a: Seq<(Vec<u8>, Vec<u8>)>, b: Seq<(Vec<u8>, Vec<u8>)>) -> bool {
    a.len() == b.len() && (forall|i: int|
        0 <= i < a.len() ==> (#[trigger] a[i]).0@ == b[i].0@ && a[i].1@ == b[i].1@)
}

fn copy_pairs(v: &Vec<(Vec<u8>, Vec<u8>)>) -> (r: Vec<(Vec<u8>, Vec<u8>)>)
    ensures
        pairs_model(r@, v@),
{
    let mut out: Vec<(Vec<u8>, Vec<u8>)> = Vec::new();
    let mut i: usize = 0;
    while i < v.len()
        invariant
            0 <= i <= v@.len(),
            out@.len() == i,
            forall|j: int|
                0 <= j < i ==> (#[trigger] out@[j]).0@ == v@[j].0@ && out@[j].1@ == v@[j].1@,
        decreases v@.len() - i,
    {
        out.push((v[i].0.clone(), v[i].1.clone()));
        i = i + 1;
    }
    out
}

/// The caching resolver's state: servers, static hosts, the two family
/// caches, the DoH cooldown record and credentials, whether a dispatcher is
/// attached for indirect resolution, and the fixed switches.
pub struct DnsClient {
    pub servers: Vec<Endpoint>,
    pub hosts: Vec<(Vec<u8>, Vec<IpAddress>)>,
    pub store: CacheStore,
    /// Instants (milliseconds) of recent DoH failures.
    pub doh_cooldown: Vec<u64>,
    pub doh_keys: Vec<(Vec<u8>, Vec<u8>)>,
    pub has_dispatcher: bool,
    pub opts: DnsOptions,
}

impl DnsClient {
    /// Builds a resolver from configuration. Fails on an empty server list
    /// or a server that is no address literal.
    pub fn new(cfg: &DnsConfig, opts: DnsOptions) -> (r: Result<DnsClient, DnsError>)
        requires
            opts.cache_size >= 1,
        ensures
            (match r {
                Ok(c) => {
                    &&& cfg.servers@.len() > 0
                    &&& servers_parse_ok(views(cfg.servers@))
                    &&& c.servers@ == parsed_endpoints(views(cfg.servers@))
                    &&& hosts_model_ok(cfg.hosts@, c.hosts@)
                    &&& c.store.wf()
                    &&& c.store.bounded()
                    &&& c.store.v4_map() == crate::lru_store::no_contents()
                    &&& c.store.v6_map() == crate::lru_store::no_contents()
                    &&& c.store.v4_cap() == opts.cache_size as nat
                    &&& c.store.v6_cap() == opts.cache_size as nat
                    &&& c.doh_cooldown@.len() == 0
                    &&& pairs_model(c.doh_keys@, cfg.doh_keys@)
                    &&& !c.has_dispatcher
                    &&& c.opts == opts
                },
                Err(DnsError::InvalidServerAddress) => !servers_parse_ok(views(cfg.servers@)),
                Err(DnsError::NoDnsServers) => cfg.servers@.len() == 0,
                Err(_) => false,
            }),
    {
        let servers = match load_servers(&cfg.servers) {
            Ok(v) => v,
            Err(e) => {
                return Err(e);
            },
        };
        let hosts = load_hosts(&cfg.hosts);
        let doh_keys = copy_pairs(&cfg.doh_keys);
        Ok(
            DnsClient {
                servers,
                hosts,
                store: CacheStore::new(opts.cache_size),
                doh_cooldown: Vec::new(),
                doh_keys,
                has_dispatcher: false,
                opts,
            },
        )
    }

    /// Attaches the dispatcher used to route indirect queries.
    pub fn replace_dispatcher(&mut self)
        ensures
            final(self).has_dispatcher,
            final(self).servers == old(self).servers,
            final(self).hosts == old(self).hosts,
            final(self).store == old(self).store,
            final(self).doh_cooldown == old(self).doh_cooldown,
            final(self).doh_keys == old(self).doh_keys,
            final(self).opts == old(self).opts,
    {
        self.has_dispatcher = true;
    }

    /// Replaces servers and static hosts from a new configuration; on any
    /// error the resolver stands unchanged. Caches survive a reload.
    pub fn reload(&mut self, cfg: &DnsConfig) -> (r: Result<(), DnsError>)
        ensures
            (match r {
                Ok(()) => {
                    &&& cfg.servers@.len() > 0
                    &&& servers_parse_ok(views(cfg.servers@))
                    &&& final(self).servers@ == parsed_endpoints(views(cfg.servers@))
                    &&& hosts_model_ok(cfg.hosts@, final(self).hosts@)
                    &&& final(self).store == old(self).store
                    &&& final(self).doh_cooldown == old(self).doh_cooldown
                    &&& final(self).doh_keys == old(self).doh_keys
                    &&& final(self).has_dispatcher == old(self).has_dispatcher
                    &&& final(self).opts == old(self).opts
                },
                Err(DnsError::InvalidServerAddress) => !servers_parse_ok(views(cfg.servers@))
                    && *final(self) == *old(self),
                Err(DnsError::NoDnsServers) => cfg.servers@.len() == 0 && *final(self) == *old(
                    self,
                ),
                Err(_) => false,
            }),
    {
        let servers = match load_servers(&cfg.servers) {
            Ok(v) => v,
            Err(e) => {
                return Err(e);
            },
        };
        let hosts = load_hosts(&cfg.hosts);
        self.servers = servers;
        self.hosts = hosts;
        Ok(())
    }
}

/// The addresses among a response's answers, in server order.
pub open spec fn collected_addrs(answers: Seq<DnsAnswer>) -> Seq<IpAddress>
    decreases answers.len(),
{
    if answers.len() == 0 {
        Seq::<IpAddress>::empty()
    } else {
        collected_addrs(answers.drop_last()) + (match answers.last().data {
            AnswerData::Ip(ip) => seq![ip],
            AnswerData::Other => Seq::<IpAddress>::empty(),
        })
    }
}

fn collect_addrs(answers: &Vec<DnsAnswer>) -> (r: Vec<IpAddress>)
    ensures
        r@ == collected_addrs(answers@),
{
    let mut out: Vec<IpAddress> = Vec::new();
    let mut i: usize = 0;
    proof {
        assert(answers@.take(0int) =~= Seq::<DnsAnswer>::empty());
    }
    while i < answers.len()
        invariant
            0 <= i <= answers@.len(),
            out@ == collected_addrs(answers@.take(i as int)),
        decreases answers@.len() - i,
    {
        proof {
            assert(answers@.take(i + 1int).drop_last() =~= answers@.take(i as int));
        }
        match answers[i].data {
            AnswerData::Ip(ip) => {
                out.push(ip);
                proof {
                    assert(out@ =~= collected_addrs(answers@.take(i + 1int)));
                }
            },
            AnswerData::Other => {
                proof {
                    assert(out@ =~= collected_addrs(answers@.take(i + 1int)));
                }
            },
        }
        i = i + 1;
    }
    proof {
        assert(answers@.take(answers@.len() as int) =~= answers@);
    }
    out
}

/// Turns a no-error response with usable answers into a cache entry whose
/// deadline is `now` plus the first answer's time-to-live.
pub fn evaluate_response(resp: &DnsResponse, now: u64) -> (r: Result<CacheEntry, DnsError>)
    ensures
        (match r {
            Ok(e) => {
                &&& resp.rcode == 0
                &&& collected_addrs(resp.answers@).len() > 0
                &&& e@.ips == collected_addrs(resp.answers@)
                &&& now + resp.answers@[0].ttl * 1000 <= u64::MAX
                &&& e@.deadline == now + resp.answers@[0].ttl * 1000
            },
            Err(DnsError::ResponseError(c)) => c == resp.rcode && resp.rcode != 0,
            Err(DnsError::NoRecords) => resp.rcode == 0 && collected_addrs(resp.answers@).len()
                == 0,
            Err(DnsError::InvalidTtl) => resp.rcode == 0 && collected_addrs(resp.answers@).len()
                > 0 && now + resp.answers@[0].ttl * 1000 > u64::MAX,
            Err(_) => false,
        }),
{
    if resp.rcode != 0 {
        return Err(DnsError::ResponseError(resp.rcode));
    }
    let ips = collect_addrs(&resp.answers);
    if ips.len() == 0 {
        return Err(DnsError::NoRecords);
    }
    let ttl_ms: u64 = (resp.answers[0].ttl as u64) * 1000;
    if now > u64::MAX - ttl_ms {
        return Err(DnsError::InvalidTtl);
    }
    Ok(CacheEntry { ips, deadline: now + ttl_ms })
}

/// What happened during one attempt against one server.
pub enum QueryEvent {
    /// The datagram could not be sent.
    SendFailed,
    /// The socket failed while receiving.
    RecvFailed,
    /// The per-attempt budget ran out.
    RecvTimedOut,
    /// A datagram came back.
    Received(Vec<u8>),
}

/// What the session asks the caller to do next.
pub enum QueryVerdict {
    /// Try the same server again.
    Retry,
    /// The lookup succeeded with this entry.
    Done(CacheEntry),
    /// The lookup failed for good on this server.
    Failed(DnsError),
}

/// The retry state of one single-server query: how many attempts remain and
/// the last error seen.
pub struct QuerySession {
    pub attempts_left: u32,
    pub last_err: Option<DnsError>,
}

impl QuerySession {
    pub fn new(max_retries: u32) -> (r: QuerySession)
        ensures
            r.attempts_left == max_retries,
            r.last_err is None,
    {
        QuerySession { attempts_left: max_retries, last_err: None }
    }

    /// Whether another send is allowed.
    pub fn can_attempt(&self) -> (r: bool)
        ensures
            r == (self.attempts_left > 0),
    {
        self.attempts_left > 0
    }

    /// The error surfaced when the attempts are used up: the last one
    /// remembered, or the generic exhaustion error when nothing was tried.
    pub fn final_error(&self) -> (r: DnsError)
        ensures
            r == (match self.last_err {
                Some(e) => e,
                None => DnsError::AllAttemptsFailed,
            }),
    {
        match self.last_err {
            Some(e) => e,
            None => DnsError::AllAttemptsFailed,
        }
    }

    /// Feeds one attempt's outcome into the session. Transient failures
    /// (send, receive, timeout) consume the attempt and ask for a retry; a
    /// received datagram settles the query: a malformed buffer, an error
    /// code, an answerless response and an unrepresentable deadline stop
    /// without retry, anything else succeeds.
    pub fn on_event(&mut self, ev: QueryEvent, now: u64) -> (r: QueryVerdict)
        requires
            old(self).attempts_left > 0,
        ensures
            (match ev {
                QueryEvent::SendFailed => final(self).attempts_left == old(self).attempts_left - 1
                    && final(self).last_err == Some(DnsError::SendFailed) && r is Retry,
                QueryEvent::RecvFailed => final(self).attempts_left == old(self).attempts_left - 1
                    && final(self).last_err == Some(DnsError::RecvFailed) && r is Retry,
                QueryEvent::RecvTimedOut => final(self).attempts_left == old(self).attempts_left
                    - 1 && final(self).last_err == Some(DnsError::RecvTimeout) && r is Retry,
                QueryEvent::Received(buf) => *final(self) == *old(self) && (match r {
                    QueryVerdict::Retry => false,
                    QueryVerdict::Done(e) => {
                        &&& parse_response_spec(buf@) is Some
                        &&& {
                            let resp = parse_response_spec(buf@).unwrap();
                            &&& resp.1 == 0
                            &&& collected_addrs(resp.2).len() > 0
                            &&& e@.ips == collected_addrs(resp.2)
                            &&& e@.deadline == now + resp.2[0].ttl * 1000
                        }
                    },
                    QueryVerdict::Failed(err) => (match parse_response_spec(buf@) {
                        None => err == DnsError::ParseMessageFailed,
                        Some(resp) => (err == DnsError::ResponseError(resp.1) && resp.1 != 0) || (
                        err == DnsError::NoRecords && resp.1 == 0 && collected_addrs(resp.2).len()
                            == 0) || (err == DnsError::InvalidTtl && resp.1 == 0
                            && collected_addrs(resp.2).len() > 0 && now + resp.2[0].ttl * 1000
                            > u64::MAX),
                    }),
                }),
            }),
    {
        match ev {
            QueryEvent::SendFailed => {
                self.attempts_left = self.attempts_left - 1;
                self.last_err = Some(DnsError::SendFailed);
                QueryVerdict::Retry
            },
            QueryEvent::RecvFailed => {
                self.attempts_left = self.attempts_left - 1;
                self.last_err = Some(DnsError::RecvFailed);
                QueryVerdict::Retry
            },
            QueryEvent::RecvTimedOut => {
                self.attempts_left = self.attempts_left - 1;
                self.last_err = Some(DnsError::RecvTimeout);
                QueryVerdict::Retry
            },
            QueryEvent::Received(buf) => {
                let resp = match parse_response(&buf) {
                    Some(resp) => resp,
                    None => {
                        return QueryVerdict::Failed(DnsError::ParseMessageFailed);
                    },
                };
                match evaluate_response(&resp, now) {
                    Ok(e) => QueryVerdict::Done(e),
                    Err(err) => QueryVerdict::Failed(err),
                }
            },
        }
    }
}

/// The record types to query, in policy order: the preferred family's type
/// first when v6 is enabled, the v4 type alone otherwise.
pub open spec fn policy_qtypes(enable_ipv6: bool, prefer_ipv6: bool) -> Seq<u16> {
    if enable_ipv6 && prefer_ipv6 {
        seq![RTYPE_AAAA, RTYPE_A]
    } else if enable_ipv6 {
        seq![RTYPE_A, RTYPE_AAAA]
    } else {
        seq![RTYPE_A]
    }
}

/// A planned query fan-out: the name and the record types to resolve.
pub struct QueryPlan {
    pub host: Vec<u8>,
    pub qtypes: Vec<u16>,
}

/// What a lookup asks for next.
pub enum LookupStep {
    /// Addresses, settled locally.
    Resolved(Vec<IpAddress>),
    /// Direct path: try the DoH probe, then continue.
    NeedDoh,
    /// Fan the planned queries out over the servers.
    NeedQuery(QueryPlan),
    /// The lookup fails here.
    Failed(DnsError),
}

/// The mathematical content of a lookup step.
pub enum LookupStepModel {
    Resolved(Seq<IpAddress>),
    NeedDoh,
    NeedQuery(Seq<u8>, Seq<u16>),
    Failed(DnsError),
}

impl View for LookupStep {
    type V = LookupStepModel;

    open spec fn view(&self) -> LookupStepModel {
        match self {
            LookupStep::Resolved(ips) => LookupStepModel::Resolved(ips@),
            LookupStep::NeedDoh => LookupStepModel::NeedDoh,
            LookupStep::NeedQuery(p) => LookupStepModel::NeedQuery(p.host@, p.qtypes@),
            LookupStep::Failed(e) => LookupStepModel::Failed(*e),
        }
    }
}

/// Whether the caches settle the lookup: nothing consulted expired, and the
/// policy's read is non-empty.
pub open spec fn cache_hit(c: DnsClient, host: Seq<u8>, now: u64) -> bool {
    !policy_expired(c.store.v4_map(), c.store.v6_map(), host, c.opts.enable_ipv6, now)
        && policy_ips(
        c.store.v4_map(),
        c.store.v6_map(),
        host,
        c.opts.enable_ipv6,
        c.opts.prefer_ipv6,
    ).len() > 0
}

/// The deadline of a promoted static-hosts entry: 6000 seconds out, capped
/// at the representable maximum.
pub open spec fn capped_deadline(now: u64) -> u64 {
    if now > u64::MAX - 6000000 {
        u64::MAX
    } else {
        (now + 6000000) as u64
    }
}

/// The local continuation once literal, cache and DoH are behind: a static
/// hosts match wins; otherwise a valid name becomes a query plan and an
/// invalid one fails. When the queries would have to be routed through the
/// dispatcher (the non-direct path), a resolver without one fails here.
pub open spec fn local_decision(c: DnsClient, host: Seq<u8>, require_dispatcher: bool) -> LookupStepModel {
    match hosts_found(c.hosts@, host) {
        Some(ips) => LookupStepModel::Resolved(ips),
        None => if !valid_hostname(host) {
            LookupStepModel::Failed(DnsError::InvalidDomainName)
        } else if require_dispatcher && !c.has_dispatcher {
            LookupStepModel::Failed(DnsError::NoDispatcher)
        } else {
            LookupStepModel::NeedQuery(host, policy_qtypes(c.opts.enable_ipv6, c.opts.prefer_ipv6))
        },
    }
}

/// What a lookup step decides, over the resolver's state before the call.
pub open spec fn lookup_decision(
    c: DnsClient,
    host: Seq<u8>,
    is_direct: bool,
    now: u64,
) -> LookupStepModel {
    match parse_ip(host) {
        Some(ip) => LookupStepModel::Resolved(seq![ip]),
        None => if cache_hit(c, host, now) {
            LookupStepModel::Resolved(
                policy_ips(
                    c.store.v4_map(),
                    c.store.v6_map(),
                    host,
                    c.opts.enable_ipv6,
                    c.opts.prefer_ipv6,
                ),
            )
        } else if is_direct {
            LookupStepModel::NeedDoh
        } else {
            local_decision(c, host, true)
        },
    }
}

/// Whether the local continuation promotes a static-hosts entry into the
/// cache: only a match with more than one address is promoted, so that later
/// rotation can reorder it.
pub open spec fn promotes_hosts_entry(c: DnsClient, host: Seq<u8>) -> bool {
    match hosts_found(c.hosts@, host) {
        Some(ips) => ips.len() > 1,
        None => false,
    }
}

/// How the store changes across the local continuation.
pub open spec fn continue_store_post(
    pre: DnsClient,
    host: Seq<u8>,
    now: u64,
    post: CacheStore,
) -> bool {
    if promotes_hosts_entry(pre, host) {
        CacheStore::insert_post(
            pre.store,
            host,
            EntryModel { ips: hosts_found(pre.hosts@, host).unwrap(), deadline: capped_deadline(now) },
            post,
        )
    } else {
        post.v4_map() == pre.store.v4_map() && post.v6_map() == pre.store.v6_map() && post.v4_cap()
            == pre.store.v4_cap() && post.v6_cap() == pre.store.v6_cap()
    }
}

/// How the store changes across a whole lookup step.
pub open spec fn lookup_store_post(
    pre: DnsClient,
    host: Seq<u8>,
    is_direct: bool,
    now: u64,
    post: CacheStore,
) -> bool {
    if parse_ip(host) is None && !cache_hit(pre, host, now) && !is_direct {
        continue_store_post(pre, host, now, post)
    } else {
        post.v4_map() == pre.store.v4_map() && post.v6_map() == pre.store.v6_map() && post.v4_cap()
            == pre.store.v4_cap() && post.v6_cap() == pre.store.v6_cap()
    }
}

impl DnsClient {
    /// The lookup steps after the literal short-circuit, the cache and the
    /// DoH probe: static hosts, then a query plan. A static match with more
    /// than one address is also promoted into the cache with a long
    /// deadline, so later feedback can reorder it. With `require_dispatcher`
    /// (the non-direct path, whose queries are routed through the
    /// dispatcher), a resolver without a dispatcher fails instead of
    /// planning queries.
    pub fn lookup_continue(&mut self, host: &Vec<u8>, require_dispatcher: bool, now: u64) -> (r: LookupStep)
        ensures
            r@ == local_decision(*old(self), host@, require_dispatcher),
            continue_store_post(*old(self), host@, now, final(self).store),
            old(self).store.wf() ==> final(self).store.wf(),
            old(self).store.bounded() ==> final(self).store.bounded(),
            final(self).servers == old(self).servers,
            final(self).hosts == old(self).hosts,
            final(self).doh_cooldown == old(self).doh_cooldown,
            final(self).doh_keys == old(self).doh_keys,
            final(self).has_dispatcher == old(self).has_dispatcher,
            final(self).opts == old(self).opts,
    {
        match find_host(&self.hosts, host) {
            Some(ips) => {
                if ips.len() > 1 {
                    let deadline: u64 = if now > u64::MAX - 6000000 {
                        u64::MAX
                    } else {
                        now + 6000000
                    };
                    self.store.insert(host, CacheEntry { ips: ips.clone(), deadline });
                }
                LookupStep::Resolved(ips)
            },
            None => {
                if !check_hostname(host) {
                    return LookupStep::Failed(DnsError::InvalidDomainName);
                }
                if require_dispatcher && !self.has_dispatcher {
                    return LookupStep::Failed(DnsError::NoDispatcher);
                }
                let mut qtypes: Vec<u16> = Vec::new();
                if self.opts.enable_ipv6 && self.opts.prefer_ipv6 {
                    qtypes.push(RTYPE_AAAA);
                    qtypes.push(RTYPE_A);
                } else if self.opts.enable_ipv6 {
                    qtypes.push(RTYPE_A);
                    qtypes.push(RTYPE_AAAA);
                } else {
                    qtypes.push(RTYPE_A);
                }
                proof {
                    assert(qtypes@ =~= policy_qtypes(
                        self.opts.enable_ipv6,
                        self.opts.prefer_ipv6,
                    ));
                }
                LookupStep::NeedQuery(QueryPlan { host: host.clone(), qtypes })
            },
        }
    }

    /// One lookup step: a literal address wins at once with no other effect;
    /// a fresh cached result wins next; an expired consulted entry makes the
    /// name count as un-cached and the lookup moves on. The direct path then
    /// asks for the DoH probe; otherwise static hosts and the query plan
    /// settle it.
    pub fn _lookup(&mut self, host: &Vec<u8>, is_direct: bool, now: u64) -> (r: LookupStep)
        ensures
            r@ == lookup_decision(*old(self), host@, is_direct, now),
            lookup_store_post(*old(self), host@, is_direct, now, final(self).store),
            old(self).store.wf() ==> final(self).store.wf(),
            old(self).store.bounded() ==> final(self).store.bounded(),
            final(self).servers == old(self).servers,
            final(self).hosts == old(self).hosts,
            final(self).doh_cooldown == old(self).doh_cooldown,
            final(self).doh_keys == old(self).doh_keys,
            final(self).has_dispatcher == old(self).has_dispatcher,
            final(self).opts == old(self).opts,
    {
        let ghost pre = *self;
        match parse_ip_literal(host) {
            Some(ip) => {
                let mut one: Vec<IpAddress> = Vec::new();
                one.push(ip);
                proof {
                    assert(one@ =~= seq![ip]);
                }
                return LookupStep::Resolved(one);
            },
            None => {},
        }
        match self.store.get_cached(host, self.opts.enable_ipv6, self.opts.prefer_ipv6, now) {
            CacheLookup::Hit(ips) => {
                proof {
                    if pre.store.wf() {
                        crate::cache::lemma_wf_from_maps(pre.store, self.store);
                    }
                }
                return LookupStep::Resolved(ips);
            },
            _ => {},
        }
        proof {
            if pre.store.wf() {
                crate::cache::lemma_wf_from_maps(pre.store, self.store);
            }
        }
        if is_direct {
            return LookupStep::NeedDoh;
        }
        let r = self.lookup_continue(host, true, now);
        proof {
            if pre.store.wf() {
                assert(final(self).store.wf());
            }
        }
        r
    }

    /// Resolves through the normal path (queries routed via the dispatcher).
    pub fn lookup(&mut self, host: &Vec<u8>, now: u64) -> (r: LookupStep)
        ensures
            r@ == lookup_decision(*old(self), host@, false, now),
            lookup_store_post(*old(self), host@, false, now, final(self).store),
            old(self).store.wf() ==> final(self).store.wf(),
            old(self).store.bounded() ==> final(self).store.bounded(),
            final(self).servers == old(self).servers,
            final(self).hosts == old(self).hosts,
            final(self).doh_cooldown == old(self).doh_cooldown,
            final(self).doh_keys == old(self).doh_keys,
            final(self).has_dispatcher == old(self).has_dispatcher,
            final(self).opts == old(self).opts,
    {
        self._lookup(host, false, now)
    }

    /// Resolves directly (sockets bound locally, DoH allowed first).
    pub fn direct_lookup(&mut self, host: &Vec<u8>, now: u64) -> (r: LookupStep)
        ensures
            r@ == lookup_decision(*old(self), host@, true, now),
            lookup_store_post(*old(self), host@, true, now, final(self).store),
            old(self).store.wf() ==> final(self).store.wf(),
            old(self).store.bounded() ==> final(self).store.bounded(),
            final(self).servers == old(self).servers,
            final(self).hosts == old(self).hosts,
            final(self).doh_cooldown == old(self).doh_cooldown,
            final(self).doh_keys == old(self).doh_keys,
            final(self).has_dispatcher == old(self).has_dispatcher,
            final(self).opts == old(self).opts,
    {
        self._lookup(host, true, now)
    }
}

/// Literal short-circuit: for a literal address the lookup step resolves to
/// that address alone, and it neither writes a cache nor plans any query or
/// probe.
pub proof fn lemma_literal_short_circuit(
    c: DnsClient,
    host: Seq<u8>,
    is_direct: bool,
    now: u64,
    ip: IpAddress,
    post: CacheStore,
)
    requires
        parse_ip(host) == Some(ip),
        lookup_store_post(c, host, is_direct, now, post),
    ensures
        lookup_decision(c, host, is_direct, now) == LookupStepModel::Resolved(seq![ip]),
        post.v4_map() == c.store.v4_map(),
        post.v6_map() == c.store.v6_map(),
{
}

/// Expiry: once any consulted entry's deadline has passed, the cache settles
/// nothing — the lookup step never returns the cached addresses, and the
/// name counts as un-cached.
pub proof fn lemma_expiry(c: DnsClient, host: Seq<u8>, now: u64)
    requires
        policy_expired(c.store.v4_map(), c.store.v6_map(), host, c.opts.enable_ipv6, now),
    ensures
        !cache_hit(c, host, now),
{
}

/// The endpoint id whose credential enables the DoH probe.
pub open spec fn doh_key_name() -> Seq<u8> {
    seq![0x31u8, 0x2e, 0x31, 0x2e, 0x31, 0x2e, 0x31]
}

/// Whether a credential for the DoH endpoint is configured.
pub open spec fn doh_active(keys: Seq<(Vec<u8>, Vec<u8>)>) -> bool {
    exists|i: int| 0 <= i < keys.len() && (#[trigger] keys[i]).0@ == doh_key_name()
}

/// The addresses among DoH answer data, in answer order, unparseable data
/// dropped.
pub open spec fn doh_ips(answers: Seq<(Vec<u8>, u64)>) -> Seq<IpAddress>
    decreases answers.len(),
{
    if answers.len() == 0 {
        Seq::<IpAddress>::empty()
    } else {
        doh_ips(answers.drop_last()) + (match parse_ip(answers.last().0@) {
            Some(ip) => seq![ip],
            None => Seq::<IpAddress>::empty(),
        })
    }
}

/// What a DoH reply yields: an entry whose deadline is `now` plus the last
/// answer's time-to-live, or nothing for a failed transport, an empty or
/// unusable answer set, or an unrepresentable deadline.
pub open spec fn doh_outcome(answers: Option<Vec<(Vec<u8>, u64)>>, now: u64) -> Option<
    EntryModel,
> {
    match answers {
        None => None,
        Some(v) => if v@.len() == 0 {
            None
        } else {
            let ips = doh_ips(v@);
            let ttl = v@.last().1;
            if ips.len() == 0 {
                None
            } else if ttl > u64::MAX / 1000 || now > u64::MAX - ttl * 1000 {
                None
            } else {
                Some(EntryModel { ips, deadline: (now + ttl * 1000) as u64 })
            }
        },
    }
}

impl DnsClient {
    /// Whether the DoH probe is configured at all.
    pub fn doh_enabled(&self) -> (r: bool)
        ensures
            r == doh_active(self.doh_keys@),
    {
        let key: Vec<u8> = vec![0x31, 0x2e, 0x31, 0x2e, 0x31, 0x2e, 0x31];
        proof {
            assert(key@ =~= doh_key_name());
        }
        let mut i: usize = 0;
        while i < self.doh_keys.len()
            invariant
                0 <= i <= self.doh_keys@.len(),
                key@ == doh_key_name(),
                forall|j: int| 0 <= j < i ==> (#[trigger] self.doh_keys@[j]).0@ != doh_key_name(),
            decreases self.doh_keys@.len() - i,
        {
            if bytes_eq(&self.doh_keys[i].0, &key) {
                return true;
            }
            i = i + 1;
        }
        false
    }

    /// The cooldown gate before a DoH probe: a failure recorded within the
    /// past three seconds keeps the probe off; otherwise the record is
    /// cleared and the probe may go ahead.
    pub fn doh_gate(&mut self, now: u64) -> (r: bool)
        ensures
            final(self).servers == old(self).servers,
            final(self).hosts == old(self).hosts,
            final(self).store == old(self).store,
            final(self).doh_keys == old(self).doh_keys,
            final(self).has_dispatcher == old(self).has_dispatcher,
            final(self).opts == old(self).opts,
            (if old(self).doh_cooldown@.len() == 0 {
                r && final(self).doh_cooldown == old(self).doh_cooldown
            } else {
                let last = old(self).doh_cooldown@.last();
                if now >= last && now - last >= 3000 {
                    r && final(self).doh_cooldown@.len() == 0
                } else {
                    !r && final(self).doh_cooldown == old(self).doh_cooldown
                }
            }),
    {
        if self.doh_cooldown.len() > 0 {
            let last = self.doh_cooldown[self.doh_cooldown.len() - 1];
            if now < last || now - last < 3000 {
                return false;
            }
            self.doh_cooldown.clear();
        }
        true
    }

    /// Takes the DoH transport's outcome: a usable reply becomes a cache
    /// entry, inserted and returned; any failure is recorded in the cooldown
    /// and yields nothing, and the lookup then continues elsewhere.
    pub fn doh_result(
        &mut self,
        host: &Vec<u8>,
        answers: Option<Vec<(Vec<u8>, u64)>>,
        now: u64,
    ) -> (r: Option<Vec<IpAddress>>)
        ensures
            final(self).servers == old(self).servers,
            final(self).hosts == old(self).hosts,
            final(self).doh_keys == old(self).doh_keys,
            final(self).has_dispatcher == old(self).has_dispatcher,
            final(self).opts == old(self).opts,
            old(self).store.wf() ==> final(self).store.wf(),
            old(self).store.bounded() ==> final(self).store.bounded(),
            (match doh_outcome(answers, now) {
                Some(em) => {
                    &&& (match r {
                        Some(ips) => ips@ == em.ips,
                        None => false,
                    })
                    &&& CacheStore::insert_post(old(self).store, host@, em, final(self).store)
                    &&& final(self).doh_cooldown == old(self).doh_cooldown
                },
                None => {
                    &&& r is None
                    &&& final(self).store == old(self).store
                    &&& final(self).doh_cooldown@ == old(self).doh_cooldown@.push(now)
                },
            }),
    {
        let v = match answers {
            Some(v) => v,
            None => {
                self.doh_cooldown.push(now);
                return None;
            },
        };
        if v.len() == 0 {
            self.doh_cooldown.push(now);
            return None;
        }
        let mut ips: Vec<IpAddress> = Vec::new();
        let mut i: usize = 0;
        proof {
            assert(v@.take(0int) =~= Seq::<(Vec<u8>, u64)>::empty());
        }
        while i < v.len()
            invariant
                0 <= i <= v@.len(),
                ips@ == doh_ips(v@.take(i as int)),
            decreases v@.len() - i,
        {
            proof {
                assert(v@.take(i + 1int).drop_last() =~= v@.take(i as int));
            }
            match parse_ip_literal(&v[i].0) {
                Some(ip) => {
                    ips.push(ip);
                    proof {
                        assert(ips@ =~= doh_ips(v@.take(i + 1int)));
                    }
                },
                None => {
                    proof {
                        assert(ips@ =~= doh_ips(v@.take(i + 1int)));
                    }
                },
            }
            i = i + 1;
        }
        proof {
            assert(v@.take(v@.len() as int) =~= v@);
        }
        if ips.len() == 0 {
            self.doh_cooldown.push(now);
            return None;
        }
        let ttl = v[v.len() - 1].1;
        if ttl > u64::MAX / 1000 {
            self.doh_cooldown.push(now);
            return None;
        }
        let ttl_ms = ttl * 1000;
        if now > u64::MAX - ttl_ms {
            self.doh_cooldown.push(now);
            return None;
        }
        let entry = CacheEntry { ips, deadline: now + ttl_ms };
        let out = entry.ips.clone();
        self.store.insert(host, entry);
        Some(out)
    }
}

/// How one query result changes the store: a success is inserted, a failure
/// changes nothing.
pub open spec fn step_insert(
    pre: CacheStore,
    res: Result<CacheEntry, DnsError>,
    host: Seq<u8>,
    post: CacheStore,
) -> bool {
    match res {
        Ok(e) => CacheStore::insert_post(pre, host, e@, post),
        Err(_) => post.v4_map() == pre.v4_map() && post.v6_map() == pre.v6_map() && post.v4_cap()
            == pre.v4_cap() && post.v6_cap() == pre.v6_cap(),
    }
}

/// How a sequence of query results changes the store, one insert after the
/// other.
pub open spec fn finish_post(
    pre: CacheStore,
    results: Seq<Result<CacheEntry, DnsError>>,
    host: Seq<u8>,
    post: CacheStore,
) -> bool
    decreases results.len(),
{
    if results.len() == 0 {
        post.v4_map() == pre.v4_map() && post.v6_map() == pre.v6_map() && post.v4_cap()
            == pre.v4_cap() && post.v6_cap() == pre.v6_cap()
    } else {
        exists|mid: CacheStore|
            #[trigger] step_insert(pre, results[0], host, mid) && finish_post(
                mid,
                results.drop_first(),
                host,
                post,
            )
    }
}

proof fn lemma_finish_post_snoc(
    pre: CacheStore,
    results: Seq<Result<CacheEntry, DnsError>>,
    host: Seq<u8>,
    mid: CacheStore,
    x: Result<CacheEntry, DnsError>,
    post: CacheStore,
)
    requires
        finish_post(pre, results, host, mid),
        step_insert(mid, x, host, post),
    ensures
        finish_post(pre, results.push(x), host, post),
    decreases results.len(),
{
    if results.len() == 0 {
        assert(results.push(x)[0] == x);
        assert(results.push(x).drop_first() =~= results);
        assert(step_insert(pre, x, host, post));
        assert(finish_post(post, results, host, post));
    } else {
        let m1 = choose|m1: CacheStore|
            #[trigger] step_insert(pre, results[0], host, m1) && finish_post(
                m1,
                results.drop_first(),
                host,
                mid,
            );
        lemma_finish_post_snoc(m1, results.drop_first(), host, mid, x, post);
        assert(results.push(x)[0] == results[0]);
        assert(results.push(x).drop_first() =~= results.drop_first().push(x));
        assert(step_insert(pre, results.push(x)[0], host, m1) && finish_post(
            m1,
            results.push(x).drop_first(),
            host,
            post,
        ));
    }
}

/// The addresses of the successful results, in order.
pub open spec fn collect_ips(results: Seq<Result<CacheEntry, DnsError>>) -> Seq<IpAddress>
    decreases results.len(),
{
    if results.len() == 0 {
        Seq::<IpAddress>::empty()
    } else {
        collect_ips(results.drop_last()) + (match results.last() {
            Ok(e) => e@.ips,
            Err(_) => Seq::<IpAddress>::empty(),
        })
    }
}

/// The error of the last failed result.
pub open spec fn last_error(results: Seq<Result<CacheEntry, DnsError>>) -> Option<DnsError>
    decreases results.len(),
{
    if results.len() == 0 {
        None
    } else {
        match results.last() {
            Err(e) => Some(e),
            Ok(_) => last_error(results.drop_last()),
        }
    }
}

impl DnsClient {
    /// Gathers the fan-out's per-type results: each successful entry is
    /// inserted into the cache and its addresses appended in order, so the
    /// preferred family leads; with nothing gathered, the last error (or a
    /// generic failure) surfaces.
    pub fn lookup_finish(
        &mut self,
        host: &Vec<u8>,
        results: Vec<Result<CacheEntry, DnsError>>,
    ) -> (r: Result<Vec<IpAddress>, DnsError>)
        ensures
            finish_post(old(self).store, results@, host@, final(self).store),
            old(self).store.wf() ==> final(self).store.wf(),
            old(self).store.bounded() ==> final(self).store.bounded(),
            final(self).servers == old(self).servers,
            final(self).hosts == old(self).hosts,
            final(self).doh_cooldown == old(self).doh_cooldown,
            final(self).doh_keys == old(self).doh_keys,
            final(self).has_dispatcher == old(self).has_dispatcher,
            final(self).opts == old(self).opts,
            (match r {
                Ok(ips) => ips@ == collect_ips(results@) && ips@.len() > 0,
                Err(e) => collect_ips(results@).len() == 0 && e == (match last_error(results@) {
                    Some(e0) => e0,
                    None => DnsError::ResolveFailed,
                }),
            }),
    {
        let ghost pre = *self;
        let ghost orig = results@;
        let mut rest = results;
        let mut ips: Vec<IpAddress> = Vec::new();
        let mut last: Option<DnsError> = None;
        let mut k: usize = 0;
        let total = rest.len();
        proof {
            assert(orig.take(0int) =~= Seq::<Result<CacheEntry, DnsError>>::empty());
            assert(rest@ =~= orig.skip(0int));
        }
        while rest.len() > 0
            invariant
                0 <= k <= orig.len(),
                orig.len() == total,
                k + rest@.len() == orig.len(),
                rest@ == orig.skip(k as int),
                finish_post(pre.store, orig.take(k as int), host@, self.store),
                pre.store.wf() ==> self.store.wf(),
                pre.store.bounded() ==> self.store.bounded(),
                ips@ == collect_ips(orig.take(k as int)),
                last == last_error(orig.take(k as int)),
                self.servers == pre.servers,
                self.hosts == pre.hosts,
                self.doh_cooldown == pre.doh_cooldown,
                self.doh_keys == pre.doh_keys,
                self.has_dispatcher == pre.has_dispatcher,
                self.opts == pre.opts,
            decreases rest@.len(),
        {
            let ghost store_mid = self.store;
            let x = rest.remove(0);
            proof {
                assert(orig.skip(k as int)[0] == orig[k as int]);
                assert(orig.skip(k as int).drop_first() =~= orig.skip(k + 1int));
                assert(rest@ =~= orig.skip(k + 1int));
                assert(orig.take(k + 1int).drop_last() =~= orig.take(k as int));
                assert(orig.take(k as int).push(orig[k as int]) =~= orig.take(k + 1int));
            }
            match x {
                Ok(e) => {
                    crate::cache::extend_ips(&mut ips, &e.ips);
                    self.store.insert(host, e);
                },
                Err(e) => {
                    last = Some(e);
                },
            }
            proof {
                lemma_finish_post_snoc(
                    pre.store,
                    orig.take(k as int),
                    host@,
                    store_mid,
                    orig[k as int],
                    self.store,
                );
            }
            k = k + 1;
        }
        proof {
            assert(orig.take(orig.len() as int) =~= orig);
        }
        if ips.len() > 0 {
            Ok(ips)
        } else {
            match last {
                Some(e) => Err(e),
                None => Err(DnsError::ResolveFailed),
            }
        }
    }

    /// Cache feedback after a successful connection: a literal name is never
    /// rotated; otherwise the connected address moves to the front of the
    /// name's entry in its family's map.
    pub fn optimize_cache(&mut self, address: &Vec<u8>, connected_ip: IpAddress)
        ensures
            final(self).servers == old(self).servers,
            final(self).hosts == old(self).hosts,
            final(self).doh_cooldown == old(self).doh_cooldown,
            final(self).doh_keys == old(self).doh_keys,
            final(self).has_dispatcher == old(self).has_dispatcher,
            final(self).opts == old(self).opts,
            old(self).store.wf() ==> final(self).store.wf(),
            old(self).store.bounded() ==> final(self).store.bounded(),
            parse_ip(address@) is Some ==> final(self).store == old(self).store,
            parse_ip(address@) is None && connected_ip.is_v4() ==> crate::cache::rotate_map_post(
                old(self).store.v4_map(),
                address@,
                connected_ip,
                final(self).store.v4_map(),
            ) && final(self).store.v6_map() == old(self).store.v6_map(),
            parse_ip(address@) is None && !connected_ip.is_v4() ==> crate::cache::rotate_map_post(
                old(self).store.v6_map(),
                address@,
                connected_ip,
                final(self).store.v6_map(),
            ) && final(self).store.v4_map() == old(self).store.v4_map(),
            final(self).store.v4_cap() == old(self).store.v4_cap(),
            final(self).store.v6_cap() == old(self).store.v6_cap(),
    {
        if parse_ip_literal(address).is_some() {
            return ;
        }
        self.store.rotate(address, connected_ip);
    }
}

/// Builds the wire bytes of one query for the planned name and record type,
/// under a fresh random id.
pub fn build_query(host: &Vec<u8>, qtype: u16) -> (r: Vec<u8>)
    requires
        valid_hostname(host@),
    ensures
        exists|id: u16| r@ == encode_query_spec(id, host@, qtype),
{
    let id = crate::rng::random_u16();
    let r = new_query(id, host, qtype);
    proof {
        assert(r@ == encode_query_spec(id, host@, qtype));
    }
    r
}

} // verus!
