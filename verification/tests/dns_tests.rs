use leafcore::addr::IpAddress;
use leafcore::dns::{
    DnsClient, DnsConfig, DnsError, DnsOptions, LookupStep, QueryEvent, QuerySession, QueryVerdict,
};
use leafcore::wire::{RTYPE_A, RTYPE_AAAA};

fn v4(a: u8, b: u8, c: u8, d: u8) -> IpAddress {
    IpAddress::V4(((a as u32) << 24) | ((b as u32) << 16) | ((c as u32) << 8) | (d as u32))
}

fn opts(enable_ipv6: bool, prefer_ipv6: bool) -> DnsOptions {
    DnsOptions {
        enable_ipv6,
        prefer_ipv6,
        cache_size: 16,
        timeout_secs: 4,
        max_retries: 2,
    }
}

fn config(servers: &[&[u8]], hosts: &[(&[u8], &[&[u8]])]) -> DnsConfig {
    DnsConfig {
        servers: servers.iter().map(|s| s.to_vec()).collect(),
        hosts: hosts
            .iter()
            .map(|(n, ips)| (n.to_vec(), ips.iter().map(|i| i.to_vec()).collect()))
            .collect(),
        doh_keys: Vec::new(),
    }
}

fn question(host: &[u8], qtype: u16) -> Vec<u8> {
    let mut q = Vec::new();
    for label in host.split(|b| *b == b'.') {
        q.push(label.len() as u8);
        q.extend_from_slice(label);
    }
    q.push(0);
    q.extend_from_slice(&qtype.to_be_bytes());
    q.extend_from_slice(&[0, 1]);
    q
}

fn response(host: &[u8], qtype: u16, rcode: u8, ttl: u32, rdata: &[u8]) -> Vec<u8> {
    let mut r = Vec::new();
    r.extend_from_slice(&[0x12, 0x34, 0x81, 0x80 | rcode, 0, 1, 0, 1, 0, 0, 0, 0]);
    r.extend_from_slice(&question(host, qtype));
    r.extend_from_slice(&[0xc0, 0x0c]);
    r.extend_from_slice(&qtype.to_be_bytes());
    r.extend_from_slice(&[0, 1]);
    r.extend_from_slice(&ttl.to_be_bytes());
    r.extend_from_slice(&(rdata.len() as u16).to_be_bytes());
    r.extend_from_slice(rdata);
    r
}

#[test]
fn construction_checks_servers() {
    assert!(matches!(
        DnsClient::new(&config(&[], &[]), opts(false, false)),
        Err(DnsError::NoDnsServers)
    ));
    assert!(matches!(
        DnsClient::new(&config(&[b"not-an-ip"], &[]), opts(false, false)),
        Err(DnsError::InvalidServerAddress)
    ));
    let c = DnsClient::new(&config(&[b"1.1.1.1"], &[]), opts(false, false)).unwrap();
    assert_eq!(c.servers.len(), 1);
    assert_eq!(c.servers[0].port, 53);
}

#[test]
fn literal_short_circuit() {
    let mut c = DnsClient::new(&config(&[b"1.1.1.1"], &[]), opts(false, false)).unwrap();
    match c.lookup(&b"8.8.8.8".to_vec(), 1000) {
        LookupStep::Resolved(ips) => assert_eq!(ips, vec![v4(8, 8, 8, 8)]),
        _ => panic!("a literal must resolve to itself"),
    }
    match c.lookup(&b"::1".to_vec(), 1000) {
        LookupStep::Resolved(ips) => assert_eq!(ips, vec![IpAddress::V6(1)]),
        _ => panic!("a v6 literal must resolve to itself"),
    }
}

#[test]
fn resolves_and_caches_single_a_record() {
    // servers ["1.1.1.1"], hosts empty, v6 disabled; one A answer with ttl 60
    let host = b"example.com".to_vec();
    let mut c = DnsClient::new(&config(&[b"1.1.1.1"], &[]), opts(false, false)).unwrap();
    c.replace_dispatcher();
    let now = 1_000_000u64;
    let plan = match c.lookup(&host, now) {
        LookupStep::NeedQuery(plan) => plan,
        _ => panic!("an uncached name needs a query"),
    };
    assert_eq!(plan.host, host);
    assert_eq!(plan.qtypes, vec![RTYPE_A]);

    let mut sess = QuerySession::new(2);
    assert!(sess.can_attempt());
    let buf = response(b"example.com", RTYPE_A, 0, 60, &[93, 184, 216, 34]);
    let entry = match sess.on_event(QueryEvent::Received(buf), now) {
        QueryVerdict::Done(e) => e,
        _ => panic!("a good response must succeed"),
    };
    assert_eq!(entry.ips, vec![v4(93, 184, 216, 34)]);
    assert_eq!(entry.deadline, now + 60_000);

    let ips = c.lookup_finish(&host, vec![Ok(entry)]).unwrap();
    assert_eq!(ips, vec![v4(93, 184, 216, 34)]);

    // the cache answers now
    match c.lookup(&host, now + 59_000) {
        LookupStep::Resolved(ips) => assert_eq!(ips, vec![v4(93, 184, 216, 34)]),
        _ => panic!("the cache must answer before the deadline"),
    }
    // past the deadline the expired addresses never come back
    match c.lookup(&host, now + 61_000) {
        LookupStep::NeedQuery(_) => {}
        _ => panic!("an expired entry must not be served"),
    }
}

#[test]
fn static_hosts_and_rotation() {
    // hosts {"foo" -> ["10.0.0.1", "10.0.0.2"]}
    let host = b"foo".to_vec();
    let cfg = config(&[b"1.1.1.1"], &[(b"foo", &[b"10.0.0.1", b"10.0.0.2"])]);
    let mut c = DnsClient::new(&cfg, opts(false, false)).unwrap();
    let now = 5_000u64;
    match c.lookup(&host, now) {
        LookupStep::Resolved(ips) => {
            assert_eq!(ips, vec![v4(10, 0, 0, 1), v4(10, 0, 0, 2)]);
        }
        _ => panic!("static hosts must answer"),
    }
    // feedback: 10.0.0.2 connected, so it moves to the front
    c.optimize_cache(&host, v4(10, 0, 0, 2));
    match c.lookup(&host, now + 1000) {
        LookupStep::Resolved(ips) => {
            assert_eq!(ips, vec![v4(10, 0, 0, 2), v4(10, 0, 0, 1)]);
        }
        _ => panic!("the promoted entry must answer from the cache"),
    }
    // rotating again with the same address changes nothing
    c.optimize_cache(&host, v4(10, 0, 0, 2));
    match c.lookup(&host, now + 2000) {
        LookupStep::Resolved(ips) => {
            assert_eq!(ips, vec![v4(10, 0, 0, 2), v4(10, 0, 0, 1)]);
        }
        _ => panic!("rotation must be idempotent"),
    }
    // the promoted entry expires 6000 seconds out; after that the static
    // table answers in its own order again
    match c.lookup(&host, now + 6_000_001) {
        LookupStep::Resolved(ips) => {
            assert_eq!(ips, vec![v4(10, 0, 0, 1), v4(10, 0, 0, 2)]);
        }
        _ => panic!("the static table must answer after expiry"),
    }
}

#[test]
fn rotation_ignores_literals_and_absent_addresses() {
    let cfg = config(&[b"1.1.1.1"], &[(b"foo", &[b"10.0.0.1", b"10.0.0.2"])]);
    let mut c = DnsClient::new(&cfg, opts(false, false)).unwrap();
    let host = b"foo".to_vec();
    let now = 5_000u64;
    match c.lookup(&host, now) {
        LookupStep::Resolved(_) => {}
        _ => panic!(),
    }
    // an address the entry does not hold leaves it unchanged
    c.optimize_cache(&host, v4(9, 9, 9, 9));
    match c.lookup(&host, now + 1000) {
        LookupStep::Resolved(ips) => {
            assert_eq!(ips, vec![v4(10, 0, 0, 1), v4(10, 0, 0, 2)]);
        }
        _ => panic!(),
    }
    // a literal target is never rotated
    c.optimize_cache(&b"10.0.0.1".to_vec(), v4(10, 0, 0, 1));
}

#[test]
fn prefer_ipv6_orders_results() {
    // v6 enabled and preferred: AAAA answers lead
    let host = b"example.com".to_vec();
    let mut c = DnsClient::new(&config(&[b"1.1.1.1"], &[]), opts(true, true)).unwrap();
    c.replace_dispatcher();
    let now = 1_000u64;
    let plan = match c.lookup(&host, now) {
        LookupStep::NeedQuery(plan) => plan,
        _ => panic!(),
    };
    assert_eq!(plan.qtypes, vec![RTYPE_AAAA, RTYPE_A]);

    let mut rdata6 = [0u8; 16];
    rdata6[15] = 1;
    let mut s6 = QuerySession::new(2);
    let e6 = match s6.on_event(
        QueryEvent::Received(response(b"example.com", RTYPE_AAAA, 0, 60, &rdata6)),
        now,
    ) {
        QueryVerdict::Done(e) => e,
        _ => panic!(),
    };
    let mut s4 = QuerySession::new(2);
    let e4 = match s4.on_event(
        QueryEvent::Received(response(b"example.com", RTYPE_A, 0, 60, &[1, 2, 3, 4])),
        now,
    ) {
        QueryVerdict::Done(e) => e,
        _ => panic!(),
    };
    let ips = c.lookup_finish(&host, vec![Ok(e6), Ok(e4)]).unwrap();
    assert_eq!(ips, vec![IpAddress::V6(1), v4(1, 2, 3, 4)]);
}

#[test]
fn retries_then_settles() {
    // the first server times out on every attempt; a second one answers
    let now = 1_000u64;
    let mut first = QuerySession::new(2);
    assert!(first.can_attempt());
    assert!(matches!(
        first.on_event(QueryEvent::RecvTimedOut, now),
        QueryVerdict::Retry
    ));
    assert!(first.can_attempt());
    assert!(matches!(
        first.on_event(QueryEvent::RecvTimedOut, now),
        QueryVerdict::Retry
    ));
    assert!(!first.can_attempt());
    assert_eq!(first.final_error(), DnsError::RecvTimeout);

    let mut second = QuerySession::new(2);
    let buf = response(b"example.com", RTYPE_A, 0, 30, &[5, 6, 7, 8]);
    assert!(matches!(
        second.on_event(QueryEvent::Received(buf), now),
        QueryVerdict::Done(_)
    ));
}

#[test]
fn permanent_response_failures_stop() {
    let now = 0u64;
    let mut s = QuerySession::new(3);
    let buf = response(b"example.com", RTYPE_A, 3, 60, &[1, 2, 3, 4]);
    match s.on_event(QueryEvent::Received(buf), now) {
        QueryVerdict::Failed(e) => assert_eq!(e, DnsError::ResponseError(3)),
        _ => panic!(),
    }
    let mut s = QuerySession::new(3);
    match s.on_event(QueryEvent::Received(vec![0u8; 4]), now) {
        QueryVerdict::Failed(e) => assert_eq!(e, DnsError::ParseMessageFailed),
        _ => panic!(),
    }
    // a no-error response whose answers carry no address
    let mut s = QuerySession::new(3);
    let buf = response(b"example.com", 16, 0, 60, &[3, b'h', b'e', b'y']);
    match s.on_event(QueryEvent::Received(buf), now) {
        QueryVerdict::Failed(e) => assert_eq!(e, DnsError::NoRecords),
        _ => panic!(),
    }
    // a deadline past the representable range
    let mut s = QuerySession::new(3);
    let buf = response(b"example.com", RTYPE_A, 0, 60, &[1, 2, 3, 4]);
    match s.on_event(QueryEvent::Received(buf), u64::MAX - 10) {
        QueryVerdict::Failed(e) => assert_eq!(e, DnsError::InvalidTtl),
        _ => panic!(),
    }
    // send and receive failures are transient
    let mut s = QuerySession::new(2);
    assert!(matches!(
        s.on_event(QueryEvent::SendFailed, now),
        QueryVerdict::Retry
    ));
    assert!(matches!(
        s.on_event(QueryEvent::RecvFailed, now),
        QueryVerdict::Retry
    ));
    assert_eq!(s.final_error(), DnsError::RecvFailed);
}

#[test]
fn finish_surfaces_last_error() {
    let host = b"example.com".to_vec();
    let mut c = DnsClient::new(&config(&[b"1.1.1.1"], &[]), opts(false, false)).unwrap();
    let r = c.lookup_finish(&host, vec![Err(DnsError::RecvTimeout), Err(DnsError::NoRecords)]);
    assert_eq!(r.unwrap_err(), DnsError::NoRecords);
    let r = c.lookup_finish(&host, Vec::new());
    assert_eq!(r.unwrap_err(), DnsError::ResolveFailed);
}

#[test]
fn invalid_names_fail() {
    let mut c = DnsClient::new(&config(&[b"1.1.1.1"], &[]), opts(false, false)).unwrap();
    match c.lookup(&b"bad..name".to_vec(), 0) {
        LookupStep::Failed(e) => assert_eq!(e, DnsError::InvalidDomainName),
        _ => panic!(),
    }
}

#[test]
fn reload_replaces_servers_and_hosts() {
    let mut c = DnsClient::new(&config(&[b"1.1.1.1"], &[]), opts(false, false)).unwrap();
    assert!(c
        .reload(&config(&[b"9.9.9.9", b"8.8.8.8"], &[(b"bar", &[b"10.1.1.1"])]))
        .is_ok());
    assert_eq!(c.servers.len(), 2);
    match c.lookup(&b"bar".to_vec(), 0) {
        LookupStep::Resolved(ips) => assert_eq!(ips, vec![v4(10, 1, 1, 1)]),
        _ => panic!(),
    }
    // a failing reload leaves everything standing
    assert!(matches!(
        c.reload(&config(&[], &[])),
        Err(DnsError::NoDnsServers)
    ));
    assert_eq!(c.servers.len(), 2);
}

#[test]
fn direct_lookup_asks_for_doh() {
    let mut c = DnsClient::new(&config(&[b"1.1.1.1"], &[]), opts(false, false)).unwrap();
    c.replace_dispatcher();
    match c.direct_lookup(&b"example.com".to_vec(), 0) {
        LookupStep::NeedDoh => {}
        _ => panic!("the direct path must try DoH first"),
    }
    // the normal path never asks for DoH
    match c.lookup(&b"example.com".to_vec(), 0) {
        LookupStep::NeedQuery(_) => {}
        _ => panic!(),
    }
}

#[test]
fn indirect_queries_need_a_dispatcher() {
    let cfg = config(&[b"1.1.1.1"], &[(b"foo", &[b"10.0.0.1"])]);
    let mut c = DnsClient::new(&cfg, opts(false, false)).unwrap();
    // literals and static hosts resolve without one
    match c.lookup(&b"8.8.8.8".to_vec(), 0) {
        LookupStep::Resolved(_) => {}
        _ => panic!(),
    }
    match c.lookup(&b"foo".to_vec(), 0) {
        LookupStep::Resolved(_) => {}
        _ => panic!(),
    }
    // a query cannot be routed
    match c.lookup(&b"example.com".to_vec(), 0) {
        LookupStep::Failed(e) => assert_eq!(e, DnsError::NoDispatcher),
        _ => panic!("an indirect query needs the dispatcher"),
    }
    // the direct continuation binds its own sockets and plans queries
    match c.lookup_continue(&b"example.com".to_vec(), false, 0) {
        LookupStep::NeedQuery(_) => {}
        _ => panic!(),
    }
    c.replace_dispatcher();
    match c.lookup(&b"example.com".to_vec(), 0) {
        LookupStep::NeedQuery(_) => {}
        _ => panic!(),
    }
}

#[test]
fn doh_gate_and_cooldown() {
    let mut c = DnsClient::new(&config(&[b"1.1.1.1"], &[]), opts(false, false)).unwrap();
    let now = 100_000u64;
    assert!(c.doh_gate(now));
    // a failed probe starts the cooldown
    assert!(c.doh_result(&b"example.com".to_vec(), None, now).is_none());
    assert!(!c.doh_gate(now + 1_000));
    assert!(!c.doh_gate(now + 2_999));
    assert!(c.doh_gate(now + 3_000));
}

#[test]
fn doh_success_caches() {
    let host = b"example.com".to_vec();
    let mut c = DnsClient::new(&config(&[b"1.1.1.1"], &[]), opts(false, false)).unwrap();
    c.replace_dispatcher();
    let now = 50_000u64;
    let answers = vec![
        (b"93.184.216.34".to_vec(), 30u64),
        (b"not-an-ip".to_vec(), 60u64),
        (b"93.184.216.35".to_vec(), 60u64),
    ];
    let ips = c.doh_result(&host, Some(answers), now).unwrap();
    assert_eq!(ips, vec![v4(93, 184, 216, 34), v4(93, 184, 216, 35)]);
    // the last answer's ttl sets the deadline
    match c.lookup(&host, now + 59_000) {
        LookupStep::Resolved(got) => assert_eq!(got, ips),
        _ => panic!("the DoH result must be cached"),
    }
    match c.lookup(&host, now + 61_000) {
        LookupStep::NeedQuery(_) => {}
        _ => panic!("the DoH entry must expire"),
    }
}

#[test]
fn doh_empty_answers_cool_down() {
    let mut c = DnsClient::new(&config(&[b"1.1.1.1"], &[]), opts(false, false)).unwrap();
    let now = 10_000u64;
    assert!(c.doh_result(&b"x.test".to_vec(), Some(Vec::new()), now).is_none());
    assert!(!c.doh_gate(now + 100));
}

#[test]
fn doh_enabled_checks_keys() {
    let mut cfg = config(&[b"1.1.1.1"], &[]);
    let c = DnsClient::new(&cfg, opts(false, false)).unwrap();
    assert!(!c.doh_enabled());
    cfg.doh_keys = vec![(b"1.1.1.1".to_vec(), b"auto".to_vec())];
    let c = DnsClient::new(&cfg, opts(false, false)).unwrap();
    assert!(c.doh_enabled());
}

#[test]
fn family_discipline_keeps_maps_apart() {
    // a cached all-v4 entry never moves under feedback for a v6 address
    let host = b"example.com".to_vec();
    let mut c = DnsClient::new(&config(&[b"1.1.1.1"], &[]), opts(true, false)).unwrap();
    c.replace_dispatcher();
    let now = 1_000u64;
    let plan = match c.lookup(&host, now) {
        LookupStep::NeedQuery(plan) => plan,
        _ => panic!(),
    };
    assert_eq!(plan.qtypes, vec![RTYPE_A, RTYPE_AAAA]);
    let mut s = QuerySession::new(2);
    let e = match s.on_event(
        QueryEvent::Received(response(b"example.com", RTYPE_A, 0, 60, &[1, 1, 1, 1])),
        now,
    ) {
        QueryVerdict::Done(e) => e,
        _ => panic!(),
    };
    let ips = c
        .lookup_finish(&host, vec![Ok(e), Err(DnsError::NoRecords)])
        .unwrap();
    assert_eq!(ips, vec![v4(1, 1, 1, 1)]);
    c.optimize_cache(&host, IpAddress::V6(7));
    match c.lookup(&host, now + 1_000) {
        LookupStep::Resolved(got) => assert_eq!(got, vec![v4(1, 1, 1, 1)]),
        _ => panic!("the v4 entry must survive v6 feedback untouched"),
    }
}

#[test]
fn single_static_address_is_not_promoted() {
    let cfg = config(&[b"1.1.1.1"], &[(b"one", &[b"10.0.0.9"])]);
    let mut c = DnsClient::new(&cfg, opts(false, false)).unwrap();
    match c.lookup(&b"one".to_vec(), 0) {
        LookupStep::Resolved(ips) => assert_eq!(ips, vec![v4(10, 0, 0, 9)]),
        _ => panic!(),
    }
    // nothing was cached, so feedback has nothing to rotate and the static
    // table keeps answering
    c.optimize_cache(&b"one".to_vec(), v4(10, 0, 0, 9));
    match c.lookup(&b"one".to_vec(), 10) {
        LookupStep::Resolved(ips) => assert_eq!(ips, vec![v4(10, 0, 0, 9)]),
        _ => panic!(),
    }
}

#[test]
fn dispatcher_slot() {
    let mut c = DnsClient::new(&config(&[b"1.1.1.1"], &[]), opts(false, false)).unwrap();
    assert!(!c.has_dispatcher);
    c.replace_dispatcher();
    assert!(c.has_dispatcher);
}
