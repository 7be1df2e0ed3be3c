use leafcore::failover::{
    compute_schedule, effective_probe_content, parse_health_check_addr, probe_measure,
    sort_measures, DispatchAction, Handler, Measure, ProbeOutcome,
};

fn handler(actors: usize, failover: bool, fallback_cache: bool, last_resort: bool) -> Handler {
    Handler::new(
        actors,
        2,
        true,
        3,
        failover,
        fallback_cache,
        16,
        10,
        last_resort,
        5,
        200,
        b"www.google.com:80".to_vec(),
        Vec::new(),
    )
}

#[test]
fn sentinel_values() {
    assert_eq!(probe_measure(4, ProbeOutcome::Replied(123)).millis, 123);
    assert_eq!(probe_measure(4, ProbeOutcome::Replied(123)).index, 4);
    assert_eq!(probe_measure(0, ProbeOutcome::TimedOut).millis, u128::MAX - 1);
    assert_eq!(probe_measure(0, ProbeOutcome::WriteFailed).millis, u128::MAX - 2);
    assert_eq!(probe_measure(0, ProbeOutcome::ReadFailed).millis, u128::MAX - 3);
    assert_eq!(probe_measure(0, ProbeOutcome::HandshakeFailed).millis, u128::MAX);
    assert_eq!(probe_measure(0, ProbeOutcome::ConnectFailed).millis, u128::MAX);
    assert_eq!(probe_measure(0, ProbeOutcome::StreamUnavailable).millis, u128::MAX);
}

#[test]
fn sorts_by_latency() {
    let ms = vec![
        Measure { index: 0, millis: 5 },
        Measure { index: 1, millis: 3 },
        Measure { index: 2, millis: 9 },
        Measure { index: 3, millis: 3 },
    ];
    let sorted = sort_measures(ms);
    let lat: Vec<u128> = sorted.iter().map(|m| m.millis).collect();
    assert_eq!(lat, vec![3, 3, 5, 9]);
    let mut idx: Vec<usize> = sorted.iter().map(|m| m.index).collect();
    idx.sort();
    assert_eq!(idx, vec![0, 1, 2, 3]);
}

#[test]
fn equal_latencies_keep_input_order() {
    // the ranking is stable: ties stand in the order the probes reported
    let ms = vec![
        Measure { index: 3, millis: 7 },
        Measure { index: 1, millis: 7 },
        Measure { index: 2, millis: 5 },
        Measure { index: 0, millis: 7 },
    ];
    let sorted = sort_measures(ms);
    let idx: Vec<usize> = sorted.iter().map(|m| m.index).collect();
    assert_eq!(idx, vec![2, 3, 1, 0]);

    let mut h = handler(3, true, false, false);
    h.publish_schedule(vec![
        probe_measure(0, ProbeOutcome::Replied(50)),
        probe_measure(1, ProbeOutcome::Replied(50)),
        probe_measure(2, ProbeOutcome::Replied(50)),
    ]);
    assert_eq!(h.schedule, vec![0, 1, 2]);
}

#[test]
fn ranked_schedules() {
    // probes: actor 0 at 200 ms, actor 1 at 50 ms, actor 2 timed out
    let measures = vec![
        probe_measure(0, ProbeOutcome::Replied(200)),
        probe_measure(1, ProbeOutcome::Replied(50)),
        probe_measure(2, ProbeOutcome::TimedOut),
    ];
    let mut with_failover = handler(3, true, false, false);
    with_failover.publish_schedule(measures.clone());
    assert_eq!(with_failover.schedule, vec![1, 0, 2]);
    assert!(with_failover.schedule.iter().all(|i| *i < 3));

    let mut without = handler(3, false, false, false);
    without.publish_schedule(measures);
    assert_eq!(without.schedule, vec![1]);
}

#[test]
fn all_failed_empties_schedule_with_last_resort() {
    // every probe at the 5 s threshold or beyond, last resort configured
    let measures = vec![
        probe_measure(0, ProbeOutcome::TimedOut),
        probe_measure(1, ProbeOutcome::TimedOut),
        probe_measure(2, ProbeOutcome::TimedOut),
    ];
    let mut h = handler(3, true, false, true);
    h.publish_schedule(measures.clone());
    assert!(h.schedule.is_empty());
    // the next session then routes through the last resort
    let (_, action) = h.begin_session(&b"example.com:443".to_vec());
    assert_eq!(action, DispatchAction::UseLastResort);

    // without a last resort the ranking is published as usual
    let mut h2 = handler(3, true, false, false);
    h2.publish_schedule(measures);
    assert_eq!(h2.schedule.len(), 3);
}

#[test]
fn threshold_is_timeout_in_millis() {
    // a probe exactly at timeout * 1000 counts as failed
    let at = vec![Measure { index: 0, millis: 5000 }];
    let sched = compute_schedule(&at, true, true, 5);
    assert!(sched.is_empty());
    let below = vec![Measure { index: 0, millis: 4999 }];
    let sched = compute_schedule(&below, true, true, 5);
    assert_eq!(sched, vec![0]);
}

#[test]
fn dispatch_walks_schedule_and_caches_fallbacks() {
    let dest = b"example.com:443".to_vec();
    let mut h = handler(3, true, true, false);
    h.publish_schedule(vec![
        probe_measure(0, ProbeOutcome::Replied(200)),
        probe_measure(1, ProbeOutcome::Replied(50)),
        probe_measure(2, ProbeOutcome::TimedOut),
    ]);
    // schedule is [1, 0, 2]: actor 1 fails, actor 0 succeeds
    let (mut st, action) = h.begin_session(&dest);
    assert_eq!(action, DispatchAction::TryScheduled(1));
    let action = h.next_attempt(&mut st, &dest, false).unwrap();
    assert_eq!(action, DispatchAction::TryScheduled(0));
    assert!(h.next_attempt(&mut st, &dest, true).is_none());
    // the destination is remembered: the next session tries actor 0 first
    let (mut st2, action) = h.begin_session(&dest);
    assert_eq!(action, DispatchAction::TryCached(0));
    assert!(h.next_attempt(&mut st2, &dest, true).is_none());

    // a first-position success is never cached
    let dest2 = b"other.test:80".to_vec();
    let (mut st3, action) = h.begin_session(&dest2);
    assert_eq!(action, DispatchAction::TryScheduled(1));
    assert!(h.next_attempt(&mut st3, &dest2, true).is_none());
    let (_, action) = h.begin_session(&dest2);
    assert_eq!(action, DispatchAction::TryScheduled(1));
}

#[test]
fn cached_failure_falls_back_to_schedule() {
    let dest = b"example.com:443".to_vec();
    let mut h = handler(2, true, true, false);
    h.publish_schedule(vec![
        probe_measure(0, ProbeOutcome::Replied(10)),
        probe_measure(1, ProbeOutcome::Replied(20)),
    ]);
    // remember actor 1 for the destination
    let (mut st, action) = h.begin_session(&dest);
    assert_eq!(action, DispatchAction::TryScheduled(0));
    let action = h.next_attempt(&mut st, &dest, false).unwrap();
    assert_eq!(action, DispatchAction::TryScheduled(1));
    assert!(h.next_attempt(&mut st, &dest, true).is_none());
    // the cached attempt fails; the walk starts over at the schedule
    let (mut st2, action) = h.begin_session(&dest);
    assert_eq!(action, DispatchAction::TryCached(1));
    let action = h.next_attempt(&mut st2, &dest, false).unwrap();
    assert_eq!(action, DispatchAction::TryScheduled(0));
    // the stale entry is kept: failure does not remove it
    assert!(h.next_attempt(&mut st2, &dest, true).is_none());
}

#[test]
fn exhausted_schedule_fails() {
    let dest = b"example.com:443".to_vec();
    let mut h = handler(1, true, false, false);
    let (mut st, action) = h.begin_session(&dest);
    assert_eq!(action, DispatchAction::TryScheduled(0));
    let action = h.next_attempt(&mut st, &dest, false).unwrap();
    assert_eq!(action, DispatchAction::FailAll);
}

#[test]
fn empty_schedule_without_last_resort_fails() {
    let mut h = handler(0, true, false, false);
    let (_, action) = h.begin_session(&b"x:1".to_vec());
    assert_eq!(action, DispatchAction::FailAll);
}

#[test]
fn out_of_range_index_is_fatal() {
    let mut h = handler(2, true, false, false);
    h.schedule = vec![5, 0];
    let (_, action) = h.begin_session(&b"x:1".to_vec());
    assert_eq!(action, DispatchAction::FailInvalidIndex);
}

#[test]
fn initial_schedule_lists_every_actor() {
    let h = handler(4, true, false, false);
    assert_eq!(h.schedule, vec![0, 1, 2, 3]);
}

#[test]
fn health_task_taken_once() {
    let mut h = handler(2, true, false, false);
    assert!(h.take_health_task());
    assert!(!h.take_health_task());
    let mut h2 = Handler::new(
        2, 2, false, 3, true, false, 16, 10, false, 5, 200,
        Vec::new(), Vec::new(),
    );
    assert!(!h2.take_health_task());
}

#[test]
fn probe_target_parsing() {
    let (host, port) = parse_health_check_addr(&b"captive.apple.com:80".to_vec());
    assert_eq!(host, b"captive.apple.com".to_vec());
    assert_eq!(port, 80);
    let (host, port) = parse_health_check_addr(&b"example.org:8443".to_vec());
    assert_eq!(host, b"example.org".to_vec());
    assert_eq!(port, 8443);
    // no colon: the defaults
    let (host, port) = parse_health_check_addr(&b"justahost".to_vec());
    assert_eq!(host, b"www.google.com".to_vec());
    assert_eq!(port, 80);
    // unparseable port: port 80
    let (host, port) = parse_health_check_addr(&b"h:notaport".to_vec());
    assert_eq!(host, b"h".to_vec());
    assert_eq!(port, 80);
}

#[test]
fn probe_content_defaulting() {
    assert_eq!(
        effective_probe_content(&Vec::new()),
        b"HEAD / HTTP/1.1\r\n\r\n".to_vec()
    );
    assert_eq!(
        effective_probe_content(&b"GET / HTTP/1.1\r\n\r\n".to_vec()),
        b"GET / HTTP/1.1\r\n\r\n".to_vec()
    );
}
