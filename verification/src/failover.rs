//! The failover outbound selector: measures from active health probes, the
//! ranked schedule they produce, and the per-session dispatch walk over that
//! schedule with a fallback cache and a last resort.
//!
//! The probes themselves are I/O and stay with the caller; everything here
//! takes their outcomes as values.

use vstd::prelude::*;

use crate::bytes::{parse_dec_u16, split_bytes, split_on};
use crate::fallback::{
    fallback_capacity, fallback_contents, fallback_get, fallback_insert, fallback_new,
    fallback_ttl, FallbackMap, FALLBACK_TTL_MAX_SECS,
};

verus! {

/// One probe's result: the actor's index and a latency in milliseconds.
/// Failure modes sit at the top of the latency range, so sorting by latency
/// ranks working actors first and the worst failures last.
#[derive(Clone, Copy, Debug, PartialEq, Eq, Structural)]
pub struct Measure {
    pub index: usize,
    pub millis: u128,
}

/// How one probe ended.
pub enum ProbeOutcome {
    /// The probe target answered after this many milliseconds.
    Replied(u128),
    /// No stream could be connected through the actor.
    ConnectFailed,
    /// The actor offers no stream handler.
    StreamUnavailable,
    /// The actor's handshake failed.
    HandshakeFailed,
    /// The handshake worked but the probe payload could not be written.
    WriteFailed,
    /// The write worked but nothing could be read back.
    ReadFailed,
    /// The probe ran out of its time budget.
    TimedOut,
}

/// The latency a probe outcome counts as: a reply counts as itself, and the
/// failure modes take the top of the range — a timeout just below the
/// sentinel ceiling, then a failed write, then a failed read, and every way
/// of not getting a handshake at the very top.
pub open spec fn measure_millis(outcome: ProbeOutcome) -> u128 {
    match outcome {
        ProbeOutcome::Replied(ms) => ms,
        ProbeOutcome::TimedOut => (u128::MAX - 1) as u128,
        ProbeOutcome::WriteFailed => (u128::MAX - 2) as u128,
        ProbeOutcome::ReadFailed => (u128::MAX - 3) as u128,
        ProbeOutcome::ConnectFailed => u128::MAX,
        ProbeOutcome::StreamUnavailable => u128::MAX,
        ProbeOutcome::HandshakeFailed => u128::MAX,
    }
}

/// Encodes one probe outcome as a measure for the given actor.
pub fn probe_measure(index: usize, outcome: ProbeOutcome) -> (r: Measure)
    ensures
        r.index == index,
        r.millis == measure_millis(outcome),
{
    let millis: u128 = match outcome {
        ProbeOutcome::Replied(ms) => ms,
        ProbeOutcome::TimedOut => u128::MAX - 1,
        ProbeOutcome::WriteFailed => u128::MAX - 2,
        ProbeOutcome::ReadFailed => u128::MAX - 3,
        ProbeOutcome::ConnectFailed => u128::MAX,
        ProbeOutcome::StreamUnavailable => u128::MAX,
        ProbeOutcome::HandshakeFailed => u128::MAX,
    };
    Measure { index, millis }
}

pub open spec fn sorted_by_millis(s: Seq<Measure>) -> bool {
    forall|i: int, j: int| 0 <= i < j < s.len() ==> s[i].millis <= s[j].millis
}

/// The position of the first measure with minimal latency.
pub open spec fn first_min_index(s: Seq<Measure>) -> int
    decreases s.len(),
{
    if s.len() <= 1 {
        0
    } else {
        let m = first_min_index(s.drop_first());
        if s[0].millis <= s[m + 1].millis {
            0
        } else {
            m + 1
        }
    }
}

/// The first minimal position lies within the sequence.
pub proof fn lemma_first_min_in_range(s: Seq<Measure>)
    requires
        s.len() > 0,
    ensures
        0 <= first_min_index(s) < s.len(),
    decreases s.len(),
{
    if s.len() > 1 {
        lemma_first_min_in_range(s.drop_first());
    }
}

/// The first minimal position is minimal, and strictly below everything
/// before it.
pub proof fn lemma_first_min_index(s: Seq<Measure>)
    requires
        s.len() > 0,
    ensures
        0 <= first_min_index(s) < s.len(),
        forall|j: int| 0 <= j < s.len() ==> s[first_min_index(s)].millis <= (#[trigger] s[j]).millis,
        forall|j: int| 0 <= j < first_min_index(s) ==> (#[trigger] s[j]).millis > s[first_min_index(s)].millis,
    decreases s.len(),
{
    if s.len() > 1 {
        lemma_first_min_index(s.drop_first());
        let m0 = first_min_index(s.drop_first());
        assert forall|j: int| 1 <= j < s.len() implies s[m0 + 1].millis <= (#[trigger] s[j]).millis by {
            assert(s.drop_first()[j - 1] == s[j]);
            assert(s.drop_first()[m0].millis <= s.drop_first()[j - 1].millis);
        }
        assert forall|j: int| 1 <= j < m0 + 1 implies (#[trigger] s[j]).millis > s[m0 + 1].millis by {
            assert(s.drop_first()[j - 1].millis > s.drop_first()[m0].millis);
        }
    }
}

#[via_fn]
proof fn stable_sort_spec_dec(s: Seq<Measure>) {
    if s.len() > 0 {
        lemma_first_min_in_range(s);
    }
}

/// The ranking itself, as a function: repeatedly take the first measure with
/// minimal latency. Equal latencies therefore keep their input order — the
/// stable sort of the measures.
pub open spec fn stable_sort_spec(s: Seq<Measure>) -> Seq<Measure>
    decreases s.len(),
        via stable_sort_spec_dec
{
    if s.len() == 0 {
        Seq::<Measure>::empty()
    } else {
        seq![s[first_min_index(s)]] + stable_sort_spec(s.remove(first_min_index(s)))
    }
}

/// Sorts measures ascending by latency by repeatedly moving the first
/// minimal measure over: exactly `stable_sort_spec`, so the result holds
/// exactly the given measures and equal latencies keep their input order.
pub fn sort_measures(input: Vec<Measure>) -> (r: Vec<Measure>)
    ensures
        r@ == stable_sort_spec(input@),
        sorted_by_millis(r@),
        r@.to_multiset() == input@.to_multiset(),
        r@.len() == input@.len(),
{
    let ghost orig = input@;
    let mut rest = input;
    let mut out: Vec<Measure> = Vec::new();
    proof {
        broadcast use vstd::seq_lib::group_to_multiset_ensures;

        assert(out@.to_multiset().add(rest@.to_multiset()) =~= orig.to_multiset());
    }
    proof {
        assert(out@ + stable_sort_spec(rest@) =~= stable_sort_spec(orig));
    }
    while rest.len() > 0
        invariant
            sorted_by_millis(out@),
            forall|a: int, b: int|
                0 <= a < out@.len() && 0 <= b < rest@.len() ==> out@[a].millis <= rest@[b].millis,
            out@.to_multiset().add(rest@.to_multiset()) == orig.to_multiset(),
            out@.len() + rest@.len() == orig.len(),
            out@ + stable_sort_spec(rest@) == stable_sort_spec(orig),
        decreases rest@.len(),
    {
        let mut m: usize = 0;
        let mut i: usize = 1;
        while i < rest.len()
            invariant
                0 <= m < rest@.len(),
                1 <= i <= rest@.len(),
                forall|j: int| 0 <= j < i ==> rest@[m as int].millis <= (#[trigger] rest@[j]).millis,
                forall|j: int| 0 <= j < m ==> (#[trigger] rest@[j]).millis > rest@[m as int].millis,
            decreases rest@.len() - i,
        {
            if rest[i].millis < rest[m].millis {
                m = i;
            }
            i = i + 1;
        }
        proof {
            lemma_first_min_index(rest@);
            let fm = first_min_index(rest@);
            if (m as int) < fm {
                assert(rest@[m as int].millis <= rest@[fm].millis);
                assert(rest@[m as int].millis > rest@[fm].millis);
            }
            if fm < m as int {
                assert(rest@[fm].millis <= rest@[m as int].millis);
                assert(rest@[fm].millis > rest@[m as int].millis);
            }
            assert(m as int == first_min_index(rest@));
        }
        let ghost pre_out = out@;
        let ghost pre_rest = rest@;
        let x = rest.remove(m);
        out.push(x);
        proof {
            broadcast use vstd::seq_lib::group_to_multiset_ensures;

            assert(stable_sort_spec(pre_rest) == seq![pre_rest[m as int]] + stable_sort_spec(
                pre_rest.remove(m as int),
            ));
            assert(out@ + stable_sort_spec(rest@) =~= stable_sort_spec(orig));
            assert(pre_rest.contains(pre_rest[m as int]));
            assert(pre_rest.to_multiset().count(x) > 0);
            assert(out@.to_multiset() =~= pre_out.to_multiset().insert(x));
            assert(rest@.to_multiset() =~= pre_rest.to_multiset().remove(x));
            assert(out@.to_multiset().add(rest@.to_multiset()) =~= orig.to_multiset());
            assert forall|a: int, b: int|
                0 <= a < out@.len() && 0 <= b < rest@.len() implies out@[a].millis
                <= rest@[b].millis by {
                if a < pre_out.len() {
                    if b < m {
                        assert(rest@[b] == pre_rest[b]);
                    } else {
                        assert(rest@[b] == pre_rest[b + 1]);
                    }
                } else {
                    if b < m {
                        assert(rest@[b] == pre_rest[b]);
                    } else {
                        assert(rest@[b] == pre_rest[b + 1]);
                    }
                }
            }
        }
    }
    proof {
        broadcast use vstd::seq_lib::group_to_multiset_ensures;

        assert(rest@.to_multiset().len() == 0);
        assert(out@.to_multiset().add(rest@.to_multiset()) =~= out@.to_multiset());
        assert(out@.to_multiset().len() == orig.to_multiset().len());
        assert(out@ + stable_sort_spec(rest@) =~= out@);
    }
    out
}

/// The failure threshold in milliseconds: probes at or past it count as
/// failed.
pub open spec fn threshold_of(health_check_timeout: u32) -> u128 {
    (health_check_timeout * 1000) as u128
}

/// Every probe failed: each measure reached the threshold.
pub open spec fn all_failed(ms: Seq<Measure>, health_check_timeout: u32) -> bool {
    forall|i: int| 0 <= i < ms.len() ==> (#[trigger] ms[i]).millis >= threshold_of(
        health_check_timeout,
    )
}

pub open spec fn measure_indices(ms: Seq<Measure>) -> Seq<usize> {
    ms.map_values(|m: Measure| m.index)
}

/// The schedule a ranking produces: empty when a last resort exists and
/// every probe failed, the single best actor without failover, every actor
/// in ranked order with it.
pub open spec fn schedule_spec(
    sorted: Seq<Measure>,
    failover: bool,
    has_last_resort: bool,
    health_check_timeout: u32,
) -> Seq<usize> {
    if has_last_resort && all_failed(sorted, health_check_timeout) {
        Seq::<usize>::empty()
    } else if !failover {
        seq![sorted[0].index]
    } else {
        measure_indices(sorted)
    }
}

/// Checks whether every ranked measure reached the failure threshold.
fn check_all_failed(sorted: &Vec<Measure>, health_check_timeout: u32) -> (r: bool)
    ensures
        r == all_failed(sorted@, health_check_timeout),
{
    let threshold: u128 = (health_check_timeout as u128) * 1000;
    let mut i: usize = 0;
    while i < sorted.len()
        invariant
            0 <= i <= sorted@.len(),
            threshold == threshold_of(health_check_timeout),
            forall|j: int|
                0 <= j < i ==> (#[trigger] sorted@[j]).millis >= threshold_of(
                    health_check_timeout,
                ),
        decreases sorted@.len() - i,
    {
        if sorted[i].millis < threshold {
            proof {
                assert(!((sorted@[i as int]).millis >= threshold_of(health_check_timeout)));
            }
            return false;
        }
        i = i + 1;
    }
    true
}

/// Builds the schedule from ranked measures.
pub fn compute_schedule(
    sorted: &Vec<Measure>,
    failover: bool,
    has_last_resort: bool,
    health_check_timeout: u32,
) -> (r: Vec<usize>)
    requires
        sorted@.len() > 0,
    ensures
        r@ == schedule_spec(sorted@, failover, has_last_resort, health_check_timeout),
{
    if has_last_resort {
        if check_all_failed(sorted, health_check_timeout) {
            return Vec::new();
        }
    }
    if !failover {
        let mut one: Vec<usize> = Vec::new();
        one.push(sorted[0].index);
        proof {
            assert(one@ =~= schedule_spec(sorted@, failover, has_last_resort, health_check_timeout));
        }
        return one;
    }
    let mut out: Vec<usize> = Vec::new();
    let mut i: usize = 0;
    while i < sorted.len()
        invariant
            0 <= i <= sorted@.len(),
            out@ == measure_indices(sorted@.take(i as int)),
        decreases sorted@.len() - i,
    {
        out.push(sorted[i].index);
        i = i + 1;
        proof {
            assert(out@ =~= measure_indices(sorted@.take(i as int)));
        }
    }
    proof {
        assert(sorted@.take(sorted@.len() as int) =~= sorted@);
    }
    out
}

/// Schedule validity: every element of a published schedule is the index of
/// some ranked measure, so with all probe indices below the actor count the
/// schedule holds valid actor indices only.
pub proof fn lemma_schedule_validity(
    sorted: Seq<Measure>,
    failover: bool,
    has_last_resort: bool,
    health_check_timeout: u32,
    n: usize,
)
    requires
        sorted.len() > 0,
        forall|i: int| 0 <= i < sorted.len() ==> (#[trigger] sorted[i]).index < n,
    ensures
        forall|i: int|
            0 <= i < schedule_spec(sorted, failover, has_last_resort, health_check_timeout).len()
                ==> #[trigger] schedule_spec(
                sorted,
                failover,
                has_last_resort,
                health_check_timeout,
            )[i] < n,
{
}

/// The last-resort trigger: with a last resort configured and every probe at
/// or past the threshold, the published schedule is empty, and a session
/// facing that schedule starts at the last resort.
pub proof fn lemma_last_resort_trigger(
    sorted: Seq<Measure>,
    failover: bool,
    health_check_timeout: u32,
    actors: usize,
)
    requires
        all_failed(sorted, health_check_timeout),
    ensures
        schedule_spec(sorted, failover, true, health_check_timeout) == Seq::<usize>::empty(),
        schedule_start_action(
            schedule_spec(sorted, failover, true, health_check_timeout),
            true,
            actors,
        ) == DispatchAction::UseLastResort,
{
}

/// Pairwise distinct actor indices among measures: one measure per actor.
pub open spec fn distinct_indices(ms: Seq<Measure>) -> bool {
    forall|i: int, j: int|
        0 <= i < j < ms.len() ==> (#[trigger] ms[i]).index != (#[trigger] ms[j]).index
}

/// No schedule slot repeats.
pub open spec fn distinct_slots(sched: Seq<usize>) -> bool {
    forall|i: int, j: int| 0 <= i < j < sched.len() ==> sched[i] != sched[j]
}

/// One measure per actor, one slot per actor: a ranking that is a
/// permutation of measures with pairwise distinct indices yields a schedule
/// without repeated indices.
pub proof fn lemma_schedule_indices_distinct(
    sorted: Seq<Measure>,
    measures: Seq<Measure>,
    failover: bool,
    has_last_resort: bool,
    health_check_timeout: u32,
)
    requires
        sorted.to_multiset() == measures.to_multiset(),
        sorted.len() == measures.len(),
        distinct_indices(measures),
    ensures
        distinct_slots(schedule_spec(sorted, failover, has_last_resort, health_check_timeout)),
{
    broadcast use vstd::seq_lib::group_to_multiset_ensures;

    assert forall|i: int, j: int| 0 <= i < j < sorted.len() implies (#[trigger] sorted[i]).index
        != (#[trigger] sorted[j]).index by {
        let x = sorted[i];
        let y = sorted[j];
        assert(sorted.contains(x));
        assert(measures.to_multiset().count(x) > 0);
        assert(measures.contains(x));
        let p = choose|p: int| 0 <= p < measures.len() && measures[p] == x;
        if x == y {
            // the same value twice in `sorted` means a count of at least two,
            // so two positions of `measures` hold it — against distinctness
            assert(sorted.remove(i).to_multiset() =~= sorted.to_multiset().remove(x));
            assert(sorted.remove(i)[j - 1] == y);
            assert(sorted.remove(i).contains(x));
            assert(sorted.to_multiset().remove(x).count(x) > 0);
            assert(measures.to_multiset().count(x) >= 2);
            assert(measures.remove(p).to_multiset() =~= measures.to_multiset().remove(x));
            assert(measures.remove(p).to_multiset().count(x) > 0);
            assert(measures.remove(p).contains(x));
            let q0 = choose|q0: int| 0 <= q0 < measures.remove(p).len() && measures.remove(p)[q0]
                == x;
            let q1: int = if q0 < p {
                q0
            } else {
                q0 + 1
            };
            assert(measures[q1] == x);
            assert(q1 != p);
            if p < q1 {
                assert(measures[p].index != measures[q1].index);
            } else {
                assert(measures[q1].index != measures[p].index);
            }
        } else {
            assert(sorted.contains(y));
            assert(measures.to_multiset().count(y) > 0);
            assert(measures.contains(y));
            let q = choose|q: int| 0 <= q < measures.len() && measures[q] == y;
            assert(p != q);
            if p < q {
                assert(measures[p].index != measures[q].index);
            } else {
                assert(measures[q].index != measures[p].index);
            }
        }
    }
}

/// What the dispatcher should do next with a session.
#[derive(Clone, Copy, Debug, PartialEq, Eq, Structural)]
pub enum DispatchAction {
    /// Attempt the remembered fallback actor, under the attempt budget.
    TryCached(usize),
    /// Attempt this actor from the schedule, under the attempt budget.
    TryScheduled(usize),
    /// Route through the last resort, with no budget.
    UseLastResort,
    /// Every outbound attempt failed.
    FailAll,
    /// The schedule holds an index no actor has.
    FailInvalidIndex,
}

/// The action for one position of a schedule snapshot.
pub open spec fn action_at(snapshot: Seq<usize>, pos: int, actors: usize) -> DispatchAction {
    if pos >= snapshot.len() {
        DispatchAction::FailAll
    } else if snapshot[pos] >= actors {
        DispatchAction::FailInvalidIndex
    } else {
        DispatchAction::TryScheduled(snapshot[pos])
    }
}

/// The first action of the schedule phase: an empty snapshot goes to the
/// last resort when one exists, and fails otherwise; else the walk starts at
/// the snapshot's front.
pub open spec fn schedule_start_action(
    snapshot: Seq<usize>,
    has_last_resort: bool,
    actors: usize,
) -> DispatchAction {
    if snapshot.len() == 0 && has_last_resort {
        DispatchAction::UseLastResort
    } else {
        action_at(snapshot, 0, actors)
    }
}

/// Which phase a session is in.
#[derive(Clone, Copy, Debug, PartialEq, Eq, Structural)]
pub enum Phase {
    /// Attempting the remembered fallback actor.
    Cached,
    /// Walking the schedule snapshot.
    Scheduled,
}

/// One session's dispatch state: the phase, and the snapshot of the schedule
/// with the current position in it.
pub struct SessionState {
    pub phase: Phase,
    pub snapshot: Vec<usize>,
    pub pos: usize,
}

/// The failover handler's state: the actor count, the shared schedule, the
/// health-check knobs, the one-shot slot for the health task, the optional
/// fallback cache, and whether a last resort stands behind everything.
pub struct Handler {
    /// How many outbound actors there are.
    pub actors: usize,
    /// Per-attempt budget, in seconds.
    pub fail_timeout: u32,
    /// The published schedule: actor indices in ranked order.
    pub schedule: Vec<usize>,
    /// Whether health checking is configured.
    pub health_check: bool,
    /// The one-shot slot: a health task is parked here until first use.
    pub health_check_task: bool,
    /// Seconds between health-check cycles.
    pub check_interval: u32,
    /// Whether the whole ranking enters the schedule, or just the best.
    pub failover: bool,
    /// Destination to last working non-primary actor.
    pub cache: Option<FallbackMap>,
    /// Whether a last resort exists.
    pub last_resort: bool,
    /// Probe time budget, in seconds.
    pub health_check_timeout: u32,
    /// Upper bound of the per-probe start jitter, in milliseconds.
    pub health_check_delay: u32,
    /// Probe target as "host:port" text.
    pub health_check_addr: Vec<u8>,
    /// Probe payload; empty means the default.
    pub health_check_content: Vec<u8>,
}

/// The fallback cache's contents, when there is one.
pub open spec fn cache_model(h: Handler) -> Option<Map<Seq<u8>, usize>> {
    match h.cache {
        Some(m) => Some(fallback_contents(m)),
        None => None,
    }
}

/// The fallback cache's bound and entry lifetime (in seconds), when there is
/// one.
pub open spec fn cache_knobs(h: Handler) -> Option<(nat, nat)> {
    match h.cache {
        Some(m) => Some((fallback_capacity(m), fallback_ttl(m))),
        None => None,
    }
}

/// The handler's fallback cache, if any, was built with a lifetime the
/// cache's expiry arithmetic can carry. Construction establishes this and
/// every operation keeps it.
pub open spec fn cache_ttl_ok(h: Handler) -> bool {
    match h.cache {
        Some(m) => fallback_ttl(m) <= FALLBACK_TTL_MAX_SECS as nat,
        None => true,
    }
}

/// The schedule every handler starts with: each actor once, in order.
pub open spec fn identity_schedule(n: usize) -> Seq<usize> {
    Seq::new(n as nat, |i: int| i as usize)
}

/// All of a handler's fields but the schedule, the cache and the task slot
/// agree.
pub open spec fn same_config(a: Handler, b: Handler) -> bool {
    &&& b.actors == a.actors
    &&& b.fail_timeout == a.fail_timeout
    &&& b.health_check == a.health_check
    &&& b.check_interval == a.check_interval
    &&& b.failover == a.failover
    &&& b.last_resort == a.last_resort
    &&& b.health_check_timeout == a.health_check_timeout
    &&& b.health_check_delay == a.health_check_delay
    &&& b.health_check_addr == a.health_check_addr
    &&& b.health_check_content == a.health_check_content
}

impl Handler {
    /// Builds a handler. The initial schedule lists every actor in given
    /// order; a health task is parked exactly when health checking is on;
    /// the fallback cache exists exactly when asked for, and starts empty.
    pub fn new(
        actors: usize,
        fail_timeout: u32,
        health_check: bool,
        check_interval: u32,
        failover: bool,
        fallback_cache: bool,
        cache_size: usize,
        cache_timeout_mins: u64,
        last_resort: bool,
        health_check_timeout: u32,
        health_check_delay: u32,
        health_check_addr: Vec<u8>,
        health_check_content: Vec<u8>,
    ) -> (r: Handler)
        requires
            cache_timeout_mins <= FALLBACK_TTL_MAX_SECS / 60,
            fallback_cache ==> cache_size >= 1,
        ensures
            cache_ttl_ok(r),
            r.schedule@ == identity_schedule(actors),
            r.actors == actors,
            r.fail_timeout == fail_timeout,
            r.health_check == health_check,
            r.health_check_task == health_check,
            r.check_interval == check_interval,
            r.failover == failover,
            r.last_resort == last_resort,
            r.health_check_timeout == health_check_timeout,
            r.health_check_delay == health_check_delay,
            r.health_check_addr@ == health_check_addr@,
            r.health_check_content@ == health_check_content@,
            (match r.cache {
                Some(m) => fallback_cache && fallback_contents(m)
                    == crate::fallback::no_fallback_contents() && fallback_capacity(m)
                    == cache_size as nat && fallback_ttl(m) == (cache_timeout_mins * 60) as nat,
                None => !fallback_cache,
            }),
    {
        let mut schedule: Vec<usize> = Vec::new();
        let mut i: usize = 0;
        while i < actors
            invariant
                0 <= i <= actors,
                schedule@.len() == i,
                forall|j: int| 0 <= j < i ==> #[trigger] schedule@[j] == j as usize,
            decreases actors - i,
        {
            schedule.push(i);
            i = i + 1;
        }
        proof {
            assert(schedule@ =~= identity_schedule(actors));
        }
        let cache: Option<FallbackMap> = if fallback_cache {
            Some(fallback_new(cache_timeout_mins * 60, cache_size))
        } else {
            None
        };
        Handler {
            actors,
            fail_timeout,
            schedule,
            health_check,
            health_check_task: health_check,
            check_interval,
            failover,
            cache,
            last_resort,
            health_check_timeout,
            health_check_delay,
            health_check_addr,
            health_check_content,
        }
    }

    /// Takes the parked health task: true exactly once, on first use, when
    /// health checking is on.
    pub fn take_health_task(&mut self) -> (r: bool)
        ensures
            r == old(self).health_check_task,
            !final(self).health_check_task,
            same_config(*old(self), *final(self)),
            final(self).schedule == old(self).schedule,
            final(self).cache == old(self).cache,
    {
        let r = self.health_check_task;
        self.health_check_task = false;
        r
    }

    /// Publishes a new schedule from a health cycle's measures: they are
    /// ranked by latency and the schedule policy applied. Every published
    /// element is a valid actor index.
    pub fn publish_schedule(&mut self, measures: Vec<Measure>)
        requires
            measures@.len() > 0,
            forall|i: int|
                0 <= i < measures@.len() ==> (#[trigger] measures@[i]).index < old(self).actors,
        ensures
            same_config(*old(self), *final(self)),
            final(self).health_check_task == old(self).health_check_task,
            final(self).cache == old(self).cache,
            final(self).schedule@ == schedule_spec(
                stable_sort_spec(measures@),
                old(self).failover,
                old(self).last_resort,
                old(self).health_check_timeout,
            ),
            forall|i: int|
                0 <= i < final(self).schedule@.len() ==> #[trigger] final(self).schedule@[i] < old(
                    self,
                ).actors,
            distinct_indices(measures@) ==> distinct_slots(final(self).schedule@),
    {
        let ghost input = measures@;
        let sorted = sort_measures(measures);
        proof {
            broadcast use vstd::seq_lib::group_to_multiset_ensures;

            assert forall|i: int| 0 <= i < sorted@.len() implies (#[trigger] sorted@[i]).index
                < self.actors by {
                assert(sorted@.contains(sorted@[i]));
                assert(sorted@.to_multiset().count(sorted@[i]) > 0);
                assert(input.to_multiset().count(sorted@[i]) > 0);
                assert(input.contains(sorted@[i]));
                let j = choose|j: int| 0 <= j < input.len() && input[j] == sorted@[i];
                assert(input[j].index < self.actors);
            }
            lemma_schedule_validity(
                sorted@,
                self.failover,
                self.last_resort,
                self.health_check_timeout,
                self.actors,
            );
            if distinct_indices(input) {
                lemma_schedule_indices_distinct(
                    sorted@,
                    input,
                    self.failover,
                    self.last_resort,
                    self.health_check_timeout,
                );
            }
        }
        let sched = compute_schedule(
            &sorted,
            self.failover,
            self.last_resort,
            self.health_check_timeout,
        );
        self.schedule = sched;
    }

    /// Opens a session: a remembered fallback actor (still within the actor
    /// range) is attempted first; otherwise the schedule snapshot decides,
    /// an empty one going to the last resort when it exists.
    pub fn begin_session(&mut self, dest: &Vec<u8>) -> (r: (SessionState, DispatchAction))
        requires
            cache_ttl_ok(*old(self)),
        ensures
            cache_ttl_ok(*final(self)),
            same_config(*old(self), *final(self)),
            final(self).schedule == old(self).schedule,
            final(self).health_check_task == old(self).health_check_task,
            old(self).cache is Some <==> final(self).cache is Some,
            old(self).cache is None ==> final(self).cache == old(self).cache,
            cache_knobs(*final(self)) == cache_knobs(*old(self)),
            (match (cache_model(*final(self)), cache_model(*old(self))) {
                (Some(post), Some(pre)) => forall|k: Seq<u8>|
                    #[trigger] post.contains_key(k) ==> pre.contains_key(k) && post[k] == pre[k],
                (None, None) => true,
                _ => false,
            }),
            (match r.1 {
                DispatchAction::TryCached(idx) => {
                    &&& r.0.phase is Cached
                    &&& cache_model(*old(self)) is Some
                    &&& cache_model(*old(self)).unwrap().contains_pair(dest@, idx)
                    &&& idx < old(self).actors
                },
                _ => {
                    &&& r.0.phase is Scheduled
                    &&& r.0.snapshot@ == old(self).schedule@
                    &&& r.0.pos == 0
                    &&& r.1 == schedule_start_action(
                        old(self).schedule@,
                        old(self).last_resort,
                        old(self).actors,
                    )
                },
            }),
            r.0.phase is Scheduled ==> r.0.snapshot@ == old(self).schedule@ && r.0.pos == 0,
    {
        let cached: Option<usize> = match &mut self.cache {
            Some(m) => fallback_get(m, dest),
            None => None,
        };
        match cached {
            Some(idx) => {
                if idx < self.actors {
                    let st = SessionState { phase: Phase::Cached, snapshot: Vec::new(), pos: 0 };
                    return (st, DispatchAction::TryCached(idx));
                }
            },
            None => {},
        }
        self.schedule_phase_start()
    }

    /// The schedule phase's opening: snapshots the schedule and decides the
    /// first action.
    fn schedule_phase_start(&self) -> (r: (SessionState, DispatchAction))
        ensures
            r.0.phase is Scheduled,
            r.0.snapshot@ == self.schedule@,
            r.0.pos == 0,
            r.1 == schedule_start_action(self.schedule@, self.last_resort, self.actors),
    {
        let snapshot = self.schedule.clone();
        let action = if snapshot.len() == 0 && self.last_resort {
            DispatchAction::UseLastResort
        } else if snapshot.len() == 0 {
            DispatchAction::FailAll
        } else if snapshot[0] >= self.actors {
            DispatchAction::FailInvalidIndex
        } else {
            DispatchAction::TryScheduled(snapshot[0])
        };
        (SessionState { phase: Phase::Scheduled, snapshot, pos: 0 }, action)
    }

    /// Feeds one attempt's outcome back. A successful cached attempt ends
    /// the session without touching the cache; a failed one moves to the
    /// schedule snapshot. A successful scheduled attempt ends the session
    /// and — only beyond the snapshot's front, and only when a fallback
    /// cache exists — remembers the destination's actor; a failed one steps
    /// to the next position.
    pub fn next_attempt(
        &mut self,
        st: &mut SessionState,
        dest: &Vec<u8>,
        succeeded: bool,
    ) -> (r: Option<DispatchAction>)
        requires
            cache_ttl_ok(*old(self)),
            (match old(st).phase {
                Phase::Cached => true,
                Phase::Scheduled => old(st).pos < old(st).snapshot@.len() && old(st).snapshot@[old(
                    st,
                ).pos as int] < old(self).actors,
            }),
        ensures
            cache_ttl_ok(*final(self)),
            same_config(*old(self), *final(self)),
            final(self).schedule == old(self).schedule,
            final(self).health_check_task == old(self).health_check_task,
            old(self).cache is Some <==> final(self).cache is Some,
            cache_knobs(*final(self)) == cache_knobs(*old(self)),
            (match old(st).phase {
                Phase::Cached => {
                    if succeeded {
                        &&& r is None
                        &&& final(self).cache == old(self).cache
                        &&& *final(st) == *old(st)
                    } else {
                        &&& final(st).phase is Scheduled
                        &&& final(st).snapshot@ == old(self).schedule@
                        &&& final(st).pos == 0
                        &&& r == Some(
                            schedule_start_action(
                                old(self).schedule@,
                                old(self).last_resort,
                                old(self).actors,
                            ),
                        )
                        &&& final(self).cache == old(self).cache
                    }
                },
                Phase::Scheduled => {
                    if succeeded {
                        &&& r is None
                        &&& *final(st) == *old(st)
                        &&& (if old(self).cache is Some && old(st).pos > 0 {
                            let post = cache_model(*final(self)).unwrap();
                            let pre = cache_model(*old(self)).unwrap();
                            &&& post.contains_pair(
                                dest@,
                                old(st).snapshot@[old(st).pos as int],
                            )
                            &&& (forall|k: Seq<u8>|
                                #[trigger] post.contains_key(k) && k != dest@ ==> pre.contains_key(
                                    k,
                                ) && post[k] == pre[k])
                        } else {
                            final(self).cache == old(self).cache
                        })
                    } else {
                        &&& final(self).cache == old(self).cache
                        &&& final(st).phase is Scheduled
                        &&& final(st).snapshot == old(st).snapshot
                        &&& final(st).pos == old(st).pos + 1
                        &&& r == Some(
                            action_at(
                                old(st).snapshot@,
                                old(st).pos + 1int,
                                old(self).actors,
                            ),
                        )
                    }
                },
            }),
    {
        match st.phase {
            Phase::Cached => {
                if succeeded {
                    None
                } else {
                    let (st2, action) = self.schedule_phase_start();
                    *st = st2;
                    Some(action)
                }
            },
            Phase::Scheduled => {
                if succeeded {
                    if st.pos > 0 {
                        let idx = st.snapshot[st.pos];
                        match &mut self.cache {
                            Some(m) => {
                                fallback_insert(m, dest.clone(), idx);
                            },
                            None => {},
                        }
                    }
                    None
                } else {
                    let n = st.snapshot.len();
                    st.pos = st.pos + 1;
                    let action = if st.pos >= n {
                        DispatchAction::FailAll
                    } else if st.snapshot[st.pos] >= self.actors {
                        DispatchAction::FailInvalidIndex
                    } else {
                        DispatchAction::TryScheduled(st.snapshot[st.pos])
                    };
                    Some(action)
                }
            },
        }
    }
}

/// The default probe target host, "www.google.com".
pub open spec fn default_probe_host() -> Seq<u8> {
    seq![119u8, 119u8, 119u8, 46u8, 103u8, 111u8, 111u8, 103u8, 108u8, 101u8, 46u8, 99u8, 111u8, 109u8]
}

/// The probe target a configured "host:port" stands for: with a colon, the
/// part before it and the decimal port after it (port 80 when the port does
/// not parse); without one, the default host and port 80.
pub open spec fn probe_target(addr: Seq<u8>) -> (Seq<u8>, u16) {
    let parts = split_on(addr, 0x3a);
    if parts.len() > 1 {
        (
            parts[0],
            match parse_dec_u16(parts[1]) {
                Some(p) => p,
                None => 80u16,
            },
        )
    } else {
        (default_probe_host(), 80u16)
    }
}

/// Splits the configured probe address into host and port.
pub fn parse_health_check_addr(addr: &Vec<u8>) -> (r: (Vec<u8>, u16))
    ensures
        r.0@ == probe_target(addr@).0,
        r.1 == probe_target(addr@).1,
{
    let parts = split_bytes(addr, 0x3a);
    proof {
        assert(parts@.map_values(|p: Vec<u8>| p@).len() == split_on(addr@, 0x3a).len());
        assert(parts@.map_values(|p: Vec<u8>| p@)[0] == split_on(addr@, 0x3a)[0]);
    }
    if parts.len() > 1 {
        proof {
            assert(parts@.map_values(|p: Vec<u8>| p@)[1] == split_on(addr@, 0x3a)[1]);
        }
        let port = match crate::bytes::dec_u16(&parts[1]) {
            Some(p) => p,
            None => 80,
        };
        let host = parts[0].clone();
        (host, port)
    } else {
        let host: Vec<u8> = vec![119, 119, 119, 46, 103, 111, 111, 103, 108, 101, 46, 99, 111, 109];
        proof {
            assert(host@ =~= default_probe_host());
        }
        (host, 80)
    }
}

/// The default probe payload, "HEAD / HTTP/1.1" and two line breaks.
pub open spec fn default_probe_content() -> Seq<u8> {
    seq![72u8, 69u8, 65u8, 68u8, 32u8, 47u8, 32u8, 72u8, 84u8, 84u8, 80u8, 47u8, 49u8, 46u8, 49u8, 13u8, 10u8, 13u8, 10u8]
}

/// The payload a probe sends: the configured one, or the default when none
/// is configured.
pub open spec fn probe_content(content: Seq<u8>) -> Seq<u8> {
    if content.len() == 0 {
        default_probe_content()
    } else {
        content
    }
}

/// Picks the effective probe payload.
pub fn effective_probe_content(content: &Vec<u8>) -> (r: Vec<u8>)
    ensures
        r@ == probe_content(content@),
{
    if content.len() == 0 {
        let d: Vec<u8> = vec![
            72, 69, 65, 68, 32, 47, 32, 72, 84, 84, 80, 47, 49, 46, 49, 13, 10, 13, 10,
        ];
        proof {
            assert(d@ =~= default_probe_content());
        }
        d
    } else {
        content.clone()
    }
}

} // verus!
