//! What the guard promises of any history of an endpoint.
//!
//! A history is a sequence of events on the stored row. Each request is asked
//! for, waited for and counted before the next one is asked for.
use vstd::prelude::*;

use crate::guard::{
    backing_off, backoff, budget_spent, duration_text, granted_state, law_backoff_grows,
    law_backoff_range, lemma_states_differ, loaded, pacing_wait, probe_in_flight, verdict, with_failure, with_request, with_success, GuardView, PermitView,
    FAIL_THRESHOLD, HOUR_MS, MIN_GAP_MS, STALE_PROBE_MS,
};
use crate::numbers::decimal;
use crate::sec::RateLimited;

verus! {

/// One event in the life of an endpoint.
pub enum GuardEvent {
    /// Permission is asked for at `now`; where it is given, the request is sent
    /// at `sent`.
    Acquire { now: int, sent: int },
    /// A request succeeded.
    Success { now: int },
    /// A request failed.
    Failure { now: int, limited: Option<RateLimited>, message: Seq<char> },
}

/// A request asked for at `now` is let through.
pub open spec fn may_send(row: Option<GuardView>, budget: int, now: int) -> bool {
    let g = loaded(row, budget, now);
    !budget_spent(g, budget) && !backing_off(g, now) && !probe_in_flight(g, now)
}

/// The stored row after an event.
pub open spec fn after(row: Option<GuardView>, budget: int, e: GuardEvent) -> Option<GuardView> {
    match e {
        GuardEvent::Acquire { now, sent } => {
            let g = loaded(row, budget, now);
            if may_send(row, budget, now) {
                Some(with_request(g, granted_state(g), sent))
            } else {
                Some(g)
            }
        },
        GuardEvent::Success { now } => match row {
            Some(r) => Some(with_success(r, now)),
            None => None,
        },
        GuardEvent::Failure { now, limited, message } => Some(
            with_failure(loaded(row, budget, now), now, limited, message),
        ),
    }
}

/// The stored row after a history.
pub open spec fn run(row: Option<GuardView>, budget: int, events: Seq<GuardEvent>) -> Option<
    GuardView,
>
    decreases events.len(),
{
    if events.len() == 0 {
        row
    } else {
        after(run(row, budget, events.drop_last()), budget, events.last())
    }
}

/// The event asks for a request and gets it.
pub open spec fn lets_through(row: Option<GuardView>, budget: int, e: GuardEvent) -> bool {
    e matches GuardEvent::Acquire { now, .. } && may_send(row, budget, now)
}

/// The `i`-th event of a history asks for a request and gets it.
pub open spec fn granted_at(
    row: Option<GuardView>,
    budget: int,
    events: Seq<GuardEvent>,
    i: int,
) -> bool {
    0 <= i < events.len() && lets_through(run(row, budget, events.take(i)), budget, events[i])
}

/// When the request of an event is sent.
pub open spec fn sent_at(e: GuardEvent) -> int {
    match e {
        GuardEvent::Acquire { sent, .. } => sent,
        _ => 0,
    }
}

proof fn lemma_run_step(row: Option<GuardView>, budget: int, events: Seq<GuardEvent>, i: int)
    requires
        0 <= i < events.len(),
    ensures
        run(row, budget, events.take(i + 1)) == after(
            run(row, budget, events.take(i)),
            budget,
            events[i],
        ),
{
    assert(events.take(i + 1).drop_last() =~= events.take(i));
}

/// A request is let through exactly where the verdict grants it.
pub proof fn law_verdict(row: Option<GuardView>, endpoint: Seq<char>, budget: int, now: int)
    ensures
        may_send(row, budget, now) <==> verdict(
            endpoint,
            budget,
            loaded(row, budget, now),
            now,
        ) is Granted,
{
}

// ── budget ─────────────────────────────────────────────────────────────────

/// The number of requests that a history lets through in the budget window that
/// starts at `h`.
pub open spec fn charged(
    row: Option<GuardView>,
    budget: int,
    events: Seq<GuardEvent>,
    h: int,
) -> nat
    decreases events.len(),
{
    if events.len() == 0 {
        0
    } else {
        let before = run(row, budget, events.drop_last());
        let earlier = charged(row, budget, events.drop_last(), h);
        match events.last() {
            GuardEvent::Acquire { now, .. } if may_send(before, budget, now) && loaded(
                before,
                budget,
                now,
            ).hour_start == Some(h) => earlier + 1,
            _ => earlier,
        }
    }
}

proof fn lemma_charged(row: Option<GuardView>, budget: int, events: Seq<GuardEvent>, h: int)
    requires
        row matches Some(r) ==> r.hour_count >= 0,
    ensures
        charged(row, budget, events, h) <= (if budget < 0 {
            0
        } else {
            budget
        }),
        match run(row, budget, events) {
            None => charged(row, budget, events, h) == 0,
            Some(r) => {
                &&& r.hour_count >= 0
                &&& match r.hour_start {
                    None => charged(row, budget, events, h) == 0,
                    Some(start) => {
                        &&& start < h ==> charged(row, budget, events, h) == 0
                        &&& start == h ==> charged(row, budget, events, h) <= r.hour_count
                    },
                }
            },
        },
    decreases events.len(),
{
    if events.len() > 0 {
        lemma_charged(row, budget, events.drop_last(), h);
    }
}

/// In every budget window at most the budget's number of requests are let
/// through, whatever happens in it.
pub proof fn law_budget(row: Option<GuardView>, budget: int, events: Seq<GuardEvent>, h: int)
    requires
        budget >= 0,
        row matches Some(r) ==> r.hour_count >= 0,
    ensures
        charged(row, budget, events, h) <= budget,
{
    lemma_charged(row, budget, events, h);
}

/// Every request is let through before its budget window runs out.
pub proof fn law_request_in_its_window(row: Option<GuardView>, budget: int, now: int)
    ensures
        loaded(row, budget, now).hour_start matches Some(h) && now < h + HOUR_MS,
{
}

/// Budget windows do not overlap: a window that replaces another starts at least
/// an hour after it.
pub proof fn law_windows_apart(
    row: Option<GuardView>,
    budget: int,
    events: Seq<GuardEvent>,
    h: int,
)
    requires
        row matches Some(r) && r.hour_start == Some(h),
    ensures
        run(row, budget, events) matches Some(r) && (r.hour_start matches Some(k) && (k == h || k
            >= h + HOUR_MS)),
    decreases events.len(),
{
    if events.len() > 0 {
        law_windows_apart(row, budget, events.drop_last(), h);
    }
}

/// When an event happens.
pub open spec fn time_of(e: GuardEvent) -> int {
    match e {
        GuardEvent::Acquire { now, .. } => now,
        GuardEvent::Success { now } => now,
        GuardEvent::Failure { now, .. } => now,
    }
}

/// The clock never runs backwards: not between two events, nor before the stored
/// window.
pub open spec fn clock_advances(row: Option<GuardView>, events: Seq<GuardEvent>) -> bool {
    &&& forall|i: int, j: int|
        0 <= i < j < events.len() ==> time_of(#[trigger] events[i]) <= time_of(#[trigger] events[j])
    &&& forall|i: int|
        0 <= i < events.len() ==> (row matches Some(r) ==> (r.hour_start matches Some(h) ==> h
            <= time_of(#[trigger] events[i])))
}

/// The number of requests that a history lets through in the hour from `t` on.
pub open spec fn let_through_within(
    row: Option<GuardView>,
    budget: int,
    events: Seq<GuardEvent>,
    t: int,
) -> nat
    decreases events.len(),
{
    if events.len() == 0 {
        0
    } else {
        let before = run(row, budget, events.drop_last());
        let earlier = let_through_within(row, budget, events.drop_last(), t);
        if lets_through(before, budget, events.last()) && t <= time_of(events.last()) < t
            + HOUR_MS {
            earlier + 1
        } else {
            earlier
        }
    }
}

/// The window that a row counts in started no later than `now`.
spec fn window_started(row: Option<GuardView>, now: int) -> bool {
    row matches Some(r) ==> (r.hour_start matches Some(h) ==> h <= now)
}

proof fn lemma_window_started(
    row: Option<GuardView>,
    budget: int,
    events: Seq<GuardEvent>,
    now: int,
)
    requires
        clock_advances(row, events),
        window_started(row, now),
        forall|i: int| 0 <= i < events.len() ==> time_of(#[trigger] events[i]) <= now,
    ensures
        window_started(run(row, budget, events), now),
    decreases events.len(),
{
    if events.len() > 0 {
        let before = events.drop_last();
        assert forall|i: int| 0 <= i < before.len() implies time_of(#[trigger] before[i]) <= now by {
            assert(before[i] == events[i]);
        }
        lemma_clock_of_prefix(row, events);
        lemma_window_started(row, budget, before, now);
        assert(time_of(events[events.len() - 1]) <= now);
    }
}

proof fn lemma_clock_of_prefix(row: Option<GuardView>, events: Seq<GuardEvent>)
    requires
        clock_advances(row, events),
        events.len() > 0,
    ensures
        clock_advances(row, events.drop_last()),
        forall|i: int|
            0 <= i < events.len() - 1 ==> time_of(#[trigger] events.drop_last()[i]) <= time_of(
                events.last(),
            ),
        window_started(row, time_of(events.last())),
{
    let before = events.drop_last();
    assert(events[events.len() - 1] == events.last());
    assert forall|i: int, j: int| 0 <= i < j < before.len() implies time_of(#[trigger] before[i])
        <= time_of(#[trigger] before[j]) by {
        assert(before[i] == events[i] && before[j] == events[j]);
    }
    assert forall|i: int| 0 <= i < before.len() implies (row matches Some(r) ==> (
    r.hour_start matches Some(h) ==> h <= time_of(#[trigger] before[i]))) by {
        assert(before[i] == events[i]);
    }
    assert forall|i: int| 0 <= i < before.len() implies time_of(#[trigger] before[i]) <= time_of(
        events.last(),
    ) by {
        assert(before[i] == events[i]);
    }
}

/// The requests of an hour fall into at most two budget windows: none, one that
/// starts at `a`, or two that start at `a` and `b`.
spec fn two_windows(
    row: Option<GuardView>,
    budget: int,
    events: Seq<GuardEvent>,
    t: int,
    k: int,
    a: int,
    b: int,
) -> bool {
    let n = let_through_within(row, budget, events, t);
    let at_a = charged(row, budget, events, a);
    let at_b = charged(row, budget, events, b);
    let current = match run(row, budget, events) {
        Some(r) => r.hour_start,
        None => None,
    };
    ||| k == 0 && n == 0
    ||| k == 1 && n <= at_a && a > t - HOUR_MS && (current matches Some(h) && (h == a || h >= a
        + HOUR_MS))
    ||| k == 2 && n <= at_a + at_b && a > t - HOUR_MS && b >= a + HOUR_MS && (
    current matches Some(h) && (h == b || h >= b + HOUR_MS))
}

proof fn lemma_two_windows(
    row: Option<GuardView>,
    budget: int,
    events: Seq<GuardEvent>,
    t: int,
) -> (w: (int, int, int))
    requires
        clock_advances(row, events),
    ensures
        two_windows(row, budget, events, t, w.0, w.1, w.2),
    decreases events.len(),
{
    if events.len() == 0 {
        (0, 0, 0)
    } else {
        let before = events.drop_last();
        let e = events.last();
        lemma_clock_of_prefix(row, events);
        let (k, a, b) = lemma_two_windows(row, budget, before, t);
        let r = run(row, budget, before);
        lemma_window_started(row, budget, before, time_of(e));
        let now = time_of(e);
        if lets_through(r, budget, e) && t <= now < t + HOUR_MS {
            let h = loaded(r, budget, now).hour_start->0;
            assert(h <= now < h + HOUR_MS);
            if k == 0 {
                (1, h, h)
            } else if k == 1 && h != a {
                (2, a, h)
            } else {
                (k, a, b)
            }
        } else {
            (k, a, b)
        }
    }
}

/// Whatever hour is looked at, it sees at most twice the budget: the requests in
/// it fall into at most two budget windows.
pub proof fn law_any_hour(row: Option<GuardView>, budget: int, events: Seq<GuardEvent>, t: int)
    requires
        budget >= 0,
        row matches Some(r) ==> r.hour_count >= 0,
        clock_advances(row, events),
    ensures
        let_through_within(row, budget, events, t) <= 2 * budget,
{
    let (k, a, b) = lemma_two_windows(row, budget, events, t);
    law_budget(row, budget, events, a);
    law_budget(row, budget, events, b);
}

// ── pacing ─────────────────────────────────────────────────────────────────

/// Every request that is let through was held back for the wait that it was
/// given.
pub open spec fn waits_kept(
    row: Option<GuardView>,
    budget: int,
    events: Seq<GuardEvent>,
) -> bool {
    forall|i: int| #[trigger]
        granted_at(row, budget, events, i) ==> (events[i] matches GuardEvent::Acquire { now, sent }
            && sent >= now + pacing_wait(
            loaded(run(row, budget, events.take(i)), budget, now),
            now,
        ))
}

proof fn lemma_last_request(
    row: Option<GuardView>,
    budget: int,
    events: Seq<GuardEvent>,
    i: int,
    k: int,
)
    requires
        granted_at(row, budget, events, i),
        waits_kept(row, budget, events),
        i < k <= events.len(),
    ensures
        run(row, budget, events.take(k)) matches Some(r) && (r.last_request_at matches Some(last)
            && last >= sent_at(events[i])),
    decreases k,
{
    lemma_run_step(row, budget, events, k - 1);
    if k - 1 > i {
        lemma_last_request(row, budget, events, i, k - 1);
        assert(granted_at(row, budget, events, k - 1) <==> lets_through(
            run(row, budget, events.take(k - 1)),
            budget,
            events[k - 1],
        ));
    }
}

/// Any two requests that are let through are sent at least [`MIN_GAP_MS`] apart.
pub proof fn law_pacing(
    row: Option<GuardView>,
    budget: int,
    events: Seq<GuardEvent>,
    i: int,
    j: int,
)
    requires
        waits_kept(row, budget, events),
        i < j,
        granted_at(row, budget, events, i),
        granted_at(row, budget, events, j),
    ensures
        sent_at(events[j]) - sent_at(events[i]) >= MIN_GAP_MS,
{
    lemma_last_request(row, budget, events, i, j);
}

// ── breaker ────────────────────────────────────────────────────────────────

/// The event asks for permission at some time that satisfies `when`.
pub open spec fn asks_while(e: GuardEvent, when: spec_fn(int) -> bool) -> bool {
    e matches GuardEvent::Acquire { now, .. } && when(now)
}

/// While the breaker is open and its backoff has not elapsed, every request is
/// refused, however often it is asked for.
pub proof fn law_open_refuses(
    r: GuardView,
    budget: int,
    events: Seq<GuardEvent>,
    retry_at: int,
    i: int,
)
    requires
        r.state == "open"@,
        r.retry_at == Some(retry_at),
        forall|k: int|
            0 <= k < events.len() ==> asks_while(#[trigger] events[k], |now: int| now < retry_at),
        0 <= i < events.len(),
    ensures
        !granted_at(Some(r), budget, events, i),
{
    lemma_open_stays(r, budget, events, retry_at, i);
    assert(asks_while(events[i], |now: int| now < retry_at));
}

proof fn lemma_open_stays(
    r: GuardView,
    budget: int,
    events: Seq<GuardEvent>,
    retry_at: int,
    k: int,
)
    requires
        r.state == "open"@,
        r.retry_at == Some(retry_at),
        forall|k: int|
            0 <= k < events.len() ==> asks_while(#[trigger] events[k], |now: int| now < retry_at),
        0 <= k <= events.len(),
    ensures
        run(Some(r), budget, events.take(k)) matches Some(g) && g.state == "open"@ && g.retry_at
            == Some(retry_at),
    decreases k,
{
    if k > 0 {
        lemma_open_stays(r, budget, events, retry_at, k - 1);
        lemma_run_step(Some(r), budget, events, k - 1);
        assert(asks_while(events[k - 1], |now: int| now < retry_at));
    }
}

/// Once the backoff has elapsed, the first request that is let through becomes
/// the breaker's probe.
pub proof fn law_probe(r: GuardView, budget: int, now: int, sent: int)
    requires
        r.state == "open"@,
        r.retry_at matches Some(t) ==> now >= t,
        !budget_spent(loaded(Some(r), budget, now), budget),
    ensures
        may_send(Some(r), budget, now),
        after(Some(r), budget, GuardEvent::Acquire { now, sent }) matches Some(g) && g.state
            == "half_open"@ && g.updated_at == sent,
{
    lemma_states_differ();
}

/// Only one probe is in flight: until its outcome is recorded or it is old enough
/// to be abandoned, every further request is refused.
pub proof fn law_one_probe(r: GuardView, budget: int, events: Seq<GuardEvent>, i: int)
    requires
        r.state == "half_open"@,
        forall|k: int|
            0 <= k < events.len() ==> asks_while(
                #[trigger] events[k],
                |now: int| now - r.updated_at <= STALE_PROBE_MS,
            ),
        0 <= i < events.len(),
    ensures
        !granted_at(Some(r), budget, events, i),
{
    lemma_probe_stays(r, budget, events, i);
    assert(asks_while(events[i], |now: int| now - r.updated_at <= STALE_PROBE_MS));
}

proof fn lemma_probe_stays(r: GuardView, budget: int, events: Seq<GuardEvent>, k: int)
    requires
        r.state == "half_open"@,
        forall|k: int|
            0 <= k < events.len() ==> asks_while(
                #[trigger] events[k],
                |now: int| now - r.updated_at <= STALE_PROBE_MS,
            ),
        0 <= k <= events.len(),
    ensures
        run(Some(r), budget, events.take(k)) matches Some(g) && g.state == "half_open"@
            && g.updated_at == r.updated_at,
    decreases k,
{
    if k > 0 {
        lemma_probe_stays(r, budget, events, k - 1);
        lemma_run_step(Some(r), budget, events, k - 1);
        assert(asks_while(events[k - 1], |now: int| now - r.updated_at <= STALE_PROBE_MS));
    }
}

/// An abandoned probe does not wedge the breaker: a later request is let through
/// as a fresh probe.
pub proof fn law_abandoned_probe(r: GuardView, budget: int, now: int, sent: int)
    requires
        r.state == "half_open"@,
        now - r.updated_at > STALE_PROBE_MS,
        !budget_spent(loaded(Some(r), budget, now), budget),
    ensures
        may_send(Some(r), budget, now),
        after(Some(r), budget, GuardEvent::Acquire { now, sent }) matches Some(g) && g.state
            == "half_open"@ && g.updated_at == sent,
{
    lemma_states_differ();
}

/// A success closes the breaker and clears every failure counter: from then on
/// only the budget can refuse a request.
pub proof fn law_success_closes(r: GuardView, budget: int, at: int, now: int)
    ensures
        after(Some(r), budget, GuardEvent::Success { now: at }) matches Some(g) && {
            &&& g.state == "closed"@
            &&& g.fail_streak == 0
            &&& g.trip_count == 0
            &&& g.retry_at is None
            &&& (may_send(Some(g), budget, now) <==> !budget_spent(
                loaded(Some(g), budget, now),
                budget,
            ))
        },
{
    lemma_states_differ();
}

/// A rate-limit signal opens the breaker at once, whatever its state, for at
/// least the backoff of the trip and at least as long as the endpoint asked.
pub proof fn law_rate_limit_trips(
    row: Option<GuardView>,
    budget: int,
    now: int,
    limited: RateLimited,
    message: Seq<char>,
)
    ensures
        after(row, budget, GuardEvent::Failure { now, limited: Some(limited), message }) matches Some(
            g,
        ) && {
            &&& g.state == "open"@
            &&& (g.retry_at matches Some(t) && {
                &&& t >= now + backoff(g.trip_count) * 1000
                &&& (limited.retry_after_secs matches Some(asked) ==> t >= now + asked * 1000)
            })
        },
{
}

/// A failed probe opens the breaker again, for no less time than the trip before
/// it.
pub proof fn law_failed_probe_reopens(
    r: GuardView,
    budget: int,
    now: int,
    limited: Option<RateLimited>,
    message: Seq<char>,
)
    requires
        r.state == "half_open"@,
    ensures
        after(Some(r), budget, GuardEvent::Failure { now, limited, message }) matches Some(g) && {
            &&& g.state == "open"@
            &&& g.trip_count == r.trip_count + 1
            &&& (g.retry_at matches Some(t) && t >= now + backoff(r.trip_count + 1) * 1000 && t
                >= now + backoff(r.trip_count) * 1000)
        },
{
    lemma_states_differ();
    law_backoff_grows(r.trip_count, r.trip_count + 1);
}

/// The event is a request or an ordinary failure.
pub open spec fn ordinary(e: GuardEvent) -> bool {
    match e {
        GuardEvent::Acquire { .. } => true,
        GuardEvent::Success { .. } => false,
        GuardEvent::Failure { limited, .. } => limited is None,
    }
}

/// The number of failures in a history.
pub open spec fn failures(events: Seq<GuardEvent>) -> nat
    decreases events.len(),
{
    if events.len() == 0 {
        0
    } else if events.last() is Failure {
        failures(events.drop_last()) + 1
    } else {
        failures(events.drop_last())
    }
}

/// Ordinary failures without a success between them are counted, and leave the
/// breaker closed while they are few.
pub proof fn law_short_streak(r: GuardView, budget: int, events: Seq<GuardEvent>)
    requires
        r.state == "closed"@,
        r.fail_streak == 0,
        forall|k: int| 0 <= k < events.len() ==> ordinary(#[trigger] events[k]),
        failures(events) < FAIL_THRESHOLD,
    ensures
        run(Some(r), budget, events) matches Some(g) && g.state == "closed"@ && g.fail_streak
            == failures(events) && g.trip_count == r.trip_count,
    decreases events.len(),
{
    if events.len() > 0 {
        let before = events.drop_last();
        assert forall|k: int| 0 <= k < before.len() implies ordinary(#[trigger] before[k]) by {
            assert(before[k] == events[k]);
        }
        law_short_streak(r, budget, before);
        assert(ordinary(events[events.len() - 1]));
        lemma_states_differ();
    }
}

/// The failure that makes a streak of ordinary failures too long opens the
/// breaker.
pub proof fn law_long_streak(
    r: GuardView,
    budget: int,
    events: Seq<GuardEvent>,
    now: int,
    message: Seq<char>,
)
    requires
        r.state == "closed"@,
        r.fail_streak == 0,
        forall|k: int| 0 <= k < events.len() ==> ordinary(#[trigger] events[k]),
        failures(events) == FAIL_THRESHOLD - 1,
    ensures
        after(
            run(Some(r), budget, events),
            budget,
            GuardEvent::Failure { now, limited: None, message },
        ) matches Some(g) && g.state == "open"@ && g.trip_count == r.trip_count + 1 && g.retry_at
            == Some(now + backoff(r.trip_count + 1) * 1000),
{
    law_short_streak(r, budget, events);
}

/// An ordinary failure while the breaker is open, of a request that was in flight
/// when it opened, only lengthens the streak: below the threshold it neither
/// counts as a trip nor moves the time of the retry.
pub proof fn law_failure_while_open(r: GuardView, budget: int, now: int, message: Seq<char>)
    requires
        r.state == "open"@,
        r.fail_streak + 1 < FAIL_THRESHOLD,
    ensures
        after(Some(r), budget, GuardEvent::Failure { now, limited: None, message }) matches Some(
            g,
        ) && {
            &&& g.state == r.state
            &&& g.trip_count == r.trip_count
            &&& g.opened_at == r.opened_at
            &&& g.retry_at == r.retry_at
            &&& g.fail_streak == r.fail_streak + 1
        },
{
    lemma_states_differ();
}

/// The event is an ordinary failure, or asks for a request before `retry_at`.
pub open spec fn before_retry(e: GuardEvent, retry_at: int) -> bool {
    ordinary(e) && (e matches GuardEvent::Acquire { now, .. } ==> now < retry_at)
}

/// One outage is one trip: however the requests that were in flight fail, while
/// they are few the breaker stays open as it is until its retry, whatever is
/// asked for meanwhile.
pub proof fn law_one_outage_one_trip(
    r: GuardView,
    budget: int,
    events: Seq<GuardEvent>,
    retry_at: int,
)
    requires
        r.state == "open"@,
        r.retry_at == Some(retry_at),
        forall|k: int| 0 <= k < events.len() ==> before_retry(#[trigger] events[k], retry_at),
        r.fail_streak + failures(events) < FAIL_THRESHOLD,
    ensures
        run(Some(r), budget, events) matches Some(g) && {
            &&& g.state == r.state
            &&& g.trip_count == r.trip_count
            &&& g.opened_at == r.opened_at
            &&& g.retry_at == r.retry_at
            &&& g.fail_streak == r.fail_streak + failures(events)
        },
    decreases events.len(),
{
    if events.len() > 0 {
        let before = events.drop_last();
        assert forall|k: int| 0 <= k < before.len() implies before_retry(
            #[trigger] before[k],
            retry_at,
        ) by {
            assert(before[k] == events[k]);
        }
        law_one_outage_one_trip(r, budget, before, retry_at);
        assert(before_retry(events[events.len() - 1], retry_at));
        lemma_states_differ();
    }
}

/// From its first use on, the breaker is in one of its three states, its counters
/// are not negative, and a streak never reaches the threshold without a trip.
pub proof fn law_states(budget: int, events: Seq<GuardEvent>)
    ensures
        run(None, budget, events) matches Some(r) ==> {
            &&& r.state == "closed"@ || r.state == "open"@ || r.state == "half_open"@
            &&& r.fail_streak >= 0
            &&& r.trip_count >= 0
            &&& r.hour_count >= 0
            &&& (r.state != "closed"@ ==> r.retry_at is Some && r.trip_count > 0)
            &&& r.fail_streak < FAIL_THRESHOLD
        },
    decreases events.len(),
{
    lemma_states_differ();
    if events.len() > 0 {
        law_states(budget, events.drop_last());
    }
}

// ── the numbers themselves ─────────────────────────────────────────────────

/// The requests that count against the budget at `now`: those of the window, while
/// it has not run for an hour.
pub open spec fn used(row: Option<GuardView>, now: int) -> int {
    match row {
        Some(r) => if r.hour_start matches Some(h) && now - h < 3_600_000 {
            r.hour_count
        } else {
            0
        },
        None => 0,
    }
}

/// A request is let through exactly where fewer requests than the budget were
/// counted in the running hour, the breaker is not open with its retry still ahead,
/// and it is not half-open with a probe of the last ten minutes. Nothing else
/// refuses one: the whole budget can be used.
pub proof fn law_when_let_through(
    row: Option<GuardView>,
    endpoint: Seq<char>,
    budget: int,
    now: int,
)
    ensures
        verdict(endpoint, budget, loaded(row, budget, now), now) is Granted <==> used(row, now)
            < budget && match row {
            Some(r) => {
                &&& r.state == "open"@ ==> (r.retry_at matches Some(t) ==> t <= now)
                &&& r.state == "half_open"@ ==> now - r.updated_at > 600_000
            },
            None => true,
        },
{
    lemma_states_differ();
}

/// What a refusal says: the budget is named exactly where it is used up, with both
/// numbers and the time until the window ends; else the breaker is, with the time
/// until its retry, or its probe.
pub proof fn law_refusal(row: Option<GuardView>, endpoint: Seq<char>, budget: int, now: int)
    ensures
        used(row, now) >= budget ==> ({
            let window = match row {
                Some(r) => match r.hour_start {
                    Some(h) => if now - h < 3_600_000 {
                        h
                    } else {
                        now
                    },
                    None => now,
                },
                None => now,
            };
            verdict(endpoint, budget, loaded(row, budget, now), now) == PermitView::Denied(
                endpoint + " hourly budget spent ("@ + decimal(used(row, now)) + "/"@ + decimal(
                    budget,
                ) + "), resets in "@ + duration_text((window + 3_600_000 - now) / 1000),
            )
        }),
        used(row, now) < budget ==> (row matches Some(r) ==> {
            &&& r.state == "open"@ && (r.retry_at matches Some(t) && now < t) ==> verdict(
                endpoint,
                budget,
                loaded(row, budget, now),
                now,
            ) == PermitView::Denied(
                endpoint + " circuit breaker open, retry in "@ + duration_text(
                    (r.retry_at->0 - now) / 1000,
                ),
            )
            &&& r.state == "half_open"@ && now - r.updated_at <= 600_000 ==> verdict(
                endpoint,
                budget,
                loaded(row, budget, now),
                now,
            ) == PermitView::Denied(endpoint + " circuit breaker half-open, probe in flight"@)
        }),
{
    lemma_states_differ();
}

/// A request waits until a second and a half after the last one, and not longer;
/// the first one does not wait.
pub proof fn law_wait(row: Option<GuardView>, budget: int, now: int)
    ensures
        ({
            let wait = pacing_wait(loaded(row, budget, now), now);
            match row {
                Some(r) => match r.last_request_at {
                    Some(last) => {
                        &&& wait >= 0
                        &&& now + wait >= last + 1500
                        &&& wait > 0 ==> now + wait == last + 1500
                    },
                    None => wait == 0,
                },
                None => wait == 0,
            }
        }),
{
}

/// Loading a row touches nothing but its budget and its window: an hour after it
/// started, a new window starts with nothing counted.
pub proof fn law_load(r: GuardView, budget: int, now: int)
    ensures
        ({
            let g = loaded(Some(r), budget, now);
            let running = r.hour_start matches Some(h) && now - h < 3_600_000;
            &&& g.hour_start == (if running {
                r.hour_start
            } else {
                Some(now)
            })
            &&& g.hour_count == (if running {
                r.hour_count
            } else {
                0
            })
            &&& g == GuardView {
                hourly_budget: budget,
                hour_start: g.hour_start,
                hour_count: g.hour_count,
                ..r
            }
        }),
        ({
            let g = loaded(None, budget, now);
            &&& g.state == "closed"@
            &&& g.fail_streak == 0 && g.trip_count == 0 && g.hour_count == 0
            &&& g.opened_at is None && g.retry_at is None && g.last_request_at is None
            &&& g.last_ok_at is None && g.last_error is None && g.last_error_at is None
            &&& g.hour_start == Some(now) && g.hourly_budget == budget && g.updated_at == now
        }),
{
}

/// A request that is let through is counted once, at the time it is sent, and
/// leaves the breaker half-open where it was not closed.
pub proof fn law_request_is_counted(row: Option<GuardView>, budget: int, now: int, sent: int)
    requires
        may_send(row, budget, now),
    ensures
        after(row, budget, GuardEvent::Acquire { now, sent }) matches Some(g) && {
            &&& g.hour_count == used(row, now) + 1
            &&& g.last_request_at == Some(sent)
            &&& g.updated_at == sent
            &&& (row matches Some(r) ==> {
                &&& g.state == (if r.state == "open"@ || r.state == "half_open"@ {
                    "half_open"@
                } else {
                    r.state
                })
                &&& g == GuardView {
                    state: g.state,
                    hour_start: g.hour_start,
                    hour_count: g.hour_count,
                    last_request_at: g.last_request_at,
                    updated_at: g.updated_at,
                    hourly_budget: budget,
                    ..r
                }
            })
        },
{
    lemma_states_differ();
}

/// A success leaves what was counted and sent as it is, and notes when it was.
pub proof fn law_success(r: GuardView, budget: int, now: int)
    ensures
        after(Some(r), budget, GuardEvent::Success { now }) == Some(
            GuardView {
                state: "closed"@,
                fail_streak: 0,
                trip_count: 0,
                opened_at: None,
                retry_at: None,
                last_ok_at: Some(now),
                updated_at: now,
                ..r
            },
        ),
{
}

/// A failure opens the breaker exactly where it was a rate-limit signal, a probe,
/// or the fourth in a row. Then it is retried after the backoff of the trip, or
/// after what the endpoint asked for where that is longer. Any other failure only
/// adds to the streak. Either way the failure is noted, and what was counted and
/// sent stays.
pub proof fn law_failure(
    r: GuardView,
    budget: int,
    now: int,
    limited: Option<RateLimited>,
    message: Seq<char>,
)
    ensures
        after(Some(r), budget, GuardEvent::Failure { now, limited, message }) matches Some(g) && {
            let opened = limited is Some || r.state == "half_open"@ || r.fail_streak >= 3;
            let own = backoff(r.trip_count + 1);
            let asked = match limited {
                Some(l) => match l.retry_after_secs {
                    Some(secs) => secs as int,
                    None => 0,
                },
                None => 0,
            };
            let wait = if asked > own {
                asked
            } else {
                own
            };
            &&& g.last_error == Some(message)
            &&& g.last_error_at == Some(now)
            &&& g.updated_at == now
            &&& g.last_request_at == r.last_request_at
            &&& g.last_ok_at == r.last_ok_at
            &&& g.hour_count == used(Some(r), now)
            &&& (opened ==> g.state == "open"@ && g.fail_streak == 0 && g.trip_count
                == r.trip_count + 1 && g.opened_at == Some(now) && g.retry_at == Some(
                now + wait * 1000,
            ))
            &&& (!opened ==> g.state == r.state && g.fail_streak == r.fail_streak + 1
                && g.trip_count == r.trip_count && g.opened_at == r.opened_at && g.retry_at
                == r.retry_at)
        },
{
    law_backoff_range(r.trip_count + 1);
}

/// Half an hour after the first trip; from one trip to the next the double, but
/// never more than a day.
pub proof fn law_backoff_doubles(n: int)
    ensures
        n <= 1 ==> backoff(n) == 1800,
        n >= 1 ==> backoff(n + 1) == (if 2 * backoff(n) < 86400 {
            2 * backoff(n)
        } else {
            86400
        }),
{
}

/// A duration is written in its hours and minutes, in its minutes, or in its
/// seconds, whichever is the first that there is.
pub proof fn law_duration(h: int, m: int, s: int)
    requires
        0 <= h,
        0 <= m < 60,
        0 <= s < 60,
    ensures
        h > 0 ==> duration_text(3600 * h + 60 * m + s) == decimal(h) + "h"@ + decimal(m) + "m"@,
        h == 0 && m > 0 ==> duration_text(60 * m + s) == decimal(m) + "m"@,
        duration_text(s) == decimal(s) + "s"@,
        s > 0 ==> duration_text(-s) == decimal(0) + "s"@,
{
    let t = 3600 * h + 60 * m + s;
    if h > 0 {
        assert(t >= 3600);
        assert(t / 3600 == h && t % 3600 == 60 * m + s) by (nonlinear_arith)
            requires
                t == 3600 * h + 60 * m + s,
                0 <= 60 * m + s < 3600,
        ;
        assert((60 * m + s) / 60 == m);
    }
}

/// While the breaker is closed the whole budget of a running window can be used,
/// and not one request more: a request is let through exactly where the window has
/// counted fewer than the budget.
pub proof fn law_whole_budget_is_usable(
    r: GuardView,
    endpoint: Seq<char>,
    budget: int,
    now: int,
    start: int,
)
    requires
        r.state == "closed"@,
        r.hour_start == Some(start),
        now - start < 3_600_000,
    ensures
        verdict(endpoint, budget, loaded(Some(r), budget, now), now) is Granted <==> r.hour_count
            < budget,
{
    law_when_let_through(Some(r), endpoint, budget, now);
    lemma_states_differ();
}

} // verus!
