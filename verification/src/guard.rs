//! Persistent, per-endpoint request guard.
//!
//! Every outbound call to a third-party data endpoint passes through an
//! [`EndpointGuard`]. The guard's state is one stored row per endpoint, shared by
//! every job and every process; each operation here takes the stored row and
//! gives the row to store.
//!
//!  - **A circuit breaker.** A rate-limit signal opens it immediately; so does a
//!    streak of ordinary failures. While open, every request is refused. Each
//!    consecutive trip backs off longer. Once the backoff elapses the breaker
//!    goes half-open and lets one probe through: it closes on success, re-opens
//!    on failure.
//!  - **A hard per-hour request budget.**
//!  - **Pacing.** Consecutive requests are spaced at least [`MIN_GAP_MS`] apart.
use vstd::prelude::*;

use crate::facts::{int_view, text_view};
use crate::numbers::{decimal, decimal_text};
use crate::sec::RateLimited;
use crate::text::same;

verus! {

/// Minimum spacing between two requests to the same endpoint.
pub const MIN_GAP_MS: i64 = 1500;

/// Consecutive ordinary failures that trip the breaker while it is closed.
pub const FAIL_THRESHOLD: i64 = 4;

/// A half-open probe that records no result within this long is treated as
/// abandoned, so a fresh probe is let through.
pub const STALE_PROBE_MS: i64 = 600_000;

/// The length of a budget window.
pub const HOUR_MS: i64 = 3_600_000;

/// Backoff of the first trip.
pub const BACKOFF_BASE_SECS: i64 = 1800;

/// The longest backoff.
pub const BACKOFF_CAP_SECS: i64 = 86400;

// ── backoff and durations ──────────────────────────────────────────────────

/// Backoff for the `n`-th consecutive trip: it doubles from trip to trip, up to a
/// cap.
pub open spec fn backoff(n: int) -> int
    decreases n,
{
    if n <= 1 {
        BACKOFF_BASE_SECS as int
    } else {
        let doubled = 2 * backoff(n - 1);
        if doubled < BACKOFF_CAP_SECS {
            doubled
        } else {
            BACKOFF_CAP_SECS as int
        }
    }
}

/// Backoff for the n-th consecutive trip: 30m, 1h, 2h, 4h, ... capped at 24h.
pub fn backoff_secs(trip_count: i64) -> (r: i64)
    ensures
        r == backoff(trip_count as int),
{
    let mut secs: i64 = BACKOFF_BASE_SECS;
    let mut trip: i64 = 1;
    while trip < trip_count && secs < BACKOFF_CAP_SECS
        invariant
            1 <= trip,
            trip == 1 || trip <= trip_count,
            secs == backoff(trip as int),
            BACKOFF_BASE_SECS <= secs <= BACKOFF_CAP_SECS,
        decreases trip_count - trip,
    {
        secs = if 2 * secs < BACKOFF_CAP_SECS {
            2 * secs
        } else {
            BACKOFF_CAP_SECS
        };
        trip += 1;
    }
    proof {
        if trip < trip_count {
            law_backoff_grows(trip as int, trip_count as int);
            law_backoff_range(trip_count as int);
        }
    }
    secs
}

/// A backoff is never shorter than half an hour nor longer than a day.
pub proof fn law_backoff_range(n: int)
    ensures
        BACKOFF_BASE_SECS <= backoff(n) <= BACKOFF_CAP_SECS,
    decreases n,
{
    if n > 1 {
        law_backoff_range(n - 1);
    }
}

/// A later trip never backs off for less.
pub proof fn law_backoff_grows(m: int, n: int)
    requires
        m <= n,
    ensures
        backoff(m) <= backoff(n),
    decreases n - m,
{
    if m < n {
        law_backoff_grows(m, n - 1);
        law_backoff_range(n - 1);
        law_backoff_range(m);
    }
}

/// A duration in words: seconds under a minute, minutes under an hour, hours and
/// minutes from there on. A negative one counts as none.
pub open spec fn duration_text(secs: int) -> Seq<char> {
    let s = if secs < 0 {
        0
    } else {
        secs
    };
    if s < 60 {
        decimal(s) + "s"@
    } else if s < 3600 {
        decimal(s / 60) + "m"@
    } else {
        decimal(s / 3600) + "h"@ + decimal((s % 3600) / 60) + "m"@
    }
}

/// A coarse, human-readable duration for log lines and status messages.
pub fn human_secs(secs: i64) -> (r: String)
    ensures
        r@ == duration_text(secs as int),
{
    let s: i64 = if secs < 0 {
        0
    } else {
        secs
    };
    if s < 60 {
        let mut t = decimal_text(s);
        t.append("s");
        t
    } else if s < 3600 {
        let mut t = decimal_text(s / 60);
        t.append("m");
        t
    } else {
        let mut t = decimal_text(s / 3600);
        t.append("h");
        t.append(decimal_text((s % 3600) / 60).as_str());
        t.append("m");
        t
    }
}

// ── the stored row ─────────────────────────────────────────────────────────

/// The guard row of one endpoint. Times are in milliseconds.
pub struct GuardRow {
    /// `closed`, `open` or `half_open`.
    pub state: String,
    pub fail_streak: i64,
    pub trip_count: i64,
    pub opened_at: Option<i64>,
    pub retry_at: Option<i64>,
    pub hour_start: Option<i64>,
    pub hour_count: i64,
    pub last_request_at: Option<i64>,
    pub last_ok_at: Option<i64>,
    pub last_error: Option<String>,
    pub last_error_at: Option<i64>,
    pub hourly_budget: i64,
    /// When the state machine last moved; routine bookkeeping leaves it alone.
    pub updated_at: i64,
}

/// The meaning of a [`GuardRow`].
pub struct GuardView {
    pub state: Seq<char>,
    pub fail_streak: int,
    pub trip_count: int,
    pub opened_at: Option<int>,
    pub retry_at: Option<int>,
    pub hour_start: Option<int>,
    pub hour_count: int,
    pub last_request_at: Option<int>,
    pub last_ok_at: Option<int>,
    pub last_error: Option<Seq<char>>,
    pub last_error_at: Option<int>,
    pub hourly_budget: int,
    pub updated_at: int,
}

impl View for GuardRow {
    type V = GuardView;

    open spec fn view(&self) -> GuardView {
        GuardView {
            state: self.state@,
            fail_streak: self.fail_streak as int,
            trip_count: self.trip_count as int,
            opened_at: int_view(self.opened_at),
            retry_at: int_view(self.retry_at),
            hour_start: int_view(self.hour_start),
            hour_count: self.hour_count as int,
            last_request_at: int_view(self.last_request_at),
            last_ok_at: int_view(self.last_ok_at),
            last_error: text_view(self.last_error),
            last_error_at: int_view(self.last_error_at),
            hourly_budget: self.hourly_budget as int,
            updated_at: self.updated_at as int,
        }
    }
}

pub open spec fn row_view(row: Option<GuardRow>) -> Option<GuardView> {
    match row {
        Some(r) => Some(r@),
        None => None,
    }
}

/// The row of an endpoint that was never asked: closed, nothing counted.
pub open spec fn fresh_row(budget: int, now: int) -> GuardView {
    GuardView {
        state: "closed"@,
        fail_streak: 0,
        trip_count: 0,
        opened_at: None,
        retry_at: None,
        hour_start: None,
        hour_count: 0,
        last_request_at: None,
        last_ok_at: None,
        last_error: None,
        last_error_at: None,
        hourly_budget: budget,
        updated_at: now,
    }
}

/// The budget window has run out, or there was none.
pub open spec fn window_over(r: GuardView, now: int) -> bool {
    match r.hour_start {
        Some(start) => now - start >= HOUR_MS,
        None => true,
    }
}

/// A row with its budget window rolled: a window that has run out is replaced
/// by one that starts now and has nothing counted.
pub open spec fn rolled(r: GuardView, now: int) -> GuardView {
    if window_over(r, now) {
        GuardView { hour_start: Some(now), hour_count: 0, ..r }
    } else {
        r
    }
}

/// The row that an operation starts from: the stored one, or a fresh one on
/// first use, with the guard's budget and its window rolled.
pub open spec fn loaded(row: Option<GuardView>, budget: int, now: int) -> GuardView {
    match row {
        Some(r) => rolled(GuardView { hourly_budget: budget, ..r }, now),
        None => rolled(fresh_row(budget, now), now),
    }
}

// ── decisions ──────────────────────────────────────────────────────────────

/// The guard's verdict for one request attempt.
pub enum Permit {
    /// Cleared to send, once the wait has passed and the request is counted.
    Granted,
    /// The request must not be sent: the circuit breaker is open or the hourly
    /// budget is spent. The string explains why.
    Denied(String),
}

/// The meaning of a [`Permit`].
pub enum PermitView {
    Granted,
    Denied(Seq<char>),
}

impl View for Permit {
    type V = PermitView;

    open spec fn view(&self) -> PermitView {
        match self {
            Permit::Granted => PermitView::Granted,
            Permit::Denied(why) => PermitView::Denied(why@),
        }
    }
}

/// A loaded row lets no more requests through in its window.
pub open spec fn budget_spent(r: GuardView, budget: int) -> bool {
    r.hour_count >= budget
}

/// The breaker is open and its backoff has not elapsed.
pub open spec fn backing_off(r: GuardView, now: int) -> bool {
    r.state == "open"@ && (r.retry_at matches Some(t) && now < t)
}

/// A probe is in flight and not abandoned.
pub open spec fn probe_in_flight(r: GuardView, now: int) -> bool {
    r.state == "half_open"@ && now - r.updated_at <= STALE_PROBE_MS
}

/// The verdict on a loaded row. The budget is looked at first: it holds even
/// when nothing has failed.
pub open spec fn verdict(endpoint: Seq<char>, budget: int, r: GuardView, now: int) -> PermitView {
    if budget_spent(r, budget) {
        let start = match r.hour_start {
            Some(s) => s,
            None => now,
        };
        PermitView::Denied(
            endpoint + " hourly budget spent ("@ + decimal(r.hour_count) + "/"@ + decimal(budget)
                + "), resets in "@ + duration_text((start + HOUR_MS - now) / 1000),
        )
    } else if backing_off(r, now) {
        PermitView::Denied(
            endpoint + " circuit breaker open, retry in "@ + duration_text(
                (r.retry_at->0 - now) / 1000,
            ),
        )
    } else if probe_in_flight(r, now) {
        PermitView::Denied(endpoint + " circuit breaker half-open, probe in flight"@)
    } else {
        PermitView::Granted
    }
}

/// How long a granted request has to wait: until the last one is
/// [`MIN_GAP_MS`] past.
pub open spec fn pacing_wait(r: GuardView, now: int) -> int {
    match r.last_request_at {
        Some(last) if MIN_GAP_MS - (now - last) > 0 => MIN_GAP_MS - (now - last),
        _ => 0,
    }
}

/// The state that a granted request leaves: a breaker that was open or half-open
/// is half-open, and the request is its probe.
pub open spec fn granted_state(r: GuardView) -> Seq<char> {
    if r.state == "open"@ || r.state == "half_open"@ {
        "half_open"@
    } else {
        r.state
    }
}

/// A row with one more request counted, sent at `sent`.
pub open spec fn with_request(r: GuardView, state: Seq<char>, sent: int) -> GuardView {
    GuardView {
        state,
        hour_count: r.hour_count + 1,
        last_request_at: Some(sent),
        updated_at: sent,
        ..r
    }
}

/// A row after a success: the breaker is closed and every failure counter
/// cleared.
pub open spec fn with_success(r: GuardView, now: int) -> GuardView {
    GuardView {
        state: "closed"@,
        fail_streak: 0,
        trip_count: 0,
        opened_at: None,
        retry_at: None,
        last_ok_at: Some(now),
        updated_at: now,
        ..r
    }
}

/// A failure trips the breaker: the endpoint signalled a rate limit, a probe
/// failed, or the streak of ordinary failures is too long.
pub open spec fn trips(r: GuardView, limited: Option<RateLimited>) -> bool {
    limited is Some || r.state == "half_open"@ || r.fail_streak + 1 >= FAIL_THRESHOLD
}

/// How long a trip backs off, in seconds: by the number of trips, or for as long
/// as the endpoint asked where that is longer.
pub open spec fn trip_backoff(r: GuardView, limited: Option<RateLimited>) -> int {
    let own = backoff(r.trip_count + 1);
    match limited {
        Some(l) => match l.retry_after_secs {
            Some(asked) if asked > own => asked as int,
            _ => own,
        },
        None => own,
    }
}

/// A loaded row after a failure.
pub open spec fn with_failure(
    r: GuardView,
    now: int,
    limited: Option<RateLimited>,
    message: Seq<char>,
) -> GuardView {
    if trips(r, limited) {
        GuardView {
            state: "open"@,
            fail_streak: 0,
            trip_count: r.trip_count + 1,
            opened_at: Some(now),
            retry_at: Some(now + trip_backoff(r, limited) * 1000),
            last_error: Some(message),
            last_error_at: Some(now),
            updated_at: now,
            ..r
        }
    } else {
        GuardView {
            fail_streak: r.fail_streak + 1,
            last_error: Some(message),
            last_error_at: Some(now),
            updated_at: now,
            ..r
        }
    }
}

/// A time or a span that the clock's type can hold.
pub open spec fn fits(t: int) -> bool {
    i64::MIN <= t <= i64::MAX
}

/// The spans that a decision on a loaded row computes can be held.
pub open spec fn decidable(r: GuardView, budget: int, now: int) -> bool {
    if budget_spent(r, budget) {
        r.hour_start matches Some(start) ==> fits(start + HOUR_MS) && fits(start + HOUR_MS - now)
    } else {
        &&& backing_off(r, now) ==> fits(r.retry_at->0 - now)
        &&& r.state == "half_open"@ ==> fits(now - r.updated_at)
        &&& !backing_off(r, now) && !probe_in_flight(r, now) ==> (r.last_request_at matches Some(
            last,
        ) ==> fits(now - last) && fits(MIN_GAP_MS - (now - last)))
    }
}

/// What [`EndpointGuard::acquire`] gives.
pub struct Verdict {
    /// The row to store, whatever the verdict.
    pub row: GuardRow,
    pub permit: Permit,
    /// How long to wait before a granted request is sent.
    pub wait_ms: i64,
    /// The state to store once a granted request is sent.
    pub next_state: String,
}

/// A guard over one outbound data endpoint.
pub struct EndpointGuard {
    endpoint: String,
    /// This endpoint's hard per-hour request ceiling.
    hourly_budget: i64,
}

impl EndpointGuard {
    /// The endpoint's name.
    pub closed spec fn name(&self) -> Seq<char> {
        self.endpoint@
    }

    /// The per-hour request ceiling.
    pub closed spec fn budget(&self) -> int {
        self.hourly_budget as int
    }

    /// A guard with an explicit per-hour request budget.
    pub fn with_budget(endpoint: &str, hourly_budget: i64) -> (r: EndpointGuard)
        ensures
            r.name() == endpoint@,
            r.budget() == hourly_budget,
    {
        EndpointGuard { endpoint: endpoint.to_owned(), hourly_budget }
    }

    /// The endpoint's name.
    pub fn endpoint(&self) -> (r: &str)
        ensures
            r@ == self.name(),
    {
        self.endpoint.as_str()
    }

    /// The row to store so that the endpoint is registered with this guard's
    /// budget.
    pub fn ensure_registered(&self, row: Option<GuardRow>, now: i64) -> (r: GuardRow)
        ensures
            r@ == loaded(row_view(row), self.budget(), now as int),
    {
        self.load(row, now)
    }

    /// The row that an operation starts from, created on first use; its budget
    /// window is rolled if the hour has elapsed.
    pub fn load(&self, row: Option<GuardRow>, now: i64) -> (r: GuardRow)
        ensures
            r@ == loaded(row_view(row), self.budget(), now as int),
    {
        let mut g = match row {
            Some(r) => GuardRow { hourly_budget: self.hourly_budget, ..r },
            None => GuardRow {
                state: "closed".to_owned(),
                fail_streak: 0,
                trip_count: 0,
                opened_at: None,
                retry_at: None,
                hour_start: None,
                hour_count: 0,
                last_request_at: None,
                last_ok_at: None,
                last_error: None,
                last_error_at: None,
                hourly_budget: self.hourly_budget,
                updated_at: now,
            },
        };
        let over = match g.hour_start {
            Some(start) => now as i128 - start as i128 >= HOUR_MS as i128,
            None => true,
        };
        if over {
            g.hour_start = Some(now);
            g.hour_count = 0;
        }
        g
    }

    /// Asks permission to send one request at the time `now`.
    pub fn acquire(&self, row: Option<GuardRow>, now: i64) -> (r: Verdict)
        requires
            decidable(loaded(row_view(row), self.budget(), now as int), self.budget(), now as int),
        ensures
            ({
                let g = loaded(row_view(row), self.budget(), now as int);
                &&& r.row@ == g
                &&& r.permit@ == verdict(self.name(), self.budget(), g, now as int)
                &&& (r.permit is Granted ==> r.wait_ms == pacing_wait(g, now as int)
                    && r.next_state@ == granted_state(g))
                &&& (r.permit is Denied ==> r.wait_ms == 0 && r.next_state@ == g.state)
            }),
    {
        let g = self.load(row, now);
        let mut next_state = g.state.clone();

        // 1. Hard per-hour budget: the backstop against a runaway loop.
        if g.hour_count >= self.hourly_budget {
            let start: i64 = match g.hour_start {
                Some(s) => s,
                None => now,
            };
            let left: i64 = (start + HOUR_MS - now) / 1000;
            let mut why = self.endpoint.clone();
            why.append(" hourly budget spent (");
            why.append(decimal_text(g.hour_count).as_str());
            why.append("/");
            why.append(decimal_text(self.hourly_budget).as_str());
            why.append("), resets in ");
            why.append(human_secs(left).as_str());
            return Verdict { row: g, permit: Permit::Denied(why), wait_ms: 0, next_state };
        }

        // 2. Circuit breaker.
        if same(g.state.as_str(), "open") {
            let retry_at: i64 = match g.retry_at {
                Some(t) => t,
                None => now,
            };
            if now < retry_at {
                let left: i64 = (retry_at - now) / 1000;
                let mut why = self.endpoint.clone();
                why.append(" circuit breaker open, retry in ");
                why.append(human_secs(left).as_str());
                return Verdict { row: g, permit: Permit::Denied(why), wait_ms: 0, next_state };
            }
            next_state = "half_open".to_owned();
        } else if same(g.state.as_str(), "half_open") {
            // Allow a fresh probe only if the previous one looks abandoned.
            if now - g.updated_at <= STALE_PROBE_MS {
                let mut why = self.endpoint.clone();
                why.append(" circuit breaker half-open, probe in flight");
                return Verdict { row: g, permit: Permit::Denied(why), wait_ms: 0, next_state };
            }
        }

        // 3. Granted, after the wait.
        proof {
            lemma_states_differ();
        }
        let wait_ms: i64 = match g.last_request_at {
            Some(last) => {
                let wait: i64 = MIN_GAP_MS - (now - last);
                if wait > 0 {
                    wait
                } else {
                    0
                }
            },
            None => 0,
        };
        Verdict { row: g, permit: Permit::Granted, wait_ms, next_state }
    }

    /// Counts a granted request, sent at `sent`; `next_state` is the verdict's.
    pub fn count_request(&self, row: GuardRow, next_state: String, sent: i64) -> (r: GuardRow)
        requires
            row.hour_count < i64::MAX,
        ensures
            r@ == with_request(row@, next_state@, sent as int),
    {
        GuardRow {
            state: next_state,
            hour_count: row.hour_count + 1,
            last_request_at: Some(sent),
            updated_at: sent,
            ..row
        }
    }

    /// Records that the last granted request succeeded: closes the breaker and
    /// clears every failure counter.
    pub fn record_success(&self, row: GuardRow, now: i64) -> (r: GuardRow)
        ensures
            r@ == with_success(row@, now as int),
    {
        GuardRow {
            state: "closed".to_owned(),
            fail_streak: 0,
            trip_count: 0,
            opened_at: None,
            retry_at: None,
            last_ok_at: Some(now),
            updated_at: now,
            ..row
        }
    }

    /// Records that the last granted request failed.
    ///
    /// The breaker trips (opens) when any of these holds: the endpoint signalled
    /// a rate limit; a half-open probe failed; or the ordinary-failure streak
    /// reached [`FAIL_THRESHOLD`]. Otherwise the streak is just incremented: an
    /// ordinary failure of a request that was in flight when the breaker opened
    /// does not open it again. A trip backs off exponentially, honouring a
    /// `Retry-After` when it is longer than the computed backoff.
    pub fn record_failure(
        &self,
        row: Option<GuardRow>,
        now: i64,
        limited: Option<RateLimited>,
        message: &str,
    ) -> (r: GuardRow)
        requires
            row matches Some(g) ==> g.fail_streak < i64::MAX,
            ({
                let g = loaded(row_view(row), self.budget(), now as int);
                trips(g, limited) ==> g.trip_count < i64::MAX && fits(
                    trip_backoff(g, limited) * 1000,
                ) && fits(now + trip_backoff(g, limited) * 1000)
            }),
        ensures
            r@ == with_failure(
                loaded(row_view(row), self.budget(), now as int),
                now as int,
                limited,
                message@,
            ),
    {
        let g = self.load(row, now);
        let streak: i64 = g.fail_streak + 1;
        let trip = limited.is_some() || same(g.state.as_str(), "half_open") || streak
            >= FAIL_THRESHOLD;
        if trip {
            let trip_count: i64 = g.trip_count + 1;
            let mut backoff: i64 = backoff_secs(trip_count);
            match limited {
                Some(l) => match l.retry_after_secs {
                    Some(asked) => {
                        if asked > backoff {
                            backoff = asked;
                        }
                    },
                    None => {},
                },
                None => {},
            }
            let retry_at: i64 = now + backoff * 1000;
            GuardRow {
                state: "open".to_owned(),
                fail_streak: 0,
                trip_count,
                opened_at: Some(now),
                retry_at: Some(retry_at),
                last_error: Some(message.to_owned()),
                last_error_at: Some(now),
                updated_at: now,
                ..g
            }
        } else {
            GuardRow {
                fail_streak: streak,
                last_error: Some(message.to_owned()),
                last_error_at: Some(now),
                updated_at: now,
                ..g
            }
        }
    }
}

/// The three states of the breaker are told apart by their names.
pub proof fn lemma_states_differ()
    ensures
        "closed"@ != "open"@,
        "closed"@ != "half_open"@,
        "open"@ != "half_open"@,
{
    reveal_strlit("closed");
    reveal_strlit("open");
    reveal_strlit("half_open");
    assert("closed"@.len() == 6);
    assert("open"@.len() == 4);
    assert("half_open"@.len() == 9);
}

} // verus!
