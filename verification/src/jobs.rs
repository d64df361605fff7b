//! Background jobs: their status rows, and the pruning of aged data.
use vstd::prelude::*;

use crate::facts::{int_view, text_view};
use crate::guard::EndpointGuard;
use crate::numbers::{decimal, unsigned_text};
use crate::quotes::{SEC_BUDGET, YAHOO_BUDGET};
use crate::text::same;

verus! {

// ── endpoints and jobs ─────────────────────────────────────────────────────

/// The guards of the data endpoints, as they are registered at startup.
pub fn known_endpoints() -> (r: Vec<EndpointGuard>)
    ensures
        r@.len() == 2,
        r@[0].name() == "yahoo"@,
        r@[0].budget() == YAHOO_BUDGET,
        r@[1].name() == "sec"@,
        r@[1].budget() == SEC_BUDGET,
{
    let mut out: Vec<EndpointGuard> = Vec::new();
    out.push(EndpointGuard::with_budget("yahoo", YAHOO_BUDGET));
    out.push(EndpointGuard::with_budget("sec", SEC_BUDGET));
    out
}

/// Whether a job is one that still runs; the status row of any other is dropped
/// at startup.
pub fn is_current_job(job: &str) -> (r: bool)
    ensures
        r == (job@ == "intraday"@ || job@ == "home"@ || job@ == "prune"@),
{
    same(job, "intraday") || same(job, "home") || same(job, "prune")
}

// ── status rows ────────────────────────────────────────────────────────────

/// The status row of a job. Times are in milliseconds.
pub struct JobRow {
    /// `idle`, `fetching`, `ok` or `error`.
    pub state: String,
    pub last_ok_at: Option<i64>,
    pub last_error: Option<String>,
    pub last_error_at: Option<i64>,
    pub next_run_at: Option<i64>,
    pub updated_at: i64,
}

/// The meaning of a [`JobRow`].
pub struct JobView {
    pub state: Seq<char>,
    pub last_ok_at: Option<int>,
    pub last_error: Option<Seq<char>>,
    pub last_error_at: Option<int>,
    pub next_run_at: Option<int>,
    pub updated_at: int,
}

impl View for JobRow {
    type V = JobView;

    open spec fn view(&self) -> JobView {
        JobView {
            state: self.state@,
            last_ok_at: int_view(self.last_ok_at),
            last_error: text_view(self.last_error),
            last_error_at: int_view(self.last_error_at),
            next_run_at: int_view(self.next_run_at),
            updated_at: self.updated_at as int,
        }
    }
}

/// The stored row of a job, or that of a job of which nothing is known.
pub open spec fn known(row: Option<JobRow>) -> JobView {
    match row {
        Some(r) => r@,
        None => JobView {
            state: Seq::empty(),
            last_ok_at: None,
            last_error: None,
            last_error_at: None,
            next_run_at: None,
            updated_at: 0,
        },
    }
}

fn known_row(row: Option<JobRow>) -> (r: JobRow)
    ensures
        r@ == known(row),
{
    match row {
        Some(r) => r,
        None => {
            let r = JobRow {
                state: String::new(),
                last_ok_at: None,
                last_error: None,
                last_error_at: None,
                next_run_at: None,
                updated_at: 0,
            };
            assert(r@.state =~= Seq::<char>::empty());
            r
        },
    }
}

/// A job that has started.
pub fn mark_fetching(row: Option<JobRow>, now: i64) -> (r: JobRow)
    ensures
        r@ == (JobView { state: "fetching"@, updated_at: now as int, ..known(row) }),
{
    JobRow { state: "fetching".to_owned(), updated_at: now, ..known_row(row) }
}

/// A job that has finished well, and when it next falls due. What is known of its
/// last error stays.
pub fn mark_ok(row: Option<JobRow>, next_run_at: Option<i64>, now: i64) -> (r: JobRow)
    ensures
        r@ == (JobView {
            state: "ok"@,
            last_ok_at: Some(now as int),
            next_run_at: int_view(next_run_at),
            updated_at: now as int,
            ..known(row)
        }),
{
    JobRow {
        state: "ok".to_owned(),
        last_ok_at: Some(now),
        next_run_at,
        updated_at: now,
        ..known_row(row)
    }
}

/// A job that has failed, and when it should be tried again. When it last
/// finished well stays.
pub fn mark_error(
    row: Option<JobRow>,
    message: &str,
    next_run_at: Option<i64>,
    now: i64,
) -> (r: JobRow)
    ensures
        r@ == (JobView {
            state: "error"@,
            last_error: Some(message@),
            last_error_at: Some(now as int),
            next_run_at: int_view(next_run_at),
            updated_at: now as int,
            ..known(row)
        }),
{
    JobRow {
        state: "error".to_owned(),
        last_error: Some(message.to_owned()),
        last_error_at: Some(now),
        next_run_at,
        updated_at: now,
        ..known_row(row)
    }
}

/// A status row at startup: a job that was running did not survive, so it is
/// idle; any other row stays as it is.
pub open spec fn after_boot(row: JobView, now: int) -> JobView {
    if row.state == "fetching"@ {
        JobView { state: "idle"@, updated_at: now, ..row }
    } else {
        row
    }
}

/// Clears the running state that a crash left behind.
pub fn reset_on_boot(row: JobRow, now: i64) -> (r: JobRow)
    ensures
        r@ == after_boot(row@, now as int),
{
    if same(row.state.as_str(), "fetching") {
        JobRow { state: "idle".to_owned(), updated_at: now, ..row }
    } else {
        row
    }
}

/// After startup no job counts as running.
pub proof fn law_nothing_runs_after_boot(row: JobView, now: int)
    ensures
        after_boot(row, now).state != "fetching"@,
{
    reveal_strlit("idle");
    reveal_strlit("fetching");
    assert("idle"@.len() != "fetching"@.len());
}

// ── pruning ────────────────────────────────────────────────────────────────

/// Seconds between two prunes.
pub const PRUNE_INTERVAL_SECS: i64 = 86_400;

/// How long intraday bars are kept.
pub const INTRADAY_RETENTION_DAYS: i64 = 14;

/// How long fetch-log lines are kept.
pub const FETCH_LOG_RETENTION_DAYS: i64 = 30;

/// How long a watchlist is kept after its newest entry: one month past the
/// lifetime of the cookie that it belongs to.
pub const WATCHLIST_STALE_DAYS: i64 = 396;

/// The milliseconds of a day.
pub const DAY_MS: i64 = 86_400_000;

/// The times before which rows are pruned.
#[derive(Clone, Copy, Debug, PartialEq, Eq, Structural)]
pub struct PruneCutoffs {
    pub intraday: i64,
    pub log: i64,
    pub watchlist: i64,
}

/// The times before which rows are pruned, now.
pub fn prune_cutoffs(now: i64) -> (r: PruneCutoffs)
    requires
        now - WATCHLIST_STALE_DAYS * DAY_MS >= i64::MIN,
    ensures
        r.intraday == now - INTRADAY_RETENTION_DAYS * DAY_MS,
        r.log == now - FETCH_LOG_RETENTION_DAYS * DAY_MS,
        r.watchlist == now - WATCHLIST_STALE_DAYS * DAY_MS,
{
    PruneCutoffs {
        intraday: now - INTRADAY_RETENTION_DAYS * DAY_MS,
        log: now - FETCH_LOG_RETENTION_DAYS * DAY_MS,
        watchlist: now - WATCHLIST_STALE_DAYS * DAY_MS,
    }
}

/// What a prune removed, in words.
pub fn prune_detail(bars: u64, logs: u64, watchlist: u64) -> (r: String)
    ensures
        r@ == decimal(bars as int) + " intraday bars, "@ + decimal(logs as int)
            + " fetch_log rows, "@ + decimal(watchlist as int) + " stale watchlist rows"@,
{
    let mut t = unsigned_text(bars);
    t.append(" intraday bars, ");
    t.append(unsigned_text(logs).as_str());
    t.append(" fetch_log rows, ");
    t.append(unsigned_text(watchlist).as_str());
    t.append(" stale watchlist rows");
    t
}

} // verus!
