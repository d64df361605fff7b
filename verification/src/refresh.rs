//! On-demand refresh: which pieces of a symbol's data a page load pulls.
//!
//! The fast price steps always run; the slow ones run only when their stored
//! copy is stale, or when the user asks for everything.
use vstd::prelude::*;

use crate::text::same;

verus! {

/// Staleness window of SEC facts, filings and fund portfolios.
pub const REFRESH_SEC_STALE_SECS: i64 = 604_800;

/// Staleness window of the officer and board roster.
pub const REFRESH_LEADERSHIP_STALE_SECS: i64 = 2_592_000;

/// Staleness window of earnings dates, profiles, dividends and fund metadata.
pub const REFRESH_META_STALE_SECS: i64 = 604_800;

/// One step in a symbol's refresh, shown on the page's loading bar.
pub struct RefreshStep {
    /// Stable key by which the step is run.
    pub key: &'static str,
    /// Human label for the loading bar.
    pub label: &'static str,
    /// Whether this refreshes a server-rendered section: if any such step ran,
    /// the page reloads to show it.
    pub deep: bool,
}

/// The meaning of a [`RefreshStep`].
pub struct StepView {
    pub key: Seq<char>,
    pub label: Seq<char>,
    pub deep: bool,
}

impl View for RefreshStep {
    type V = StepView;

    open spec fn view(&self) -> StepView {
        StepView { key: self.key@, label: self.label@, deep: self.deep }
    }
}

pub open spec fn steps_view(v: Seq<RefreshStep>) -> Seq<StepView> {
    v.map_values(|s: RefreshStep| s@)
}

/// A step.
pub fn step(key: &'static str, label: &'static str, deep: bool) -> (r: RefreshStep)
    ensures
        r.key@ == key@,
        r.label@ == label@,
        r.deep == deep,
{
    RefreshStep { key, label, deep }
}

/// When each piece of a symbol's data was last brought up to date.
#[derive(Clone, Copy, Debug, PartialEq, Eq, Structural)]
pub struct SyncTimes {
    pub fundamentals_synced_at: Option<i64>,
    pub filings_synced_at: Option<i64>,
    pub leadership_synced_at: Option<i64>,
    pub earnings_synced_at: Option<i64>,
    pub asset_profile_synced_at: Option<i64>,
    pub dividends_synced_at: Option<i64>,
    pub fund_synced_at: Option<i64>,
    pub fund_metadata_synced_at: Option<i64>,
}

/// A stored copy is out of date: there is none, it is older than the window, or
/// the user asked for everything.
pub open spec fn is_stale(at: Option<i64>, secs: int, now: int, force: bool) -> bool {
    force || match at {
        Some(t) => now - t > secs * 1000,
        None => true,
    }
}

/// Whether a stored copy is out of date.
pub fn stale(at: Option<i64>, secs: i64, now: i64, force: bool) -> (r: bool)
    ensures
        r == is_stale(at, secs as int, now as int, force),
{
    force || match at {
        Some(t) => now as i128 - t as i128 > secs as i128 * 1000,
        None => true,
    }
}

pub open spec fn step_view(key: Seq<char>, label: Seq<char>, deep: bool) -> StepView {
    StepView { key, label, deep }
}

/// A step, where it is wanted.
pub open spec fn when(wanted: bool, s: StepView) -> Seq<StepView> {
    if wanted {
        seq![s]
    } else {
        Seq::empty()
    }
}

/// The steps that always run.
pub open spec fn price_steps() -> Seq<StepView> {
    seq![
        step_view("quote"@, "Live quote"@, false),
        step_view("history"@, "Daily history"@, false),
    ]
}

/// The slow steps of a stock.
pub open spec fn stock_steps(s: SyncTimes, sec_ok: bool, now: int, force: bool) -> Seq<StepView> {
    let sec = sec_ok && (is_stale(
        s.fundamentals_synced_at,
        REFRESH_SEC_STALE_SECS as int,
        now,
        force,
    ) || is_stale(s.filings_synced_at, REFRESH_SEC_STALE_SECS as int, now, force) || is_stale(
        s.leadership_synced_at,
        REFRESH_LEADERSHIP_STALE_SECS as int,
        now,
        force,
    ));
    let meta = REFRESH_META_STALE_SECS as int;
    when(sec, step_view("sec"@, "Fundamentals, filings & leadership"@, true)) + when(
        is_stale(s.earnings_synced_at, meta, now, force),
        step_view("earnings"@, "Earnings date"@, true),
    ) + when(
        is_stale(s.asset_profile_synced_at, meta, now, force),
        step_view("profile"@, "Sector & industry"@, true),
    ) + when(
        is_stale(s.dividends_synced_at, meta, now, force),
        step_view("dividends"@, "Dividends"@, true),
    )
}

/// The slow steps of an ETF.
pub open spec fn etf_steps(s: SyncTimes, sec_ok: bool, now: int, force: bool) -> Seq<StepView> {
    let meta = REFRESH_META_STALE_SECS as int;
    when(
        sec_ok && is_stale(s.fund_synced_at, REFRESH_SEC_STALE_SECS as int, now, force),
        step_view("fund_sec"@, "Holdings & filings"@, true),
    ) + when(
        is_stale(s.fund_metadata_synced_at, meta, now, force),
        step_view("fund_meta"@, "Fund details & NAV"@, true),
    ) + when(
        is_stale(s.dividends_synced_at, meta, now, force),
        step_view("dividends"@, "Distributions"@, true),
    )
}

/// The steps of a refresh. An index, a future, an unknown kind or an unknown
/// symbol gets just the price steps.
pub open spec fn planned(
    times: Option<SyncTimes>,
    kind: Seq<char>,
    sec_ok: bool,
    now: int,
    force: bool,
) -> Seq<StepView> {
    price_steps() + (match times {
        Some(s) => if kind == "stock"@ {
            stock_steps(s, sec_ok, now, force)
        } else if kind == "etf"@ {
            etf_steps(s, sec_ok, now, force)
        } else {
            Seq::empty()
        },
        None => Seq::empty(),
    })
}

fn push_when(steps: &mut Vec<RefreshStep>, wanted: bool, s: RefreshStep)
    ensures
        steps_view(final(steps)@) == steps_view(old(steps)@) + when(wanted, s@),
{
    if wanted {
        steps.push(s);
    }
    assert(steps_view(steps@) =~= steps_view(old(steps)@) + when(wanted, s@));
}

/// Decides which steps a symbol's refresh will run. `times` are those of its
/// stored row, where it has one; `sec_ok` says whether SEC requests can be made.
pub fn refresh_plan(
    times: Option<SyncTimes>,
    kind: &str,
    sec_ok: bool,
    now: i64,
    force: bool,
) -> (r: Vec<RefreshStep>)
    ensures
        steps_view(r@) == planned(times, kind@, sec_ok, now as int, force),
{
    let mut steps: Vec<RefreshStep> = Vec::new();
    steps.push(step("quote", "Live quote", false));
    steps.push(step("history", "Daily history", false));
    assert(steps_view(steps@) =~= price_steps());
    let s = match times {
        Some(s) => s,
        None => {
            assert(steps_view(steps@) =~= planned(times, kind@, sec_ok, now as int, force));
            return steps;
        },
    };
    if same(kind, "stock") {
        let sec = sec_ok && (stale(s.fundamentals_synced_at, REFRESH_SEC_STALE_SECS, now, force)
            || stale(s.filings_synced_at, REFRESH_SEC_STALE_SECS, now, force) || stale(
            s.leadership_synced_at,
            REFRESH_LEADERSHIP_STALE_SECS,
            now,
            force,
        ));
        push_when(&mut steps, sec, step("sec", "Fundamentals, filings & leadership", true));
        push_when(
            &mut steps,
            stale(s.earnings_synced_at, REFRESH_META_STALE_SECS, now, force),
            step("earnings", "Earnings date", true),
        );
        push_when(
            &mut steps,
            stale(s.asset_profile_synced_at, REFRESH_META_STALE_SECS, now, force),
            step("profile", "Sector & industry", true),
        );
        push_when(
            &mut steps,
            stale(s.dividends_synced_at, REFRESH_META_STALE_SECS, now, force),
            step("dividends", "Dividends", true),
        );
    } else if same(kind, "etf") {
        push_when(
            &mut steps,
            sec_ok && stale(s.fund_synced_at, REFRESH_SEC_STALE_SECS, now, force),
            step("fund_sec", "Holdings & filings", true),
        );
        push_when(
            &mut steps,
            stale(s.fund_metadata_synced_at, REFRESH_META_STALE_SECS, now, force),
            step("fund_meta", "Fund details & NAV", true),
        );
        push_when(
            &mut steps,
            stale(s.dividends_synced_at, REFRESH_META_STALE_SECS, now, force),
            step("dividends", "Distributions", true),
        );
    }
    assert(steps_view(steps@) =~= planned(times, kind@, sec_ok, now as int, force));
    steps
}

/// The work behind a step.
#[derive(Clone, Copy, Debug, PartialEq, Eq, Structural)]
pub enum RefreshJob {
    /// Pull one live quote and its intraday bars.
    Quote,
    /// Pull the daily history since the last stored bar.
    History,
    /// Pull a stock's SEC data.
    StockSec,
    /// Pull an ETF's SEC data.
    FundSec,
    /// Pull the next earnings date.
    Earnings,
    /// Pull the sector and industry.
    Profile,
    /// Pull the dividend or distribution history.
    Dividends,
    /// Pull fund metadata and NAV.
    FundMeta,
    /// No such step.
    Nothing,
}

/// The work behind a step's key.
pub open spec fn job_of(key: Seq<char>) -> RefreshJob {
    if key == "quote"@ {
        RefreshJob::Quote
    } else if key == "history"@ {
        RefreshJob::History
    } else if key == "sec"@ {
        RefreshJob::StockSec
    } else if key == "fund_sec"@ {
        RefreshJob::FundSec
    } else if key == "earnings"@ {
        RefreshJob::Earnings
    } else if key == "profile"@ {
        RefreshJob::Profile
    } else if key == "dividends"@ {
        RefreshJob::Dividends
    } else if key == "fund_meta"@ {
        RefreshJob::FundMeta
    } else {
        RefreshJob::Nothing
    }
}

/// Finds the work behind a step's key.
pub fn refresh_step(key: &str) -> (r: RefreshJob)
    ensures
        r == job_of(key@),
{
    if same(key, "quote") {
        RefreshJob::Quote
    } else if same(key, "history") {
        RefreshJob::History
    } else if same(key, "sec") {
        RefreshJob::StockSec
    } else if same(key, "fund_sec") {
        RefreshJob::FundSec
    } else if same(key, "earnings") {
        RefreshJob::Earnings
    } else if same(key, "profile") {
        RefreshJob::Profile
    } else if same(key, "dividends") {
        RefreshJob::Dividends
    } else if same(key, "fund_meta") {
        RefreshJob::FundMeta
    } else {
        RefreshJob::Nothing
    }
}

/// How a guarded request went.
#[derive(Clone, Copy, Debug, PartialEq, Eq, Structural)]
pub enum Attempt {
    /// The guard refused it.
    Denied,
    /// It was sent and failed.
    Failed,
    /// It was answered.
    Answered,
}

/// The status of a finished step. A price step tells how its request went; a SEC
/// step is skipped where SEC requests cannot be made; every other deep step,
/// being best-effort, is fine once it was attempted.
pub open spec fn status_of(job: RefreshJob, attempt: Attempt, sec_ok: bool) -> Seq<char> {
    match job {
        RefreshJob::Quote | RefreshJob::History => match attempt {
            Attempt::Denied => "skipped"@,
            Attempt::Failed => "error"@,
            Attempt::Answered => "ok"@,
        },
        RefreshJob::StockSec | RefreshJob::FundSec => if sec_ok {
            "ok"@
        } else {
            "skipped"@
        },
        _ => "ok"@,
    }
}

/// A short status for the loading bar. `attempt` is how the step's request went.
pub fn step_status(job: RefreshJob, attempt: Attempt, sec_ok: bool) -> (r: &'static str)
    ensures
        r@ == status_of(job, attempt, sec_ok),
{
    match job {
        RefreshJob::Quote | RefreshJob::History => match attempt {
            Attempt::Denied => "skipped",
            Attempt::Failed => "error",
            Attempt::Answered => "ok",
        },
        RefreshJob::StockSec | RefreshJob::FundSec => if sec_ok {
            "ok"
        } else {
            "skipped"
        },
        _ => "ok",
    }
}

/// A refresh begins with the two price steps, and they are its only steps that
/// are not deep.
pub proof fn law_price_steps_first(
    times: Option<SyncTimes>,
    kind: Seq<char>,
    sec_ok: bool,
    now: int,
    force: bool,
    i: int,
)
    requires
        0 <= i < planned(times, kind, sec_ok, now, force).len(),
    ensures
        planned(times, kind, sec_ok, now, force).take(2) == price_steps(),
        planned(times, kind, sec_ok, now, force)[i].deep <==> i >= 2,
{
    assert(planned(times, kind, sec_ok, now, force).take(2) =~= price_steps());
}

/// Every piece of a symbol's data is within its staleness window.
pub open spec fn all_fresh(s: SyncTimes, now: int) -> bool {
    let sec = REFRESH_SEC_STALE_SECS as int;
    let roster = REFRESH_LEADERSHIP_STALE_SECS as int;
    let meta = REFRESH_META_STALE_SECS as int;
    &&& !is_stale(s.fundamentals_synced_at, sec, now, false)
    &&& !is_stale(s.filings_synced_at, sec, now, false)
    &&& !is_stale(s.leadership_synced_at, roster, now, false)
    &&& !is_stale(s.earnings_synced_at, meta, now, false)
    &&& !is_stale(s.asset_profile_synced_at, meta, now, false)
    &&& !is_stale(s.dividends_synced_at, meta, now, false)
    &&& !is_stale(s.fund_synced_at, sec, now, false)
    &&& !is_stale(s.fund_metadata_synced_at, meta, now, false)
}

/// A symbol whose pieces are all fresh gets just the price steps.
pub proof fn law_fresh_symbol(s: SyncTimes, kind: Seq<char>, sec_ok: bool, now: int)
    requires
        all_fresh(s, now),
    ensures
        planned(Some(s), kind, sec_ok, now, false) == price_steps(),
{
    assert(planned(Some(s), kind, sec_ok, now, false) =~= price_steps());
}

/// A forced refresh runs every step of its kind, whatever is stored.
pub proof fn law_force_runs_everything(a: SyncTimes, b: SyncTimes, kind: Seq<char>, now: int)
    ensures
        planned(Some(a), kind, true, now, true) == planned(Some(b), kind, true, now, true),
        kind == "stock"@ ==> planned(Some(a), kind, true, now, true).len() == 6,
        kind == "etf"@ ==> planned(Some(a), kind, true, now, true).len() == 5,
{
    reveal_strlit("stock");
    reveal_strlit("etf");
    assert("stock"@.len() != "etf"@.len());
}

/// What is stale stays stale until it is brought up to date.
pub proof fn law_staleness_grows(at: Option<i64>, secs: int, now: int, later: int)
    requires
        now <= later,
        is_stale(at, secs, now, false),
    ensures
        is_stale(at, secs, later, false),
{
}

/// Every planned step can be run: its key is one that the dispatch knows.
pub proof fn law_planned_steps_are_known(
    times: Option<SyncTimes>,
    kind: Seq<char>,
    sec_ok: bool,
    now: int,
    force: bool,
    i: int,
)
    requires
        0 <= i < planned(times, kind, sec_ok, now, force).len(),
    ensures
        !(job_of(planned(times, kind, sec_ok, now, force)[i].key) is Nothing),
{
}

/// Without a contact for the SEC no step that asks the SEC is planned.
pub proof fn law_no_contact_no_sec(
    times: Option<SyncTimes>,
    kind: Seq<char>,
    now: int,
    force: bool,
    i: int,
)
    requires
        0 <= i < planned(times, kind, false, now, force).len(),
    ensures
        !(job_of(planned(times, kind, false, now, force)[i].key) is StockSec),
        !(job_of(planned(times, kind, false, now, force)[i].key) is FundSec),
{
    reveal_strlit("quote");
    reveal_strlit("history");
    reveal_strlit("sec");
    reveal_strlit("fund_sec");
    reveal_strlit("earnings");
    reveal_strlit("profile");
    reveal_strlit("dividends");
    reveal_strlit("fund_meta");
    assert("sec"@.len() == 3 && "fund_sec"@.len() == 8 && "quote"@.len() == 5 && "history"@.len()
        == 7 && "profile"@.len() == 7 && "dividends"@.len() == 9 && "fund_meta"@.len() == 9
        && "earnings"@.len() == 8);
    assert("earnings"@[0] == 'e' && "fund_sec"@[0] == 'f');
}

} // verus!
