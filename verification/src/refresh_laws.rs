//! When a refresh pulls what, said of the times at which each piece was last
//! brought up to date.
use vstd::prelude::*;

use crate::refresh::{
    etf_steps, job_of, planned, price_steps, status_of, stock_steps, Attempt, RefreshJob, StepView,
    SyncTimes,
};

verus! {

/// The piece was never pulled, or more than `ms` milliseconds ago.
pub open spec fn older_than(at: Option<i64>, now: int, ms: int) -> bool {
    at matches Some(t) ==> now - t > ms
}

/// A step with this key is among the steps.
pub open spec fn has_step(steps: Seq<StepView>, key: Seq<char>) -> bool {
    exists|i: int| 0 <= i < steps.len() && (#[trigger] steps[i]).key == key
}

proof fn lemma_keys()
    ensures
        "stock"@ != "etf"@,
        "quote"@.len() == 5 && "history"@.len() == 7 && "sec"@.len() == 3 && "fund_sec"@.len() == 8
            && "earnings"@.len() == 8 && "profile"@.len() == 7 && "dividends"@.len() == 9
            && "fund_meta"@.len() == 9,
        "history"@[0] == 'h' && "profile"@[0] == 'p' && "fund_sec"@[0] == 'f' && "earnings"@[0]
            == 'e' && "dividends"@[0] == 'd' && "fund_meta"@[0] == 'f',
{
    reveal_strlit("stock");
    reveal_strlit("etf");
    reveal_strlit("quote");
    reveal_strlit("history");
    reveal_strlit("sec");
    reveal_strlit("fund_sec");
    reveal_strlit("earnings");
    reveal_strlit("profile");
    reveal_strlit("dividends");
    reveal_strlit("fund_meta");
    assert("stock"@.len() == 5 && "etf"@.len() == 3);
}

/// A stock's refresh pulls its SEC data where a contact is configured and its facts
/// or filings are more than seven days old or its roster more than thirty; its
/// earnings date, its sector and its dividends each where they are more than seven
/// days old. What was never pulled, and what the user asks for, is always pulled.
/// Nothing else is.
pub proof fn law_stock_refresh(s: SyncTimes, sec_ok: bool, now: int, force: bool)
    ensures
        ({
            let steps = planned(Some(s), "stock"@, sec_ok, now, force);
            let week: int = 7 * 86_400_000int;
            let month: int = 30 * 86_400_000int;
            &&& has_step(steps, "quote"@)
            &&& has_step(steps, "history"@)
            &&& has_step(steps, "sec"@) <==> sec_ok && (force || older_than(
                s.fundamentals_synced_at,
                now,
                week,
            ) || older_than(s.filings_synced_at, now, week) || older_than(
                s.leadership_synced_at,
                now,
                month,
            ))
            &&& has_step(steps, "earnings"@) <==> force || older_than(
                s.earnings_synced_at,
                now,
                week,
            )
            &&& has_step(steps, "profile"@) <==> force || older_than(
                s.asset_profile_synced_at,
                now,
                week,
            )
            &&& has_step(steps, "dividends"@) <==> force || older_than(
                s.dividends_synced_at,
                now,
                week,
            )
            &&& !has_step(steps, "fund_sec"@)
            &&& !has_step(steps, "fund_meta"@)
        }),
{
    lemma_keys();
    let steps = planned(Some(s), "stock"@, sec_ok, now, force);
    assert(steps[0].key == "quote"@ && steps[1].key == "history"@);
    law_stock_steps_in_order(s, sec_ok, now, force);
}

/// The steps of a stock come in one order: SEC data, earnings date, sector,
/// dividends; each where it is wanted.
pub proof fn law_stock_steps_in_order(s: SyncTimes, sec_ok: bool, now: int, force: bool)
    ensures
        ({
            let steps = planned(Some(s), "stock"@, sec_ok, now, force);
            let week: int = 604_800_000;
            let sec = sec_ok && (force || older_than(s.fundamentals_synced_at, now, week)
                || older_than(s.filings_synced_at, now, week) || older_than(
                s.leadership_synced_at,
                now,
                2_592_000_000,
            ));
            let earnings = force || older_than(s.earnings_synced_at, now, week);
            let profile = force || older_than(s.asset_profile_synced_at, now, week);
            let dividends = force || older_than(s.dividends_synced_at, now, week);
            let a: int = if sec {
                1
            } else {
                0
            };
            let b: int = if earnings {
                1
            } else {
                0
            };
            let c: int = if profile {
                1
            } else {
                0
            };
            let d: int = if dividends {
                1
            } else {
                0
            };
            &&& steps.len() == 2 + a + b + c + d
            &&& (sec ==> steps[2].key == "sec"@)
            &&& (earnings ==> steps[2 + a].key == "earnings"@)
            &&& (profile ==> steps[2 + a + b].key == "profile"@)
            &&& (dividends ==> steps[2 + a + b + c].key == "dividends"@)
            &&& steps[0].key == "quote"@ && steps[1].key == "history"@
        }),
{
}

/// An ETF's refresh pulls its SEC data where a contact is configured and its
/// profile is more than seven days old; its metadata and its distributions each
/// where they are more than seven days old. What was never pulled, and what the
/// user asks for, is always pulled. Nothing else is.
pub proof fn law_etf_refresh(s: SyncTimes, sec_ok: bool, now: int, force: bool)
    ensures
        ({
            let steps = planned(Some(s), "etf"@, sec_ok, now, force);
            let week: int = 7 * 86_400_000int;
            &&& has_step(steps, "quote"@)
            &&& has_step(steps, "history"@)
            &&& has_step(steps, "fund_sec"@) <==> sec_ok && (force || older_than(
                s.fund_synced_at,
                now,
                week,
            ))
            &&& has_step(steps, "fund_meta"@) <==> force || older_than(
                s.fund_metadata_synced_at,
                now,
                week,
            )
            &&& has_step(steps, "dividends"@) <==> force || older_than(
                s.dividends_synced_at,
                now,
                week,
            )
            &&& !has_step(steps, "sec"@)
            &&& !has_step(steps, "earnings"@)
            &&& !has_step(steps, "profile"@)
        }),
{
    lemma_keys();
    let steps = planned(Some(s), "etf"@, sec_ok, now, force);
    assert(steps[0].key == "quote"@ && steps[1].key == "history"@);
    law_etf_steps_in_order(s, sec_ok, now, force);
}

/// The steps of an ETF come in one order: SEC data, metadata, distributions; each
/// where it is wanted.
pub proof fn law_etf_steps_in_order(s: SyncTimes, sec_ok: bool, now: int, force: bool)
    ensures
        ({
            let steps = planned(Some(s), "etf"@, sec_ok, now, force);
            let week: int = 604_800_000;
            let sec = sec_ok && (force || older_than(s.fund_synced_at, now, week));
            let meta = force || older_than(s.fund_metadata_synced_at, now, week);
            let dividends = force || older_than(s.dividends_synced_at, now, week);
            let a: int = if sec {
                1
            } else {
                0
            };
            let b: int = if meta {
                1
            } else {
                0
            };
            let c: int = if dividends {
                1
            } else {
                0
            };
            &&& steps.len() == 2 + a + b + c
            &&& (sec ==> steps[2].key == "fund_sec"@)
            &&& (meta ==> steps[2 + a].key == "fund_meta"@)
            &&& (dividends ==> steps[2 + a + b].key == "dividends"@)
            &&& steps[0].key == "quote"@ && steps[1].key == "history"@
        }),
{
    lemma_keys();
}

/// Anything that is neither a stock nor an ETF, and a symbol of which no row is
/// stored, gets its quote and its history, and no more.
pub proof fn law_other_refresh(
    times: Option<SyncTimes>,
    kind: Seq<char>,
    sec_ok: bool,
    now: int,
    force: bool,
)
    requires
        times is None || (kind != "stock"@ && kind != "etf"@),
    ensures
        planned(times, kind, sec_ok, now, force).len() == 2,
        planned(times, kind, sec_ok, now, force)[0].key == "quote"@,
        planned(times, kind, sec_ok, now, force)[1].key == "history"@,
{
}

/// The step carries the label of what it pulls for a symbol of this kind; only the
/// quote and the history leave the page as it is.
pub open spec fn labelled(kind: Seq<char>, step: StepView) -> bool {
    ||| !step.deep && step.key == "quote"@ && step.label == "Live quote"@
    ||| !step.deep && step.key == "history"@ && step.label == "Daily history"@
    ||| step.deep && kind == "stock"@ && step.key == "sec"@ && step.label
        == "Fundamentals, filings & leadership"@
    ||| step.deep && kind == "stock"@ && step.key == "earnings"@ && step.label == "Earnings date"@
    ||| step.deep && kind == "stock"@ && step.key == "profile"@ && step.label
        == "Sector & industry"@
    ||| step.deep && kind == "stock"@ && step.key == "dividends"@ && step.label == "Dividends"@
    ||| step.deep && kind == "etf"@ && step.key == "fund_sec"@ && step.label
        == "Holdings & filings"@
    ||| step.deep && kind == "etf"@ && step.key == "fund_meta"@ && step.label
        == "Fund details & NAV"@
    ||| step.deep && kind == "etf"@ && step.key == "dividends"@ && step.label == "Distributions"@
}

/// All steps carry their labels.
pub open spec fn all_labelled(kind: Seq<char>, steps: Seq<StepView>) -> bool {
    forall|i: int| 0 <= i < steps.len() ==> labelled(kind, #[trigger] steps[i])
}

proof fn lemma_join(kind: Seq<char>, a: Seq<StepView>, b: Seq<StepView>)
    requires
        all_labelled(kind, a),
        all_labelled(kind, b),
    ensures
        all_labelled(kind, a + b),
{
}

proof fn lemma_stock_labels(s: SyncTimes, sec_ok: bool, now: int, force: bool)
    ensures
        all_labelled("stock"@, stock_steps(s, sec_ok, now, force)),
{
}

proof fn lemma_etf_labels(s: SyncTimes, sec_ok: bool, now: int, force: bool)
    ensures
        all_labelled("etf"@, etf_steps(s, sec_ok, now, force)),
{
}

/// Every step is labelled by what it pulls, and only the quote and the history
/// leave the page as it is.
pub proof fn law_steps_are_labelled(
    times: Option<SyncTimes>,
    kind: Seq<char>,
    sec_ok: bool,
    now: int,
    force: bool,
)
    ensures
        all_labelled(kind, planned(times, kind, sec_ok, now, force)),
{
    assert(all_labelled(kind, price_steps()));
    match times {
        Some(s) => {
            if kind == "stock"@ {
                lemma_stock_labels(s, sec_ok, now, force);
                lemma_join(kind, price_steps(), stock_steps(s, sec_ok, now, force));
            } else if kind == "etf"@ {
                lemma_etf_labels(s, sec_ok, now, force);
                lemma_join(kind, price_steps(), etf_steps(s, sec_ok, now, force));
            } else {
                assert(planned(times, kind, sec_ok, now, force) =~= price_steps());
            }
        },
        None => {
            assert(planned(times, kind, sec_ok, now, force) =~= price_steps());
        },
    }
}

/// Each kind of work has one key of its own, and a key that is none of these does
/// nothing.
pub proof fn law_dispatch(key: Seq<char>)
    ensures
        job_of(key) is Quote <==> key == "quote"@,
        job_of(key) is History <==> key == "history"@,
        job_of(key) is StockSec <==> key == "sec"@,
        job_of(key) is FundSec <==> key == "fund_sec"@,
        job_of(key) is Earnings <==> key == "earnings"@,
        job_of(key) is Profile <==> key == "profile"@,
        job_of(key) is Dividends <==> key == "dividends"@,
        job_of(key) is FundMeta <==> key == "fund_meta"@,
{
    lemma_keys();
}

/// A step is an error only where a price request failed. It is skipped only where
/// a price request was refused or the SEC cannot be asked. In every other case it
/// is fine.
pub proof fn law_statuses(job: RefreshJob, attempt: Attempt, sec_ok: bool)
    ensures
        ({
            let price = job is Quote || job is History;
            let sec = job is StockSec || job is FundSec;
            let error = price && attempt is Failed;
            let skipped = (price && attempt is Denied) || (sec && !sec_ok);
            &&& (status_of(job, attempt, sec_ok) == "error"@ <==> error)
            &&& (status_of(job, attempt, sec_ok) == "skipped"@ <==> skipped)
            &&& (status_of(job, attempt, sec_ok) == "ok"@ <==> !error && !skipped)
        }),
{
    reveal_strlit("ok");
    reveal_strlit("error");
    reveal_strlit("skipped");
    assert("ok"@.len() == 2 && "error"@.len() == 5 && "skipped"@.len() == 7);
}

} // verus!
