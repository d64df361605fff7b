use finance::backfill::{
    backfill_symbol, columns_to_stamp, etf_after_listing, etf_after_lookup, etf_after_reading,
    etf_after_storing, followup, resolve_ciks, resolve_fund_ciks, resolve_one_cik, week_covered,
    Answer, CikResolution, EtfAction, Followup, Item, Piece,
};
use finance::directory::{CikMap, FundMap, TickerEntry};
use finance::filings::OwnershipFiling;
use finance::funds::FundShape;
use finance::jobs::{
    is_current_job, known_endpoints, mark_error, mark_fetching, mark_ok, prune_cutoffs,
    prune_detail, reset_on_boot, PRUNE_INTERVAL_SECS,
};
use finance::leadership::{
    current_roles, replaces_stored, FilingEvent, LeadershipRun, RosterEntry,
};
use finance::ownership::OwnershipPerson;
use finance::quotes::{
    home_targets, intraday_targets, job_due, next_home_sweep, note_session, quoted_lately,
    throttle_cutoff, QuoteEvent, QuoteRun, HOME_SWEEP_INTERVAL_SECS,
};
use finance::refresh::{
    refresh_plan, refresh_step, stale, step, step_status, Attempt, RefreshJob, SyncTimes,
};

const NOW: i64 = 1_700_000_000_000;
const DAY: i64 = 86_400_000;

fn list(v: &[&str]) -> Vec<String> {
    v.iter().map(|s| s.to_string()).collect()
}

#[test]
fn session_is_announced_once() {
    let mut last = None;
    assert!(note_session(&mut last, "regular"));
    assert!(!note_session(&mut last, "regular"));
    assert!(note_session(&mut last, "post"));
    assert_eq!(last.as_deref(), Some("post"));
}

#[test]
fn viewed_symbols_are_polled() {
    let viewed = list(&["AAPL", "ES=F", "BTC-USD", "SPY"]);
    let around = list(&["ES=F", "BTC-USD", "GC=F"]);
    let recent = list(&["SPY", "BTC-USD"]);
    assert_eq!(
        intraday_targets(&viewed, true, &around, &recent),
        list(&["AAPL", "ES=F"])
    );
    assert_eq!(
        intraday_targets(&viewed, false, &around, &recent),
        list(&["ES=F"])
    );
    assert!(intraday_targets(&list(&[]), true, &around, &recent).is_empty());
    assert_eq!(throttle_cutoff(NOW), NOW - 285_000);
    assert!(quoted_lately(Some(NOW - 285_000), throttle_cutoff(NOW)));
    assert!(!quoted_lately(Some(NOW - 285_001), throttle_cutoff(NOW)));
    assert!(!quoted_lately(None, throttle_cutoff(NOW)));
}

#[test]
fn run_that_is_stopped() {
    let mut run = QuoteRun::begin(list(&["A", "B", "C"]));
    assert_eq!(run.current(), Some("A"));
    run.step(QuoteEvent::Quoted);
    assert_eq!(run.current(), Some("B"));
    run.step(QuoteEvent::Denied("yahoo hourly budget spent".to_string()));
    assert_eq!(run.current(), None);
    let report = run.report();
    let log = report.log.unwrap();
    assert_eq!(log.status, "skipped");
    assert_eq!(
        log.detail,
        "stopped early (yahoo hourly budget spent); 1 ok, 0 errors"
    );
    assert_eq!(log.rows, 1);
    assert_eq!(report.error, None);
}

#[test]
fn run_reports() {
    let finish = |events: Vec<QuoteEvent>| {
        let mut run = QuoteRun::begin(events.iter().map(|_| "T".to_string()).collect());
        for e in events {
            run.step(e);
        }
        assert_eq!(run.current(), None);
        run.report()
    };
    let failed = finish(vec![QuoteEvent::Failed, QuoteEvent::Failed]);
    let log = failed.log.unwrap();
    assert_eq!((log.status, log.detail.as_str(), log.rows), ("error", "all 2 quotes failed", 0));
    assert_eq!(failed.error.as_deref(), Some("all 2 quotes failed"));
    let mixed = finish(vec![QuoteEvent::Failed, QuoteEvent::Quoted]);
    let log = mixed.log.unwrap();
    assert_eq!((log.status, log.detail.as_str(), log.rows), ("ok", "1 ok, 1 errors", 1));
    assert_eq!(mixed.error, None);
    let clean = finish(vec![QuoteEvent::Quoted]);
    assert!(clean.log.is_none() && clean.error.is_none());
}

#[test]
fn home_sweep() {
    assert!(job_due(None, NOW, HOME_SWEEP_INTERVAL_SECS));
    assert!(!job_due(Some(NOW - 899_999), NOW, HOME_SWEEP_INTERVAL_SECS));
    assert!(job_due(Some(NOW - 900_000), NOW, HOME_SWEEP_INTERVAL_SECS));
    assert!(!job_due(Some(NOW + 1), NOW, HOME_SWEEP_INTERVAL_SECS));
    assert_eq!(next_home_sweep(NOW), NOW + 900_000);
    let dashboard = list(&["SPY", "ES=F"]);
    let watch = list(&["AAPL", "ES=F", "GC=F", "AAPL"]);
    let around = list(&["GC=F", "ES=F"]);
    assert_eq!(
        home_targets(&dashboard, &watch, true, &around),
        list(&["SPY", "ES=F", "AAPL", "GC=F"])
    );
    assert_eq!(
        home_targets(&dashboard, &watch, false, &around),
        list(&["ES=F", "GC=F"])
    );
}

fn times(at: Option<i64>) -> SyncTimes {
    SyncTimes {
        fundamentals_synced_at: at,
        filings_synced_at: at,
        leadership_synced_at: at,
        earnings_synced_at: at,
        asset_profile_synced_at: at,
        dividends_synced_at: at,
        fund_synced_at: at,
        fund_metadata_synced_at: at,
    }
}

fn keys(t: Option<SyncTimes>, kind: &str, sec_ok: bool, force: bool) -> Vec<&'static str> {
    refresh_plan(t, kind, sec_ok, NOW, force)
        .iter()
        .map(|s| s.key)
        .collect()
}

#[test]
fn refresh_plans() {
    assert_eq!(keys(None, "stock", true, true), vec!["quote", "history"]);
    assert_eq!(
        keys(Some(times(None)), "stock", true, false),
        vec!["quote", "history", "sec", "earnings", "profile", "dividends"]
    );
    assert_eq!(
        keys(Some(times(None)), "stock", false, false),
        vec!["quote", "history", "earnings", "profile", "dividends"]
    );
    assert_eq!(
        keys(Some(times(Some(NOW))), "etf", true, true),
        vec!["quote", "history", "fund_sec", "fund_meta", "dividends"]
    );
    assert_eq!(keys(Some(times(None)), "index", true, true), vec!["quote", "history"]);
    // Exactly seven days old is not stale yet.
    assert_eq!(
        keys(Some(times(Some(NOW - 7 * DAY))), "stock", true, false),
        vec!["quote", "history"]
    );
    // The roster alone is kept for thirty days.
    let mut t = times(Some(NOW));
    t.leadership_synced_at = Some(NOW - 30 * DAY);
    assert_eq!(keys(Some(t), "stock", true, false), vec!["quote", "history"]);
    t.leadership_synced_at = Some(NOW - 30 * DAY - 1);
    assert_eq!(keys(Some(t), "stock", true, false), vec!["quote", "history", "sec"]);
    let plan = refresh_plan(Some(times(None)), "etf", true, NOW, false);
    assert_eq!(plan[2].label, "Holdings & filings");
    assert_eq!(plan[4].label, "Distributions");
    assert!(!plan[0].deep && !plan[1].deep && plan[2].deep);
    let s = step("k", "l", true);
    assert_eq!((s.key, s.label, s.deep), ("k", "l", true));
    assert!(stale(None, 1, NOW, false) && stale(Some(NOW), 1, NOW, true));
}

#[test]
fn refresh_steps() {
    for (key, job) in [
        ("quote", RefreshJob::Quote),
        ("history", RefreshJob::History),
        ("sec", RefreshJob::StockSec),
        ("fund_sec", RefreshJob::FundSec),
        ("earnings", RefreshJob::Earnings),
        ("profile", RefreshJob::Profile),
        ("dividends", RefreshJob::Dividends),
        ("fund_meta", RefreshJob::FundMeta),
        ("other", RefreshJob::Nothing),
    ] {
        assert_eq!(refresh_step(key), job);
    }
    assert_eq!(step_status(RefreshJob::Quote, Attempt::Denied, true), "skipped");
    assert_eq!(step_status(RefreshJob::History, Attempt::Failed, true), "error");
    assert_eq!(step_status(RefreshJob::Quote, Attempt::Answered, true), "ok");
    assert_eq!(step_status(RefreshJob::StockSec, Attempt::Denied, true), "ok");
    assert_eq!(step_status(RefreshJob::FundSec, Attempt::Answered, false), "skipped");
    assert_eq!(step_status(RefreshJob::Earnings, Attempt::Failed, false), "ok");
    assert_eq!(step_status(RefreshJob::Nothing, Attempt::Failed, false), "ok");
}

#[test]
fn pieces_by_kind() {
    assert_eq!(
        backfill_symbol("stock", true),
        vec![Piece::History, Piece::Dividends, Piece::Earnings, Piece::Profile, Piece::StockSec]
    );
    assert_eq!(
        backfill_symbol("etf", true),
        vec![Piece::History, Piece::Dividends, Piece::FundMetadata, Piece::FundSec]
    );
    assert_eq!(
        backfill_symbol("etf", false),
        vec![Piece::History, Piece::Dividends, Piece::FundMetadata]
    );
    assert_eq!(backfill_symbol("future", true), vec![Piece::History]);
}

#[test]
fn answers_and_what_becomes_of_them() {
    for item in [
        Item::History,
        Item::Dividends,
        Item::FundMetadata,
        Item::Earnings,
        Item::Profile,
        Item::Facts,
        Item::Filings,
    ] {
        assert_eq!(followup(item, Answer::Nothing), Followup::Leave);
    }
    assert_eq!(followup(Item::History, Answer::Data), Followup::Store);
    assert_eq!(followup(Item::History, Answer::Empty), Followup::Stamp);
    assert_eq!(followup(Item::FundMetadata, Answer::Data), Followup::StoreAndStamp);
    assert_eq!(followup(Item::FundMetadata, Answer::Empty), Followup::Stamp);
    assert_eq!(followup(Item::Profile, Answer::Data), Followup::Store);
    assert_eq!(followup(Item::Profile, Answer::Empty), Followup::Stamp);
    assert_eq!(followup(Item::Earnings, Answer::Empty), Followup::Store);
    assert_eq!(followup(Item::Dividends, Answer::Empty), Followup::StoreAndStamp);
    assert_eq!(followup(Item::Facts, Answer::Data), Followup::StoreAndStamp);
    assert_eq!(followup(Item::Filings, Answer::Empty), Followup::StoreAndStamp);
}

#[test]
fn registrants() {
    assert!(matches!(
        resolve_one_cik(Some("1".to_string()), false),
        CikResolution::Found(c) if c == "1"
    ));
    assert!(matches!(resolve_one_cik(None, true), CikResolution::Absent));
    assert!(matches!(resolve_one_cik(None, false), CikResolution::Unavailable));
    assert_eq!(
        columns_to_stamp(false, &CikResolution::Absent),
        vec!["fundamentals_synced_at", "filings_synced_at"]
    );
    assert_eq!(columns_to_stamp(true, &CikResolution::Absent), vec!["fund_synced_at"]);
    assert!(columns_to_stamp(true, &CikResolution::Unavailable).is_empty());
    let map = CikMap::of(&vec![TickerEntry {
        cik_str: 1067983,
        ticker: "BRK-B".to_string(),
    }]);
    assert_eq!(
        resolve_ciks(&list(&["MSFT", "BRK.B"]), &map),
        vec![("BRK.B".to_string(), "0001067983".to_string())]
    );
    let funds = resolve_fund_ciks(&list(&["QQQ", "GLD"]), &FundMap::of(&vec![]));
    assert_eq!(funds.len(), 1);
    assert_eq!(funds[0].0, "GLD");
    assert_eq!(funds[0].1.cik, "0001222333");
}

#[test]
fn fund_profile_steps() {
    match etf_after_lookup(CikResolution::Found("7".to_string()), Some("S1".to_string())) {
        EtfAction::ListFilings(id) => {
            assert_eq!(id.cik, "7");
            assert_eq!(id.series_id.as_deref(), Some("S1"));
        }
        _ => panic!("list the filings"),
    }
    assert!(matches!(etf_after_lookup(CikResolution::Absent, None), EtfAction::Stamp));
    assert!(matches!(etf_after_lookup(CikResolution::Unavailable, None), EtfAction::Done));
    let portfolio = FundShape::Portfolio {
        nport_href: "h".to_string(),
    };
    assert!(matches!(
        etf_after_listing("7", Some(portfolio)),
        EtfAction::ReadPortfolio(h) if h == "h"
    ));
    assert!(matches!(
        etf_after_listing("7", Some(FundShape::CommodityTrust)),
        EtfAction::ReadAum(c) if c == "7"
    ));
    assert!(matches!(etf_after_listing("7", Some(FundShape::Unknown)), EtfAction::Stamp));
    assert!(matches!(etf_after_listing("7", None), EtfAction::Done));
    assert!(matches!(etf_after_reading(true), EtfAction::Store));
    assert!(matches!(etf_after_reading(false), EtfAction::Done));
    assert!(matches!(etf_after_storing(true), EtfAction::Stamp));
    assert!(matches!(etf_after_storing(false), EtfAction::Done));
}

#[test]
fn covered_weeks() {
    let margin = 36 * 3_600 * 1000;
    assert!(week_covered(Some(NOW + margin), NOW));
    assert!(!week_covered(Some(NOW + margin + 1), NOW));
    assert!(!week_covered(None, NOW));
}

fn person(name: &str, is_director: bool, is_officer: bool) -> OwnershipPerson {
    OwnershipPerson {
        name: name.to_string(),
        is_director,
        is_officer,
        officer_title: None,
    }
}

fn filing(n: usize) -> OwnershipFiling {
    OwnershipFiling {
        accession: format!("a-{n}"),
        filed_at: format!("2024-01-{:02}", 20 - n),
        primary_doc: "f.xml".to_string(),
    }
}

#[test]
fn roster_of_recent_filings() {
    let mut run = LeadershipRun::begin((0..12).map(filing).collect());
    let mut asked = 0;
    while let Some(f) = run.current() {
        assert_eq!(f.accession, format!("a-{asked}"));
        let event = match asked {
            0 => FilingEvent::People(vec![
                person("COOK", false, true),
                person("TRADER", false, false),
            ]),
            1 => FilingEvent::Failed,
            2 => FilingEvent::People(vec![person("COOK", true, true), person("BELL", true, false)]),
            _ => FilingEvent::People(vec![]),
        };
        run.step(event);
        asked += 1;
    }
    assert_eq!(asked, 10);
    let (roster, complete) = run.finish();
    assert!(complete);
    let all: Vec<(&str, &str)> = roster
        .iter()
        .map(|e| (e.person.name.as_str(), e.filed_at.as_str()))
        .collect();
    assert_eq!(
        all,
        vec![("COOK", "2024-01-20"), ("COOK", "2024-01-18"), ("BELL", "2024-01-18")]
    );
    let stored: Vec<RosterEntry> = current_roles(&roster);
    assert_eq!(stored.len(), 2);
    assert_eq!(stored[0].person.name, "COOK");
    assert!(!stored[0].person.is_director);
    assert_eq!(stored[1].person.name, "BELL");
}

#[test]
fn refusal_leaves_the_roster_incomplete() {
    let mut run = LeadershipRun::begin(vec![filing(0), filing(1)]);
    run.step(FilingEvent::Denied);
    run.step(FilingEvent::People(vec![person("COOK", true, false)]));
    assert!(run.current().is_none());
    let (roster, complete) = run.finish();
    assert!(!complete);
    assert_eq!(roster.len(), 1);
}

#[test]
fn older_filing_does_not_replace_a_role() {
    assert!(replaces_stored(None, "2024-01-01"));
    assert!(replaces_stored(Some("2024-01-01"), "2024-01-01"));
    assert!(replaces_stored(Some("2024-01-01"), "2024-03-01"));
    assert!(!replaces_stored(Some("2024-03-01"), "2024-01-01"));
}

#[test]
fn endpoints_and_jobs() {
    let all = known_endpoints();
    assert_eq!(all.len(), 2);
    let row = all[0].ensure_registered(None, NOW);
    assert_eq!((all[0].endpoint(), row.hourly_budget), ("yahoo", 1000));
    let row = all[1].ensure_registered(None, NOW);
    assert_eq!((all[1].endpoint(), row.hourly_budget), ("sec", 600));
    for job in ["intraday", "home", "prune"] {
        assert!(is_current_job(job));
    }
    assert!(!is_current_job("daily"));
}

#[test]
fn job_status_rows() {
    let row = mark_fetching(None, NOW);
    assert_eq!((row.state.as_str(), row.updated_at), ("fetching", NOW));
    let row = mark_error(Some(row), "all 2 quotes failed", None, NOW + 1);
    assert_eq!(row.state, "error");
    assert_eq!(row.last_error_at, Some(NOW + 1));
    let row = mark_ok(Some(row), Some(NOW + 9), NOW + 2);
    assert_eq!(row.state, "ok");
    assert_eq!(row.last_ok_at, Some(NOW + 2));
    assert_eq!(row.next_run_at, Some(NOW + 9));
    assert_eq!(row.last_error.as_deref(), Some("all 2 quotes failed"));
    let row = reset_on_boot(row, NOW + 3);
    assert_eq!((row.state.as_str(), row.updated_at), ("ok", NOW + 2));
    let row = reset_on_boot(mark_fetching(Some(row), NOW + 4), NOW + 5);
    assert_eq!((row.state.as_str(), row.updated_at), ("idle", NOW + 5));
}

#[test]
fn pruning() {
    assert!(job_due(Some(NOW - DAY), NOW, PRUNE_INTERVAL_SECS));
    assert!(!job_due(Some(NOW - DAY + 1), NOW, PRUNE_INTERVAL_SECS));
    let c = prune_cutoffs(NOW);
    assert_eq!(c.intraday, NOW - 14 * DAY);
    assert_eq!(c.log, NOW - 30 * DAY);
    assert_eq!(c.watchlist, NOW - 396 * DAY);
    assert_eq!(
        prune_detail(3, 0, u64::MAX),
        "3 intraday bars, 0 fetch_log rows, 18446744073709551615 stale watchlist rows"
    );
}
