use finance::guard::{backoff_secs, human_secs, EndpointGuard, GuardRow, Permit};
use finance::sec::RateLimited;

const NOW: i64 = 1_700_000_000_000;

fn why(p: Permit) -> String {
    match p {
        Permit::Granted => panic!("granted"),
        Permit::Denied(why) => why,
    }
}

fn granted(p: &Permit) -> bool {
    matches!(p, Permit::Granted)
}

/// Asks, and counts the request where it is let through.
fn ask(g: &EndpointGuard, row: Option<GuardRow>, now: i64) -> (Permit, GuardRow, i64) {
    let v = g.acquire(row, now);
    if granted(&v.permit) {
        let sent = now + v.wait_ms;
        (v.permit, g.count_request(v.row, v.next_state, sent), sent)
    } else {
        (v.permit, v.row, now)
    }
}

#[test]
fn backoff_doubles_up_to_a_day() {
    assert_eq!(backoff_secs(1), 1800);
    assert_eq!(backoff_secs(2), 3600);
    assert_eq!(backoff_secs(3), 7200);
    assert_eq!(backoff_secs(4), 14400);
    assert_eq!(backoff_secs(6), 57600);
    assert_eq!(backoff_secs(7), 86400);
    assert_eq!(backoff_secs(i64::MAX), 86400);
    assert_eq!(backoff_secs(0), 1800);
    assert_eq!(backoff_secs(i64::MIN), 1800);
}

#[test]
fn durations_in_words() {
    assert_eq!(human_secs(-5), "0s");
    assert_eq!(human_secs(59), "59s");
    assert_eq!(human_secs(60), "1m");
    assert_eq!(human_secs(3599), "59m");
    assert_eq!(human_secs(3600), "1h0m");
    assert_eq!(human_secs(86399), "23h59m");
}

#[test]
fn first_request_creates_the_row() {
    let g = EndpointGuard::with_budget("yahoo", 1000);
    assert_eq!(g.endpoint(), "yahoo");
    let row = g.ensure_registered(None, NOW);
    assert_eq!(row.state, "closed");
    assert_eq!(row.hourly_budget, 1000);
    assert_eq!(row.hour_start, Some(NOW));
    assert_eq!(row.updated_at, NOW);
    let v = g.acquire(Some(row), NOW + 5);
    assert!(granted(&v.permit));
    assert_eq!(v.wait_ms, 0);
    let row = g.count_request(v.row, v.next_state, NOW + 5);
    assert_eq!(row.hour_count, 1);
    assert_eq!(row.last_request_at, Some(NOW + 5));
    assert_eq!(row.state, "closed");
}

#[test]
fn registering_corrects_the_budget_alone() {
    let row = EndpointGuard::with_budget("sec", 10).ensure_registered(None, NOW);
    let row = EndpointGuard::with_budget("sec", 600).ensure_registered(Some(row), NOW + 9);
    assert_eq!(row.hourly_budget, 600);
    assert_eq!(row.updated_at, NOW);
    assert_eq!(row.hour_start, Some(NOW));
}

#[test]
fn requests_are_paced() {
    let g = EndpointGuard::with_budget("yahoo", 1000);
    let (_, row, sent) = ask(&g, None, NOW);
    let v = g.acquire(Some(row), sent + 400);
    assert_eq!(v.wait_ms, 1100);
    let row = g.count_request(v.row, v.next_state, sent + 1500);
    assert_eq!(g.acquire(Some(row), sent + 3000).wait_ms, 0);
}

#[test]
fn budget_holds_until_the_hour_rolls() {
    let g = EndpointGuard::with_budget("yahoo", 3);
    let mut row = None;
    let mut now = NOW;
    for _ in 0..3 {
        let (p, r, sent) = ask(&g, row, now);
        assert!(granted(&p));
        row = Some(r);
        now = sent;
    }
    let (p, r, _) = ask(&g, row, NOW + 30_000);
    assert_eq!(why(p), "yahoo hourly budget spent (3/3), resets in 59m");
    let (p, r, _) = ask(&g, Some(r), NOW + 3_599_999);
    assert_eq!(why(p), "yahoo hourly budget spent (3/3), resets in 0s");
    let (p, r, _) = ask(&g, Some(r), NOW + 3_600_000);
    assert!(granted(&p));
    assert_eq!(r.hour_count, 1);
    assert_eq!(r.hour_start, Some(NOW + 3_600_000));
}

#[test]
fn rate_limit_opens_at_once_and_refuses_until_retry() {
    let g = EndpointGuard::with_budget("sec", 600);
    let limited = RateLimited {
        status: 429,
        retry_after_secs: None,
    };
    let row = g.record_failure(None, NOW, Some(limited), "too many");
    assert_eq!(row.state, "open");
    assert_eq!(row.trip_count, 1);
    assert_eq!(row.fail_streak, 0);
    assert_eq!(row.opened_at, Some(NOW));
    assert_eq!(row.retry_at, Some(NOW + 1_800_000));
    assert_eq!(row.last_error.as_deref(), Some("too many"));
    assert_eq!(row.last_error_at, Some(NOW));
    let (p, row, _) = ask(&g, Some(row), NOW + 1_000);
    assert_eq!(why(p), "sec circuit breaker open, retry in 29m");
    let (p, _, _) = ask(&g, Some(row), NOW + 1_799_999);
    assert_eq!(why(p), "sec circuit breaker open, retry in 0s");
}

#[test]
fn longer_retry_after_is_honoured() {
    let g = EndpointGuard::with_budget("sec", 600);
    let asked = |secs| {
        Some(RateLimited {
            status: 503,
            retry_after_secs: Some(secs),
        })
    };
    let row = g.record_failure(None, NOW, asked(7200), "later");
    assert_eq!(row.retry_at, Some(NOW + 7_200_000));
    let row = g.record_failure(None, NOW, asked(10), "soon");
    assert_eq!(row.retry_at, Some(NOW + 1_800_000));
}

#[test]
fn one_probe_then_close_or_reopen() {
    let g = EndpointGuard::with_budget("yahoo", 1000);
    let limited = Some(RateLimited {
        status: 429,
        retry_after_secs: None,
    });
    let row = g.record_failure(None, NOW, limited, "limit");
    let (p, row, sent) = ask(&g, Some(row), NOW + 1_800_000);
    assert!(granted(&p));
    assert_eq!(row.state, "half_open");
    // A second request is refused while the probe is in flight...
    let (p, row, _) = ask(&g, Some(row), sent + 600_000);
    assert_eq!(why(p), "yahoo circuit breaker half-open, probe in flight");
    // ...but an abandoned probe is replaced.
    let (p, row, _) = ask(&g, Some(row), sent + 600_001);
    assert!(granted(&p));
    assert_eq!(row.state, "half_open");
    // A failed probe opens the breaker for longer.
    let at = sent + 601_000;
    let reopened = g.record_failure(Some(row), at, None, "down");
    assert_eq!(reopened.state, "open");
    assert_eq!(reopened.trip_count, 2);
    assert_eq!(reopened.retry_at, Some(at + 3_600_000));
    // A success closes it.
    let closed = g.record_success(reopened, at + 1);
    assert_eq!(closed.state, "closed");
    assert_eq!(closed.trip_count, 0);
    assert_eq!(closed.retry_at, None);
    assert_eq!(closed.opened_at, None);
    assert_eq!(closed.last_ok_at, Some(at + 1));
    assert!(granted(&ask(&g, Some(closed), at + 2).0));
}

#[test]
fn fourth_failure_in_a_row_trips() {
    let g = EndpointGuard::with_budget("yahoo", 1000);
    let mut row = None;
    for n in 1..4 {
        let (p, r, sent) = ask(&g, row, NOW + n * 10_000);
        assert!(granted(&p));
        let r = g.record_failure(Some(r), sent, None, "oops");
        assert_eq!(r.state, "closed");
        assert_eq!(r.fail_streak, n);
        row = Some(r);
    }
    let r = g.record_failure(row, NOW + 50_000, None, "oops");
    assert_eq!(r.state, "open");
    assert_eq!(r.retry_at, Some(NOW + 50_000 + 1_800_000));
}

#[test]
fn success_between_failures_clears_the_streak() {
    let g = EndpointGuard::with_budget("yahoo", 1000);
    let mut row = g.ensure_registered(None, NOW);
    for _ in 0..3 {
        row = g.record_failure(Some(row), NOW, None, "oops");
    }
    row = g.record_success(row, NOW);
    for _ in 0..3 {
        row = g.record_failure(Some(row), NOW, None, "oops");
    }
    assert_eq!(row.state, "closed");
    assert_eq!(row.fail_streak, 3);
}

#[test]
fn any_hour_sees_at_most_two_windows() {
    let g = EndpointGuard::with_budget("yahoo", 3);
    let (_, mut row, _) = ask(&g, None, NOW);
    let mut sent = Vec::new();
    // The rest of the first window's budget at its end, then the next window's.
    for now in [3_590_000, 3_595_000, 3_599_000, 3_600_000, 3_605_000, 3_610_000, 3_615_000] {
        let (p, r, at) = ask(&g, Some(row), NOW + now);
        if granted(&p) {
            sent.push(at - NOW);
        }
        row = r;
    }
    assert_eq!(sent, vec![3_590_000, 3_595_000, 3_600_000, 3_605_000, 3_610_000]);
    assert_eq!(row.hour_start, Some(NOW + 3_600_000));
    for pair in sent.windows(2) {
        assert!(pair[1] - pair[0] >= 1500);
    }
}

#[test]
fn failure_while_open_does_not_trip_again() {
    let g = EndpointGuard::with_budget("yahoo", 1000);
    let limited = Some(RateLimited {
        status: 429,
        retry_after_secs: None,
    });
    let mut row = g.record_failure(None, NOW, limited, "limit");
    // Requests that were in flight when the breaker opened fail after it.
    for n in 1..4 {
        row = g.record_failure(Some(row), NOW + n * 100, None, "down");
        assert_eq!(row.state, "open");
        assert_eq!(row.fail_streak, n);
        assert_eq!(row.trip_count, 1);
        assert_eq!(row.opened_at, Some(NOW));
        assert_eq!(row.retry_at, Some(NOW + 1_800_000));
        assert_eq!(row.last_error.as_deref(), Some("down"));
        assert_eq!(row.updated_at, NOW + n * 100);
    }
    // A streak that reaches the threshold does.
    let again = g.record_failure(Some(row), NOW + 400, None, "down");
    assert_eq!((again.state.as_str(), again.fail_streak, again.trip_count), ("open", 0, 2));
    assert_eq!(again.retry_at, Some(NOW + 400 + 3_600_000));
    // So does another rate-limit signal.
    let limited_again = g.record_failure(Some(again), NOW + 500, limited, "limit");
    assert_eq!(limited_again.trip_count, 3);
}
