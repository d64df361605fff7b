//! Quote polling: which symbols are quoted when, and what a run reports.
use vstd::prelude::*;

use crate::facts::text_view;
use crate::numbers::{decimal, decimal_text};
use crate::text::same;

verus! {

/// Minimum seconds between two polls of the same viewed symbol.
pub const INTRADAY_MIN_INTERVAL_SECS: i64 = 285;

/// Seconds between two sweeps of the home page's instruments.
pub const HOME_SWEEP_INTERVAL_SECS: i64 = 900;

/// Per-hour request ceiling for Yahoo.
pub const YAHOO_BUDGET: i64 = 1000;

/// Per-hour request ceiling for the SEC.
pub const SEC_BUDGET: i64 = 600;

// ── lists of tickers ───────────────────────────────────────────────────────

pub open spec fn texts(v: Seq<String>) -> Seq<Seq<char>> {
    v.map_values(|s: String| s@)
}

/// Whether a text is in a list.
pub fn contains_text(list: &Vec<String>, s: &str) -> (r: bool)
    ensures
        r == texts(list@).contains(s@),
{
    let mut i: usize = 0;
    while i < list.len()
        invariant
            i <= list@.len(),
            forall|j: int| 0 <= j < i ==> texts(list@)[j] != s@,
        decreases list.len() - i,
    {
        if same(list[i].as_str(), s) {
            assert(texts(list@)[i as int] == s@);
            return true;
        }
        i += 1;
    }
    false
}

/// The market session as it was last announced, and as it is now: a change is
/// news.
pub open spec fn session_changed(last: Option<Seq<char>>, session: Seq<char>) -> bool {
    last != Some(session)
}

/// Takes note of the market session; whether it is to be announced.
pub fn note_session(last: &mut Option<String>, session: &str) -> (r: bool)
    ensures
        r == session_changed(text_view(*old(last)), session@),
        text_view(*final(last)) == Some(session@),
{
    let news = match &*last {
        Some(s) => !same(s.as_str(), session),
        None => true,
    };
    if news {
        *last = Some(session.to_owned());
    }
    news
}

/// A session is announced once: while it lasts, it is no news.
pub proof fn law_session_is_announced_once(last: Option<Seq<char>>, sessions: Seq<Seq<char>>)
    requires
        sessions.len() > 0,
        forall|i: int| 0 <= i < sessions.len() ==> (#[trigger] sessions[i]) == sessions[0],
    ensures
        announcements(last, sessions) == (if session_changed(last, sessions[0]) {
            1nat
        } else {
            0nat
        }),
    decreases sessions.len(),
{
    let before = sessions.drop_last();
    assert(sessions[sessions.len() - 1] == sessions[0]);
    if before.len() > 0 {
        assert forall|i: int| 0 <= i < before.len() implies (#[trigger] before[i]) == before[0] by {
            assert(before[i] == sessions[i]);
        }
        law_session_is_announced_once(last, before);
        assert(before[0] == sessions[0]);
        assert(before[before.len() - 1] == sessions[before.len() - 1]);
    } else {
        reveal_with_fuel(announcements, 2);
    }
}

/// How often a sequence of sessions is announced.
pub open spec fn announcements(last: Option<Seq<char>>, sessions: Seq<Seq<char>>) -> nat
    decreases sessions.len(),
{
    if sessions.len() == 0 {
        0
    } else {
        let before = sessions.drop_last();
        let known = if before.len() == 0 {
            last
        } else {
            Some(before.last())
        };
        announcements(last, before) + if session_changed(known, sessions.last()) {
            1nat
        } else {
            0nat
        }
    }
}

// ── the viewed symbols ─────────────────────────────────────────────────────

/// The symbols that can have moved: all of them inside a session, only those
/// that trade around the clock outside it.
pub open spec fn live(open: bool, around_clock: Seq<Seq<char>>) -> spec_fn(Seq<char>) -> bool {
    |t: Seq<char>| open || around_clock.contains(t)
}

/// The symbols to poll: live ones that were not quoted lately.
pub open spec fn due_for_quote(
    open: bool,
    around_clock: Seq<Seq<char>>,
    recent: Seq<Seq<char>>,
) -> spec_fn(Seq<char>) -> bool {
    |t: Seq<char>| (open || around_clock.contains(t)) && !recent.contains(t)
}

/// The viewed symbols to poll, in the order in which they are viewed.
///
/// Inside a trading session every viewed symbol is polled; outside it only those
/// that trade around the clock, since any other quote is frozen. A symbol that
/// was quoted lately is left alone.
pub fn intraday_targets(
    viewed: &Vec<String>,
    open: bool,
    around_clock: &Vec<String>,
    recent: &Vec<String>,
) -> (r: Vec<String>)
    ensures
        texts(r@) == texts(viewed@).filter(
            due_for_quote(open, texts(around_clock@), texts(recent@)),
        ),
{
    let ghost keep = due_for_quote(open, texts(around_clock@), texts(recent@));
    let ghost all = texts(viewed@);
    let mut out: Vec<String> = Vec::new();
    let mut i: usize = 0;
    proof {
        reveal(Seq::filter);
        assert(texts(out@) =~= all.take(0).filter(keep));
    }
    while i < viewed.len()
        invariant
            i <= viewed@.len(),
            all == texts(viewed@),
            keep == due_for_quote(open, texts(around_clock@), texts(recent@)),
            texts(out@) == all.take(i as int).filter(keep),
        decreases viewed.len() - i,
    {
        let t = viewed[i].as_str();
        let ghost before = texts(out@);
        proof {
            reveal(Seq::filter);
            assert(all.take(i + 1).drop_last() =~= all.take(i as int));
        }
        if (open || contains_text(around_clock, t)) && !contains_text(recent, t) {
            out.push(viewed[i].clone());
            assert(texts(out@) =~= before.push(t@));
        }
        i += 1;
    }
    assert(all.take(all.len() as int) =~= all);
    out
}

/// The earliest time that counts as lately.
pub open spec fn lately_since(now: int) -> int {
    now - INTRADAY_MIN_INTERVAL_SECS * 1000
}

/// A symbol was quoted since `cutoff`. One that never was quoted was not.
pub open spec fn quoted_since(last_quote_at: Option<i64>, cutoff: int) -> bool {
    last_quote_at matches Some(t) && t >= cutoff
}

/// The earliest time that counts as lately.
pub fn throttle_cutoff(now: i64) -> (r: i64)
    requires
        lately_since(now as int) >= i64::MIN,
    ensures
        r == lately_since(now as int),
{
    now - INTRADAY_MIN_INTERVAL_SECS * 1000
}

/// Whether a symbol was quoted since `cutoff`.
pub fn quoted_lately(last_quote_at: Option<i64>, cutoff: i64) -> (r: bool)
    ensures
        r == quoted_since(last_quote_at, cutoff as int),
{
    match last_quote_at {
        Some(t) => t >= cutoff,
        None => false,
    }
}

/// A symbol that was quoted rests for the minimum interval: it counts as quoted
/// lately until then, and no longer.
pub proof fn law_quoted_symbol_rests(t: i64, now: int)
    ensures
        quoted_since(Some(t), lately_since(now)) <==> now - t <= 285_000,
{
}

// ── one run over a list of symbols ─────────────────────────────────────────

/// What became of one symbol of a run.
pub enum QuoteEvent {
    /// The guard refused the request, and why.
    Denied(String),
    /// A quote came back.
    Quoted,
    /// The request failed.
    Failed,
}

/// The meaning of a [`QuoteEvent`].
pub enum QuoteItem {
    Denied(Seq<char>),
    Quoted,
    Failed,
}

impl View for QuoteEvent {
    type V = QuoteItem;

    open spec fn view(&self) -> QuoteItem {
        match self {
            QuoteEvent::Denied(why) => QuoteItem::Denied(why@),
            QuoteEvent::Quoted => QuoteItem::Quoted,
            QuoteEvent::Failed => QuoteItem::Failed,
        }
    }
}

/// A run over a list of symbols: one request each, in order, until the guard
/// refuses one.
pub struct QuoteRun {
    targets: Vec<String>,
    next: usize,
    ok: i64,
    errors: i64,
    stopped: Option<String>,
}

/// The meaning of a [`QuoteRun`].
pub struct RunState {
    pub targets: Seq<Seq<char>>,
    /// The first symbol that is not done.
    pub next: int,
    pub ok: int,
    pub errors: int,
    /// Why the guard ended the run.
    pub stopped: Option<Seq<char>>,
}

impl View for QuoteRun {
    type V = RunState;

    closed spec fn view(&self) -> RunState {
        RunState {
            targets: texts(self.targets@),
            next: self.next as int,
            ok: self.ok as int,
            errors: self.errors as int,
            stopped: text_view(self.stopped),
        }
    }
}

impl RunState {
    /// Every symbol that is done was quoted or failed.
    pub open spec fn wf(self) -> bool {
        &&& self.ok >= 0
        &&& self.errors >= 0
        &&& self.next == self.ok + self.errors
        &&& self.next <= self.targets.len() <= i64::MAX
    }

    /// The symbol to ask for next, unless the run is over.
    pub open spec fn current(self) -> Option<Seq<char>> {
        if self.stopped is None && 0 <= self.next < self.targets.len() {
            Some(self.targets[self.next])
        } else {
            None
        }
    }
}

pub open spec fn run_start(targets: Seq<Seq<char>>) -> RunState {
    RunState { targets, next: 0, ok: 0, errors: 0, stopped: None }
}

/// The run after what became of the current symbol.
pub open spec fn run_step(s: RunState, e: QuoteItem) -> RunState {
    match e {
        QuoteItem::Denied(why) => RunState { stopped: Some(why), ..s },
        QuoteItem::Quoted => RunState { next: s.next + 1, ok: s.ok + 1, ..s },
        QuoteItem::Failed => RunState { next: s.next + 1, errors: s.errors + 1, ..s },
    }
}

/// A line of the fetch log.
pub struct LogLine {
    /// `ok`, `error` or `skipped`.
    pub status: &'static str,
    pub detail: String,
    pub rows: i64,
}

/// What a finished run leaves: a line of the log, where the run is notable, and
/// the error that the job is marked with, unless it is marked as fine.
pub struct RunReport {
    pub log: Option<LogLine>,
    pub error: Option<String>,
}

/// The meaning of a [`RunReport`].
pub struct ReportView {
    pub log: Option<(Seq<char>, Seq<char>, int)>,
    pub error: Option<Seq<char>>,
}

impl View for RunReport {
    type V = ReportView;

    open spec fn view(&self) -> ReportView {
        ReportView {
            log: match self.log {
                Some(l) => Some((l.status@, l.detail@, l.rows as int)),
                None => None,
            },
            error: text_view(self.error),
        }
    }
}

/// The counts of a run in words.
pub open spec fn counts(ok: int, errors: int) -> Seq<char> {
    decimal(ok) + " ok, "@ + decimal(errors) + " errors"@
}

/// The report of a run. A run that the guard ended is logged as skipped; one in
/// which every request failed is an error; a clean one is not logged at all.
pub open spec fn report_of(s: RunState) -> ReportView {
    match s.stopped {
        Some(why) => ReportView {
            log: Some(
                ("skipped"@, "stopped early ("@ + why + "); "@ + counts(s.ok, s.errors), s.ok),
            ),
            error: None,
        },
        None => if s.ok == 0 && s.errors > 0 {
            let detail = "all "@ + decimal(s.errors) + " quotes failed"@;
            ReportView { log: Some(("error"@, detail, 0)), error: Some(detail) }
        } else if s.errors > 0 {
            ReportView { log: Some(("ok"@, counts(s.ok, s.errors), s.ok)), error: None }
        } else {
            ReportView { log: None, error: None }
        },
    }
}

fn counts_text(ok: i64, errors: i64) -> (r: String)
    ensures
        r@ == counts(ok as int, errors as int),
{
    let mut t = decimal_text(ok);
    t.append(" ok, ");
    t.append(decimal_text(errors).as_str());
    t.append(" errors");
    t
}

impl QuoteRun {
    /// A run over these symbols.
    pub fn begin(targets: Vec<String>) -> (r: QuoteRun)
        requires
            targets@.len() <= i64::MAX,
        ensures
            r@ == run_start(texts(targets@)),
            r@.wf(),
    {
        QuoteRun { targets, next: 0, ok: 0, errors: 0, stopped: None }
    }

    /// The symbol to ask for next; `None` once the run is over.
    pub fn current(&self) -> (r: Option<&str>)
        ensures
            (match r {
                Some(t) => Some(t@),
                None => None,
            }) == self@.current(),
    {
        if self.stopped.is_none() && self.next < self.targets.len() {
            Some(self.targets[self.next].as_str())
        } else {
            None
        }
    }

    /// Takes in what became of the current symbol.
    pub fn step(&mut self, event: QuoteEvent)
        requires
            old(self)@.wf(),
            old(self)@.current() is Some,
        ensures
            final(self)@ == run_step(old(self)@, event@),
            final(self)@.wf(),
    {
        let count: usize = self.targets.len();
        assert(self@.targets.len() == count);
        match event {
            QuoteEvent::Denied(why) => {
                self.stopped = Some(why);
            },
            QuoteEvent::Quoted => {
                self.next += 1;
                self.ok += 1;
            },
            QuoteEvent::Failed => {
                self.next += 1;
                self.errors += 1;
            },
        }
    }

    /// What the run reports.
    pub fn report(&self) -> (r: RunReport)
        ensures
            r@ == report_of(self@),
    {
        match &self.stopped {
            Some(why) => {
                let mut detail = "stopped early (".to_owned();
                detail.append(why.as_str());
                detail.append("); ");
                detail.append(counts_text(self.ok, self.errors).as_str());
                RunReport {
                    log: Some(LogLine { status: "skipped", detail, rows: self.ok }),
                    error: None,
                }
            },
            None => {
                if self.ok == 0 && self.errors > 0 {
                    let mut detail = "all ".to_owned();
                    detail.append(decimal_text(self.errors).as_str());
                    detail.append(" quotes failed");
                    let error = Some(detail.clone());
                    RunReport { log: Some(LogLine { status: "error", detail, rows: 0 }), error }
                } else if self.errors > 0 {
                    RunReport {
                        log: Some(
                            LogLine {
                                status: "ok",
                                detail: counts_text(self.ok, self.errors),
                                rows: self.ok,
                            },
                        ),
                        error: None,
                    }
                } else {
                    RunReport { log: None, error: None }
                }
            },
        }
    }
}

/// The run after a sequence of events.
pub open spec fn run_all(s: RunState, events: Seq<QuoteItem>) -> RunState
    decreases events.len(),
{
    if events.len() == 0 {
        s
    } else {
        run_step(run_all(s, events.drop_last()), events.last())
    }
}

/// The events are those of a run: each tells what became of a symbol that was
/// asked for.
pub open spec fn run_events(s: RunState, events: Seq<QuoteItem>) -> bool {
    forall|k: int|
        0 <= k < events.len() ==> (#[trigger] run_all(s, events.take(k))).current() is Some
}

/// A run asks for each symbol once and in order: the `k`-th event is about the
/// `k`-th symbol.
pub proof fn law_each_symbol_once(targets: Seq<Seq<char>>, events: Seq<QuoteItem>, k: int)
    requires
        targets.len() <= i64::MAX,
        run_events(run_start(targets), events),
        0 <= k < events.len(),
    ensures
        k < targets.len(),
        run_all(run_start(targets), events.take(k)).current() == Some(targets[k]),
        run_all(run_start(targets), events.take(k)).wf(),
        run_all(run_start(targets), events.take(k)).targets == targets,
        run_all(run_start(targets), events.take(k)).next == k,
    decreases k,
{
    let s = run_start(targets);
    assert(run_all(s, events.take(k)).current() is Some);
    if k > 0 {
        law_each_symbol_once(targets, events, k - 1);
        assert(events.take(k).drop_last() =~= events.take(k - 1));
    }
}

/// A refusal ends a run: no symbol is asked for after it.
pub proof fn law_refusal_ends_the_run(targets: Seq<Seq<char>>, events: Seq<QuoteItem>, k: int)
    requires
        targets.len() <= i64::MAX,
        run_events(run_start(targets), events),
        0 <= k < events.len(),
        events[k] is Denied,
    ensures
        k == events.len() - 1,
{
    let s = run_start(targets);
    if k < events.len() - 1 {
        assert(events.take(k + 1).drop_last() =~= events.take(k));
        assert(run_all(s, events.take(k + 1)).current() is Some);
    }
}

/// Nothing is polled when nobody is watching.
pub proof fn law_nobody_watching(
    open: bool,
    around_clock: Seq<Seq<char>>,
    recent: Seq<Seq<char>>,
)
    ensures
        Seq::<Seq<char>>::empty().filter(due_for_quote(open, around_clock, recent))
            == Seq::<Seq<char>>::empty(),
{
    reveal(Seq::filter);
}

/// Every symbol that is polled is viewed, live and was not quoted lately.
pub proof fn law_only_viewed_are_polled(
    viewed: Seq<Seq<char>>,
    open: bool,
    around_clock: Seq<Seq<char>>,
    recent: Seq<Seq<char>>,
    t: Seq<char>,
)
    ensures
        viewed.filter(due_for_quote(open, around_clock, recent)).contains(t) <==> {
            &&& viewed.contains(t)
            &&& open || around_clock.contains(t)
            &&& !recent.contains(t)
        },
{
    let keep = due_for_quote(open, around_clock, recent);
    let out = viewed.filter(keep);
    if out.contains(t) {
        let i = choose|i: int| 0 <= i < out.len() && out[i] == t;
        viewed.lemma_filter_pred(keep, i);
        viewed.lemma_filter_contains_rev(keep, t);
    }
    if viewed.contains(t) && keep(t) {
        let i = choose|i: int| 0 <= i < viewed.len() && viewed[i] == t;
        viewed.lemma_filter_contains(keep, i);
    }
}

// ── the home sweep ─────────────────────────────────────────────────────────

/// A job that runs every `secs` seconds is due: it never ran, or long enough ago.
pub open spec fn is_due(last: Option<i64>, now: int, secs: int) -> bool {
    match last {
        Some(t) => now - t >= secs * 1000,
        None => true,
    }
}

/// Whether a job that runs every `secs` seconds is due.
pub fn job_due(last: Option<i64>, now: i64, secs: i64) -> (r: bool)
    ensures
        r == is_due(last, now as int, secs as int),
{
    match last {
        Some(t) => now as i128 - t as i128 >= secs as i128 * 1000,
        None => true,
    }
}

/// A list of symbols with each further one added that it does not hold yet.
pub open spec fn merged(first: Seq<Seq<char>>, more: Seq<Seq<char>>) -> Seq<Seq<char>>
    decreases more.len(),
{
    if more.len() == 0 {
        first
    } else {
        let before = merged(first, more.drop_last());
        if before.contains(more.last()) {
            before
        } else {
            before.push(more.last())
        }
    }
}

/// The symbols of a home sweep: the dashboard's instruments, then the watchlists'
/// symbols; outside a session only those that trade around the clock.
pub fn home_targets(
    dashboard: &Vec<String>,
    watchlisted: &Vec<String>,
    open: bool,
    around_clock: &Vec<String>,
) -> (r: Vec<String>)
    ensures
        texts(r@) == merged(texts(dashboard@), texts(watchlisted@)).filter(
            live(open, texts(around_clock@)),
        ),
{
    let mut all: Vec<String> = Vec::new();
    let mut i: usize = 0;
    while i < dashboard.len()
        invariant
            i <= dashboard@.len(),
            texts(all@) =~= texts(dashboard@).take(i as int),
        decreases dashboard.len() - i,
    {
        let ghost before = texts(all@);
        all.push(dashboard[i].clone());
        assert(texts(all@) =~= before.push(texts(dashboard@)[i as int]));
        i += 1;
    }
    assert(texts(dashboard@).take(dashboard@.len() as int) =~= texts(dashboard@));
    let ghost more = texts(watchlisted@);
    let mut j: usize = 0;
    assert(more.take(0) =~= Seq::<Seq<char>>::empty());
    while j < watchlisted.len()
        invariant
            j <= watchlisted@.len(),
            more == texts(watchlisted@),
            texts(all@) == merged(texts(dashboard@), more.take(j as int)),
        decreases watchlisted.len() - j,
    {
        let ghost before = texts(all@);
        assert(more.take(j + 1).drop_last() =~= more.take(j as int));
        if !contains_text(&all, watchlisted[j].as_str()) {
            all.push(watchlisted[j].clone());
            assert(texts(all@) =~= before.push(more[j as int]));
        }
        j += 1;
    }
    assert(more.take(more.len() as int) =~= more);
    let none: Vec<String> = Vec::new();
    let out = intraday_targets(&all, open, around_clock, &none);
    proof {
        let a = due_for_quote(open, texts(around_clock@), texts(none@));
        let b = live(open, texts(around_clock@));
        assert(forall|t: Seq<char>| #[trigger] a(t) == b(t));
        lemma_same_filter(texts(all@), a, b);
    }
    out
}

proof fn lemma_same_filter<A>(s: Seq<A>, a: spec_fn(A) -> bool, b: spec_fn(A) -> bool)
    requires
        forall|x: A| #[trigger] a(x) == b(x),
    ensures
        s.filter(a) == s.filter(b),
    decreases s.len(),
{
    reveal(Seq::filter);
    if s.len() > 0 {
        lemma_same_filter(s.drop_last(), a, b);
        assert(a(s.last()) == b(s.last()));
    }
}

/// When the next home sweep falls due.
pub fn next_home_sweep(now: i64) -> (r: i64)
    requires
        now + HOME_SWEEP_INTERVAL_SECS * 1000 <= i64::MAX,
    ensures
        r == now + HOME_SWEEP_INTERVAL_SECS * 1000,
{
    now + HOME_SWEEP_INTERVAL_SECS * 1000
}

/// A home sweep covers exactly the dashboard's and the watchlists' symbols.
pub proof fn law_home_covers(first: Seq<Seq<char>>, more: Seq<Seq<char>>, t: Seq<char>)
    ensures
        merged(first, more).contains(t) <==> first.contains(t) || more.contains(t),
    decreases more.len(),
{
    if more.len() > 0 {
        law_home_covers(first, more.drop_last(), t);
        let before = merged(first, more.drop_last());
        let all = merged(first, more);
        assert(more =~= more.drop_last().push(more.last()));
        if before.contains(t) {
            let i = choose|i: int| 0 <= i < before.len() && before[i] == t;
            assert(all[i] == t);
        }
        if t == more.last() && !before.contains(t) {
            assert(all[before.len() as int] == t);
        }
        if more.contains(t) && t != more.last() {
            let i = choose|i: int| 0 <= i < more.len() && more[i] == t;
            assert(more.drop_last()[i] == t);
        }
        if more.drop_last().contains(t) {
            let i = choose|i: int|
                0 <= i < more.drop_last().len() && more.drop_last()[i] == t;
            assert(more[i] == t);
        }
        assert(more[more.len() - 1] == more.last());
    }
}

/// Inside a session a home sweep asks for every dashboard and watchlist symbol;
/// outside it, for those of them that trade around the clock, and no others.
pub proof fn law_home_sweep(
    first: Seq<Seq<char>>,
    more: Seq<Seq<char>>,
    open: bool,
    around_clock: Seq<Seq<char>>,
    t: Seq<char>,
)
    ensures
        merged(first, more).filter(live(open, around_clock)).contains(t) <==> {
            &&& first.contains(t) || more.contains(t)
            &&& open || around_clock.contains(t)
        },
{
    let keep = live(open, around_clock);
    let all = merged(first, more);
    let out = all.filter(keep);
    law_home_covers(first, more, t);
    if out.contains(t) {
        let i = choose|i: int| 0 <= i < out.len() && out[i] == t;
        all.lemma_filter_pred(keep, i);
        all.lemma_filter_contains_rev(keep, t);
    }
    if all.contains(t) && keep(t) {
        let i = choose|i: int| 0 <= i < all.len() && all[i] == t;
        all.lemma_filter_contains(keep, i);
    }
}

/// A home sweep asks for no symbol twice, where the dashboard lists none twice.
pub proof fn law_home_asks_once(first: Seq<Seq<char>>, more: Seq<Seq<char>>)
    requires
        first.no_duplicates(),
    ensures
        merged(first, more).no_duplicates(),
    decreases more.len(),
{
    if more.len() > 0 {
        law_home_asks_once(first, more.drop_last());
    }
}

} // verus!
