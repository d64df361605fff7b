//! What a run over a list of symbols comes to, said of what became of each.
use vstd::prelude::*;

use crate::numbers::decimal;
use crate::quotes::{
    is_due, merged, report_of, run_all, run_start, QuoteItem, RunState,
};

verus! {

/// How many of the events satisfy `which`.
pub open spec fn count_of(events: Seq<QuoteItem>, which: spec_fn(QuoteItem) -> bool) -> nat {
    events.filter(which).len()
}

pub open spec fn is_quoted() -> spec_fn(QuoteItem) -> bool {
    |e: QuoteItem| e is Quoted
}

pub open spec fn is_failed() -> spec_fn(QuoteItem) -> bool {
    |e: QuoteItem| e is Failed
}

/// A run counts the quotes that came back and the requests that failed, and knows
/// the reason of its last refusal.
pub proof fn law_run_counts(targets: Seq<Seq<char>>, events: Seq<QuoteItem>)
    ensures
        ({
            let s = run_all(run_start(targets), events);
            &&& s.ok == count_of(events, is_quoted())
            &&& s.errors == count_of(events, is_failed())
            &&& s.targets == targets
            &&& (s.stopped is Some <==> exists|i: int|
                0 <= i < events.len() && (#[trigger] events[i]) is Denied)
            &&& (events.len() > 0 ==> (events.last() matches QuoteItem::Denied(why) ==> s.stopped
                == Some(why)))
        }),
    decreases events.len(),
{
    reveal(Seq::filter);
    if events.len() > 0 {
        let before = events.drop_last();
        law_run_counts(targets, before);
        assert(events[events.len() - 1] == events.last());
        if exists|i: int| 0 <= i < before.len() && (#[trigger] before[i]) is Denied {
            let i = choose|i: int| 0 <= i < before.len() && (#[trigger] before[i]) is Denied;
            assert(events[i] is Denied);
        }
        if exists|i: int| 0 <= i < events.len() && (#[trigger] events[i]) is Denied {
            let i = choose|i: int| 0 <= i < events.len() && (#[trigger] events[i]) is Denied;
            if i < before.len() {
                assert(before[i] is Denied);
            }
        }
    }
}

/// A run is logged exactly where it was stopped or a request failed, and marked as
/// an error exactly where it ran to its end and every request failed.
pub proof fn law_report(s: RunState)
    requires
        s.ok >= 0,
        s.errors >= 0,
    ensures
        report_of(s).log is Some <==> s.stopped is Some || s.errors > 0,
        report_of(s).error is Some <==> s.stopped is None && s.ok == 0 && s.errors > 0,
        report_of(s).error matches Some(text) ==> text == "all "@ + decimal(s.errors)
            + " quotes failed"@,
        report_of(s).log matches Some((status, detail, rows)) ==> {
            &&& rows == s.ok
            &&& (s.stopped matches Some(why) ==> status == "skipped"@ && detail
                == "stopped early ("@ + why + "); "@ + (decimal(s.ok) + " ok, "@ + decimal(s.errors)
                + " errors"@))
            &&& (s.stopped is None && s.ok == 0 ==> status == "error"@ && report_of(s).error
                == Some(detail))
            &&& (s.stopped is None && s.ok > 0 ==> status == "ok"@ && detail == decimal(s.ok)
                + " ok, "@ + decimal(s.errors) + " errors"@)
        },
{
}

/// A job is due at `now` exactly where it never ran or at least its interval has
/// passed; once due it stays due until it runs.
pub proof fn law_due(last: i64, now: int, later: int, secs: int)
    ensures
        is_due(None, now, secs),
        is_due(Some(last), now, secs) <==> last + 1000 * secs <= now,
        is_due(Some(last), now, secs) && now <= later ==> is_due(Some(last), later, secs),
{
}

/// A home sweep asks for the dashboard's instruments first, as they are listed, and
/// for the watchlists' symbols behind them.
pub proof fn law_dashboard_comes_first(first: Seq<Seq<char>>, more: Seq<Seq<char>>)
    ensures
        first.len() <= merged(first, more).len() <= first.len() + more.len(),
        merged(first, more).take(first.len() as int) == first,
    decreases more.len(),
{
    if more.len() > 0 {
        law_dashboard_comes_first(first, more.drop_last());
        let before = merged(first, more.drop_last());
        assert(merged(first, more).take(first.len() as int) =~= before.take(first.len() as int));
    } else {
        assert(first.take(first.len() as int) =~= first);
    }
}

} // verus!
