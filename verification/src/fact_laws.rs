//! What holds of the facts that [`crate::facts::select_facts`] keeps.
use vstd::prelude::*;

use crate::facts::{
    concept_entries, fact_of, fiscal_month, company_entries, keep_since, metric_table,
    named_series, newest, or_empty, outreaches, period_index, pinned_series, selected_facts,
    series_of, table_facts, EntryView, FactView,
};
use crate::text::{lemma_lex_irreflexive, lemma_lex_total, lemma_lex_transitive, lex_less};

verus! {

/// `period_index` finds the first fact of a period, where there is one.
proof fn lemma_period_index<V>(series: Seq<FactView<V>>, period: Seq<char>)
    ensures
        0 <= period_index(series, period) <= series.len(),
        period_index(series, period) < series.len() ==> series[period_index(
            series,
            period,
        )].period == period,
        period_index(series, period) == series.len() ==> forall|i: int|
            0 <= i < series.len() ==> (#[trigger] series[i]).period != period,
    decreases series.len(),
{
    if series.len() > 0 {
        let rest = series.drop_first();
        lemma_period_index(rest, period);
        if period_index(series, period) == series.len() {
            assert forall|i: int| 0 <= i < series.len() implies (#[trigger] series[i]).period
                != period by {
                if i > 0 {
                    assert(series[i] == rest[i - 1]);
                }
            }
        }
    }
}

pub open spec fn distinct_periods<V>(series: Seq<FactView<V>>) -> bool {
    forall|i: int, j: int|
        0 <= i < j < series.len() ==> (#[trigger] series[i]).period != (#[trigger] series[j]).period
}

/// A series holds each period once.
pub proof fn law_series_periods_distinct<V>(
    metric: Seq<char>,
    entries: Seq<(Seq<char>, EntryView<V>)>,
    fye_month: int,
    this_year: int,
)
    ensures
        distinct_periods(series_of(metric, entries, fye_month, this_year)),
    decreases entries.len(),
{
    if entries.len() > 0 {
        law_series_periods_distinct(metric, entries.drop_last(), fye_month, this_year);
        let before = series_of(metric, entries.drop_last(), fye_month, this_year);
        if let Some(f) = fact_of(
            metric,
            entries.last().0,
            entries.last().1,
            fye_month,
            this_year,
        ) {
            lemma_period_index(before, f.period);
        }
    }
}

/// Every fact of a series is the fact of one of the values it was built from.
pub proof fn law_series_facts_are_reported<V>(
    metric: Seq<char>,
    entries: Seq<(Seq<char>, EntryView<V>)>,
    fye_month: int,
    this_year: int,
    i: int,
)
    requires
        0 <= i < series_of(metric, entries, fye_month, this_year).len(),
    ensures
        exists|k: int|
            0 <= k < entries.len() && fact_of(
                metric,
                (#[trigger] entries[k]).0,
                entries[k].1,
                fye_month,
                this_year,
            ) == Some(series_of(metric, entries, fye_month, this_year)[i]),
    decreases entries.len(),
{
    let n = entries.len() - 1;
    let before = series_of(metric, entries.drop_last(), fye_month, this_year);
    let f = series_of(metric, entries, fye_month, this_year)[i];
    let last = fact_of(metric, entries[n].0, entries[n].1, fye_month, this_year);
    if last is Some {
        lemma_period_index(before, last->0.period);
    }
    if last != Some(f) {
        assert(0 <= i < before.len() && before[i] == f);
        law_series_facts_are_reported(metric, entries.drop_last(), fye_month, this_year, i);
        let k = choose|k: int|
            0 <= k < entries.drop_last().len() && fact_of(
                metric,
                (#[trigger] entries.drop_last()[k]).0,
                entries.drop_last()[k].1,
                fye_month,
                this_year,
            ) == Some(f);
        assert(entries[k] == entries.drop_last()[k]);
    } else {
        assert(fact_of(metric, entries[n].0, entries[n].1, fye_month, this_year) == Some(f));
    }
}

/// A later filing's restatement wins: of the values that a concept reports for
/// a period, none was filed after the one the series holds.
pub proof fn law_latest_restatement_wins<V>(
    metric: Seq<char>,
    entries: Seq<(Seq<char>, EntryView<V>)>,
    fye_month: int,
    this_year: int,
    k: int,
)
    requires
        0 <= k < entries.len(),
        fact_of(metric, entries[k].0, entries[k].1, fye_month, this_year) is Some,
    ensures
        ({
            let series = series_of(metric, entries, fye_month, this_year);
            let f = fact_of(metric, entries[k].0, entries[k].1, fye_month, this_year)->0;
            exists|i: int|
                0 <= i < series.len() && (#[trigger] series[i]).period == f.period && !lex_less(
                    or_empty(series[i].filed_at),
                    or_empty(f.filed_at),
                )
        }),
    decreases entries.len(),
{
    let n = entries.len() - 1;
    let series = series_of(metric, entries, fye_month, this_year);
    let before = series_of(metric, entries.drop_last(), fye_month, this_year);
    let f = fact_of(metric, entries[k].0, entries[k].1, fye_month, this_year)->0;
    let last = fact_of(metric, entries[n].0, entries[n].1, fye_month, this_year);
    if k == n {
        lemma_period_index(before, f.period);
        lemma_lex_irreflexive(or_empty(f.filed_at));
        let at = period_index(before, f.period);
        assert(series[at].period == f.period);
    } else {
        law_latest_restatement_wins(metric, entries.drop_last(), fye_month, this_year, k);
        assert(entries.drop_last()[k] == entries[k]);
        let i = choose|i: int|
            0 <= i < before.len() && (#[trigger] before[i]).period == f.period && !lex_less(
                or_empty(before[i].filed_at),
                or_empty(f.filed_at),
            );
        if let Some(g) = last {
            lemma_period_index(before, g.period);
            let at = period_index(before, g.period);
            if at == i && series[i] != before[i] {
                // The replacement was filed after the fact it replaced.
                if lex_less(or_empty(g.filed_at), or_empty(f.filed_at)) {
                    lemma_lex_transitive(
                        or_empty(before[i].filed_at),
                        or_empty(g.filed_at),
                        or_empty(f.filed_at),
                    );
                }
            }
        }
        assert(series[i].period == f.period);
    }
}

/// The facts of one metric all come from one of its concepts: the pinned series
/// is that concept's series, or there is none.
pub proof fn law_pinned_series_is_one_concept<V>(
    metric: Seq<char>,
    concepts: Seq<Seq<char>>,
    upto: int,
    facts: Seq<(Seq<char>, Seq<(Seq<char>, Seq<EntryView<V>>)>)>,
    fye_month: int,
    this_year: int,
)
    requires
        0 <= upto <= concepts.len(),
    ensures
        ({
            let pinned = pinned_series(metric, concepts, upto, facts, fye_month, this_year);
            pinned.len() == 0 || exists|k: int|
                0 <= k < upto && pinned == named_series(
                    metric,
                    facts,
                    #[trigger] concepts[k],
                    fye_month,
                    this_year,
                )
        }),
    decreases upto,
{
    if upto > 0 {
        law_pinned_series_is_one_concept(
            metric,
            concepts,
            upto - 1,
            facts,
            fye_month,
            this_year,
        );
        let best = pinned_series(metric, concepts, upto - 1, facts, fye_month, this_year);
        let next = named_series(metric, facts, concepts[upto - 1], fye_month, this_year);
        let pinned = pinned_series(metric, concepts, upto, facts, fye_month, this_year);
        if pinned.len() > 0 && pinned == best && !(next.len() > 0 && (best.len() == 0
            || outreaches(best, next))) {
            let k = choose|k: int|
                0 <= k < upto - 1 && best == named_series(
                    metric,
                    facts,
                    #[trigger] concepts[k],
                    fye_month,
                    this_year,
                );
            assert(pinned == named_series(metric, facts, concepts[k], fye_month, this_year));
        } else {
            assert(pinned.len() > 0 ==> pinned == named_series(
                metric,
                facts,
                concepts[upto - 1],
                fye_month,
                this_year,
            ));
        }
    }
}

proof fn lemma_outreaches_transitive<V>(
    a: Seq<FactView<V>>,
    b: Seq<FactView<V>>,
    c: Seq<FactView<V>>,
)
    requires
        outreaches(a, b),
        outreaches(b, c),
    ensures
        outreaches(a, c),
{
    if lex_less(newest(a), newest(b)) && lex_less(newest(b), newest(c)) {
        lemma_lex_transitive(newest(a), newest(b), newest(c));
    }
}

/// The pinned concept is the best one: where any of the concepts has facts,
/// some are kept, and no concept reaches further forward, or covers more periods
/// up to the same end, than the pinned one.
pub proof fn law_no_concept_outreaches_the_pinned<V>(
    metric: Seq<char>,
    concepts: Seq<Seq<char>>,
    upto: int,
    facts: Seq<(Seq<char>, Seq<(Seq<char>, Seq<EntryView<V>>)>)>,
    fye_month: int,
    this_year: int,
    k: int,
)
    requires
        0 <= k < upto <= concepts.len(),
        named_series(metric, facts, concepts[k], fye_month, this_year).len() > 0,
    ensures
        ({
            let pinned = pinned_series(metric, concepts, upto, facts, fye_month, this_year);
            pinned.len() > 0 && !outreaches(
                pinned,
                named_series(metric, facts, concepts[k], fye_month, this_year),
            )
        }),
    decreases upto,
{
    let best = pinned_series(metric, concepts, upto - 1, facts, fye_month, this_year);
    let next = named_series(metric, facts, concepts[upto - 1], fye_month, this_year);
    let other = named_series(metric, facts, concepts[k], fye_month, this_year);
    if k == upto - 1 {
        lemma_lex_irreflexive(newest(next));
    } else {
        law_no_concept_outreaches_the_pinned(
            metric,
            concepts,
            upto - 1,
            facts,
            fye_month,
            this_year,
            k,
        );
        if outreaches(best, next) && outreaches(next, other) {
            lemma_outreaches_transitive(best, next, other);
        }
    }
}

/// Every fact of a pinned series has the metric's name, and its fiscal year is
/// within the retention window.
pub proof fn law_retention<V>(
    metric: Seq<char>,
    concepts: Seq<Seq<char>>,
    facts: Seq<(Seq<char>, Seq<(Seq<char>, Seq<EntryView<V>>)>)>,
    fye_month: int,
    this_year: int,
    i: int,
)
    requires
        0 <= i < pinned_series(
            metric,
            concepts,
            concepts.len() as int,
            facts,
            fye_month,
            this_year,
        ).len(),
    ensures
        ({
            let f = pinned_series(
                metric,
                concepts,
                concepts.len() as int,
                facts,
                fye_month,
                this_year,
            )[i];
            &&& f.metric == metric
            &&& f.fiscal_year >= keep_since(f.fiscal_qtr is Some, this_year)
        }),
{
    let n = concepts.len() as int;
    law_pinned_series_is_one_concept(metric, concepts, n, facts, fye_month, this_year);
    let pinned = pinned_series(metric, concepts, n, facts, fye_month, this_year);
    let k = choose|k: int|
        0 <= k < n && pinned == named_series(
            metric,
            facts,
            #[trigger] concepts[k],
            fye_month,
            this_year,
        );
    let units = crate::facts::concept_named(facts, concepts[k])->0;
    law_series_facts_are_reported(metric, concept_entries(units), fye_month, this_year, i);
}

pub open spec fn distinct_metrics(table: Seq<(Seq<char>, Seq<Seq<char>>)>) -> bool {
    forall|i: int, j: int|
        0 <= i < j < table.len() ==> (#[trigger] table[i]).0 != (#[trigger] table[j]).0
}

pub proof fn lemma_metric_table_distinct()
    ensures
        distinct_metrics(metric_table()),
{
    reveal_strlit("revenue");
    reveal_strlit("net_income");
    reveal_strlit("eps_diluted");
    reveal_strlit("shares_diluted");
    reveal_strlit("dividends_per_share");
    reveal_strlit("assets");
    reveal_strlit("liabilities");
    reveal_strlit("equity");
    reveal_strlit("assets_current");
    reveal_strlit("liabilities_current");
    let t = metric_table();
    assert(t[0].0.len() == 7);
    assert(t[1].0.len() == 10);
    assert(t[2].0.len() == 11 && t[2].0[0] == 'e');
    assert(t[3].0.len() == 14 && t[3].0[0] == 's');
    assert(t[4].0.len() == 19 && t[4].0[0] == 'd');
    assert(t[5].0.len() == 6 && t[5].0[0] == 'a');
    assert(t[6].0.len() == 11 && t[6].0[0] == 'l');
    assert(t[7].0.len() == 6 && t[7].0[0] == 'e');
    assert(t[8].0.len() == 14 && t[8].0[0] == 'a');
    assert(t[9].0.len() == 19 && t[9].0[0] == 'l');
    assert(t.len() == 10);
}

/// A fact of a table belongs to the pinned series of one of its rows.
pub proof fn lemma_table_fact_row<V>(
    table: Seq<(Seq<char>, Seq<Seq<char>>)>,
    facts: Seq<(Seq<char>, Seq<(Seq<char>, Seq<EntryView<V>>)>)>,
    fye_month: int,
    this_year: int,
    j: int,
) -> (row: int)
    requires
        0 <= j < table_facts(table, facts, fye_month, this_year).len(),
    ensures
        0 <= row < table.len(),
        table[row].0 == table_facts(table, facts, fye_month, this_year)[j].metric,
        pinned_series(
            table[row].0,
            table[row].1,
            table[row].1.len() as int,
            facts,
            fye_month,
            this_year,
        ).contains(table_facts(table, facts, fye_month, this_year)[j]),
    decreases table.len(),
{
    let head = table_facts(table.drop_last(), facts, fye_month, this_year);
    let tail = pinned_series(
        table.last().0,
        table.last().1,
        table.last().1.len() as int,
        facts,
        fye_month,
        this_year,
    );
    if j < head.len() {
        let row = lemma_table_fact_row(table.drop_last(), facts, fye_month, this_year, j);
        assert(table.drop_last()[row] == table[row]);
        row
    } else {
        law_retention(
            table.last().0,
            table.last().1,
            facts,
            fye_month,
            this_year,
            j - head.len(),
        );
        assert(tail[j - head.len()] == table_facts(table, facts, fye_month, this_year)[j]);
        table.len() - 1
    }
}

/// All facts of `metric` among `out` come from the series of `concept`.
pub open spec fn drawn_from<V>(
    out: Seq<FactView<V>>,
    metric: Seq<char>,
    facts: Seq<(Seq<char>, Seq<(Seq<char>, Seq<EntryView<V>>)>)>,
    concept: Seq<char>,
    fye_month: int,
    this_year: int,
) -> bool {
    let series = named_series(metric, facts, concept, fye_month, this_year);
    forall|j: int|
        0 <= j < out.len() && (#[trigger] out[j]).metric == metric ==> series.contains(out[j])
}

/// One definition per metric: all facts of a metric that are kept come from one
/// us-gaap concept.
pub proof fn law_one_definition_per_metric<V>(
    facts: Seq<(Seq<char>, Seq<(Seq<char>, Seq<EntryView<V>>)>)>,
    this_year: int,
    metric: Seq<char>,
)
    ensures
        exists|concept: Seq<char>| #[trigger]
            drawn_from(
                selected_facts(facts, this_year),
                metric,
                facts,
                concept,
                fiscal_month(company_entries(facts)),
                this_year,
            ),
{
    let fye_month = fiscal_month(company_entries(facts));
    let out = selected_facts(facts, this_year);
    let table = metric_table();
    lemma_metric_table_distinct();
    if exists|j: int| 0 <= j < out.len() && (#[trigger] out[j]).metric == metric {
        let j0 = choose|j: int| 0 <= j < out.len() && (#[trigger] out[j]).metric == metric;
        let row = lemma_table_fact_row(table, facts, fye_month, this_year, j0);
        let concepts = table[row].1;
        let n = concepts.len() as int;
        law_pinned_series_is_one_concept(metric, concepts, n, facts, fye_month, this_year);
        let pinned = pinned_series(metric, concepts, n, facts, fye_month, this_year);
        let k = choose|k: int|
            0 <= k < n && pinned == named_series(
                metric,
                facts,
                #[trigger] concepts[k],
                fye_month,
                this_year,
            );
        assert forall|j: int| 0 <= j < out.len() && (#[trigger] out[j]).metric
            == metric implies pinned.contains(out[j]) by {
            let r = lemma_table_fact_row(table, facts, fye_month, this_year, j);
            assert(r == row);
        }
        assert(drawn_from(out, metric, facts, concepts[k], fye_month, this_year));
    } else {
        assert(drawn_from(out, metric, facts, Seq::empty(), fye_month, this_year));
    }
}

proof fn lemma_table_facts_distinct<V>(
    table: Seq<(Seq<char>, Seq<Seq<char>>)>,
    facts: Seq<(Seq<char>, Seq<(Seq<char>, Seq<EntryView<V>>)>)>,
    fye_month: int,
    this_year: int,
    i: int,
    j: int,
)
    requires
        distinct_metrics(table),
        0 <= i < j < table_facts(table, facts, fye_month, this_year).len(),
    ensures
        ({
            let out = table_facts(table, facts, fye_month, this_year);
            out[i].metric != out[j].metric || out[i].period != out[j].period
        }),
    decreases table.len(),
{
    let head = table_facts(table.drop_last(), facts, fye_month, this_year);
    let last = table.len() - 1;
    let concepts = table[last].1;
    if j < head.len() {
        lemma_table_facts_distinct(table.drop_last(), facts, fye_month, this_year, i, j);
    } else if i < head.len() {
        let row = lemma_table_fact_row(table.drop_last(), facts, fye_month, this_year, i);
        assert(table.drop_last()[row] == table[row]);
        law_retention(table[last].0, concepts, facts, fye_month, this_year, j - head.len());
    } else {
        let n = concepts.len() as int;
        let metric = table[last].0;
        law_pinned_series_is_one_concept(metric, concepts, n, facts, fye_month, this_year);
        let pinned = pinned_series(metric, concepts, n, facts, fye_month, this_year);
        let k = choose|k: int|
            0 <= k < n && pinned == named_series(
                metric,
                facts,
                #[trigger] concepts[k],
                fye_month,
                this_year,
            );
        let units = crate::facts::concept_named(facts, concepts[k])->0;
        law_series_periods_distinct(metric, concept_entries(units), fye_month, this_year);
        assert(pinned[i - head.len()].period != pinned[j - head.len()].period);
    }
}

/// No two facts that are kept share their metric and period.
pub proof fn law_one_fact_per_metric_and_period<V>(
    facts: Seq<(Seq<char>, Seq<(Seq<char>, Seq<EntryView<V>>)>)>,
    this_year: int,
    i: int,
    j: int,
)
    requires
        0 <= i < j < selected_facts(facts, this_year).len(),
    ensures
        ({
            let out = selected_facts(facts, this_year);
            out[i].metric != out[j].metric || out[i].period != out[j].period
        }),
{
    lemma_metric_table_distinct();
    lemma_table_facts_distinct(
        metric_table(),
        facts,
        fiscal_month(company_entries(facts)),
        this_year,
        i,
        j,
    );
}

/// `newest` is an upper bound of the period ends, and one of them.
pub proof fn law_newest_is_the_latest_end<V>(series: Seq<FactView<V>>, i: int)
    requires
        0 <= i < series.len(),
    ensures
        !lex_less(newest(series), series[i].period_end),
        exists|k: int|
            0 <= k < series.len() && (#[trigger] series[k]).period_end == newest(series),
    decreases series.len(),
{
    let rest = series.drop_last();
    let before = newest(rest);
    let end = series.last().period_end;
    assert(series[series.len() - 1].period_end == end);
    if !lex_less(before, end) {
        if rest.len() == 0 {
            assert(end =~= before);
        } else {
            law_newest_is_the_latest_end(rest, 0);
            let k = choose|k: int|
                0 <= k < rest.len() && (#[trigger] rest[k]).period_end == newest(rest);
            assert(series[k].period_end == newest(series));
        }
    }
    if i == series.len() - 1 {
        lemma_lex_irreflexive(end);
    } else {
        law_newest_is_the_latest_end(series.drop_last(), i);
        if lex_less(before, end) && lex_less(end, series[i].period_end) {
            lemma_lex_transitive(before, end, series[i].period_end);
        }
    }
}

/// Of the values that a concept reports for a period, the series holds the one that
/// was filed last, and of those filed together the first: every earlier one was
/// filed before it, and no later one after it.
pub proof fn law_which_value_stands<V>(
    metric: Seq<char>,
    entries: Seq<(Seq<char>, EntryView<V>)>,
    fye_month: int,
    this_year: int,
    i: int,
) -> (k: int)
    requires
        0 <= i < series_of(metric, entries, fye_month, this_year).len(),
    ensures
        0 <= k < entries.len(),
        ({
            let held = series_of(metric, entries, fye_month, this_year)[i];
            &&& fact_of(metric, entries[k].0, entries[k].1, fye_month, this_year) == Some(held)
            &&& forall|m: int|
                0 <= m < entries.len() ==> (fact_of(
                    metric,
                    (#[trigger] entries[m]).0,
                    entries[m].1,
                    fye_month,
                    this_year,
                ) matches Some(g) ==> g.period == held.period ==> {
                    &&& m < k ==> lex_less(or_empty(g.filed_at), or_empty(held.filed_at))
                    &&& m > k ==> !lex_less(or_empty(held.filed_at), or_empty(g.filed_at))
                })
        }),
    decreases entries.len(),
{
    let n = entries.len() - 1;
    let rest = entries.drop_last();
    let before = series_of(metric, rest, fye_month, this_year);
    let series = series_of(metric, entries, fye_month, this_year);
    let last = fact_of(metric, entries[n].0, entries[n].1, fye_month, this_year);
    law_series_periods_distinct(metric, rest, fye_month, this_year);
    if last is Some {
        lemma_period_index(before, last->0.period);
    }
    if i < before.len() && series[i] == before[i] && (last is None || last->0.period
        != before[i].period || !lex_less(or_empty(before[i].filed_at), or_empty(last->0.filed_at))) {
        let k = law_which_value_stands(metric, rest, fye_month, this_year, i);
        assert(rest[k] == entries[k]);
        assert forall|m: int| 0 <= m < entries.len() implies (fact_of(
            metric,
            (#[trigger] entries[m]).0,
            entries[m].1,
            fye_month,
            this_year,
        ) matches Some(g) ==> g.period == series[i].period ==> {
            &&& m < k ==> lex_less(or_empty(g.filed_at), or_empty(series[i].filed_at))
            &&& m > k ==> !lex_less(or_empty(series[i].filed_at), or_empty(g.filed_at))
        }) by {
            if m < n {
                assert(rest[m] == entries[m]);
            }
        }
        k
    } else {
        let f = last->0;
        let at = period_index(before, f.period);
        assert(series[i] == f);
        assert forall|m: int| 0 <= m < entries.len() implies (fact_of(
            metric,
            (#[trigger] entries[m]).0,
            entries[m].1,
            fye_month,
            this_year,
        ) matches Some(g) ==> g.period == f.period ==> {
            &&& m < n ==> lex_less(or_empty(g.filed_at), or_empty(f.filed_at))
            &&& m > n ==> !lex_less(or_empty(f.filed_at), or_empty(g.filed_at))
        }) by {
            if m < n {
                assert(rest[m] == entries[m]);
                let got = fact_of(metric, entries[m].0, entries[m].1, fye_month, this_year);
                if got is Some && got->0.period == f.period {
                    let g = got->0;
                    law_latest_restatement_wins(metric, rest, fye_month, this_year, m);
                    let p = choose|p: int|
                        0 <= p < before.len() && (#[trigger] before[p]).period == g.period
                            && !lex_less(or_empty(before[p].filed_at), or_empty(g.filed_at));
                    assert(p == at) by {
                        assert(before[at].period == before[p].period);
                        if p < at {
                            assert(before[p].period != before[at].period);
                        } else if at < p {
                            assert(before[at].period != before[p].period);
                        }
                    }
                    assert(lex_less(or_empty(before[at].filed_at), or_empty(f.filed_at)));
                    lemma_lex_total(or_empty(before[at].filed_at), or_empty(g.filed_at));
                    if or_empty(before[at].filed_at) != or_empty(g.filed_at) {
                        lemma_lex_transitive(
                            or_empty(g.filed_at),
                            or_empty(before[at].filed_at),
                            or_empty(f.filed_at),
                        );
                    }
                }
            }
        }
        n
    }
}

} // verus!
