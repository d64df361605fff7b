//! What the kept facts are, said of the values that were reported and the dates
//! they span.
use vstd::prelude::*;

use crate::calendar::{day_number, read_date};
use crate::fact_laws::{
    law_latest_restatement_wins, law_no_concept_outreaches_the_pinned,
    law_pinned_series_is_one_concept, law_retention, law_series_facts_are_reported, lemma_metric_table_distinct,
    lemma_table_fact_row,
};
use crate::facts::{
    classified, company_entries, concept_entries, concept_named, fact_of, fiscal_month,
    latest_total_assets, law_newest_entry, leading_month, metric_table, month_votes, named_series, newest, newest_entry, or_empty, pinned_series,
    selected_facts, series_of, table_facts, unit_entries, year_end_month, EntryView,
    FactView,
};
use crate::numbers::{decimal, digits};
use crate::text::{begins, lemma_lex_total, lemma_lex_transitive, lex_less};

verus! {

/// What a company has reported: its concepts, each with its units and their
/// values.
pub type Reported<V> = Seq<(Seq<char>, Seq<(Seq<char>, Seq<EntryView<V>>)>)>;

// ── one value ──────────────────────────────────────────────────────────────

/// The days from one date to another.
pub open spec fn days_from(start: (int, int, int), end: (int, int, int)) -> int {
    day_number(end.0, end.1, end.2) - day_number(start.0, start.1, start.2)
}

/// The value spans from `lo` to `hi` days, both included.
pub open spec fn spans<V>(e: EntryView<V>, lo: int, hi: int) -> bool {
    e.start matches Some(s) && (read_date(s) matches Some(start) && (read_date(
        e.end,
    ) matches Some(end) && lo <= days_from(start, end) <= hi))
}

/// The value ends in this fiscal year, where fiscal years end in month `fye`.
pub open spec fn ends_in_year<V>(e: EntryView<V>, fye: int, year: int) -> bool {
    read_date(e.end) matches Some(end) && year == (if end.1 > fye {
        end.0 + 1
    } else {
        end.0
    })
}

/// The value is that of a discrete fiscal quarter: it spans 80 to 100 days, and its
/// filing calls it that quarter.
pub open spec fn clean_quarter<V>(e: EntryView<V>, fye: int, q: int, year: int) -> bool {
    &&& 1 <= q <= 4
    &&& e.fp == Some("Q"@ + decimal(q))
    &&& spans(e, 80, 100)
    &&& ends_in_year(e, fye, year)
}

/// The value is that of a full fiscal year, or of its end: it spans 330 to 400
/// days, or is a snapshot out of an annual report.
pub open spec fn clean_year<V>(e: EntryView<V>, fye: int, year: int) -> bool {
    &&& e.fp == Some("FY"@)
    &&& ends_in_year(e, fye, year)
    &&& if e.start is Some {
        spans(e, 330, 400)
    } else {
        match e.form {
            Some(form) => form.len() == 0 || begins(form, "10-K"@) || begins(form, "20-F"@)
                || begins(form, "40-F"@),
            None => true,
        }
    }
}

proof fn lemma_quarter_labels()
    ensures
        "Q"@ + decimal(1) == "Q1"@,
        "Q"@ + decimal(2) == "Q2"@,
        "Q"@ + decimal(3) == "Q3"@,
        "Q"@ + decimal(4) == "Q4"@,
        "Q1"@ != "Q2"@ && "Q1"@ != "Q3"@ && "Q1"@ != "Q4"@ && "Q2"@ != "Q3"@ && "Q2"@ != "Q4"@
            && "Q3"@ != "Q4"@,
        "FY"@ != "Q1"@ && "FY"@ != "Q2"@ && "FY"@ != "Q3"@ && "FY"@ != "Q4"@,
        "FY"@.len() > 0,
{
    reveal_strlit("Q");
    reveal_strlit("Q1");
    reveal_strlit("Q2");
    reveal_strlit("Q3");
    reveal_strlit("Q4");
    reveal_strlit("FY");
    assert(digits(1) =~= seq!['1']);
    assert(digits(2) =~= seq!['2']);
    assert(digits(3) =~= seq!['3']);
    assert(digits(4) =~= seq!['4']);
    assert("Q"@ + decimal(1) =~= "Q1"@);
    assert("Q"@ + decimal(2) =~= "Q2"@);
    assert("Q"@ + decimal(3) =~= "Q3"@);
    assert("Q"@ + decimal(4) =~= "Q4"@);
    assert("Q1"@[1] == '1' && "Q2"@[1] == '2' && "Q3"@[1] == '3' && "Q4"@[1] == '4');
    assert("Q1"@[0] == 'Q' && "Q2"@[0] == 'Q' && "Q3"@[0] == 'Q' && "Q4"@[0] == 'Q' && "FY"@[0]
        == 'F');
}

/// A value is classified as a full year exactly where it is a clean year, and as a
/// quarter exactly where it is that clean quarter. So a span of more than 100 and
/// fewer than 330 days, such as a year-to-date roll-up, is never kept.
pub proof fn law_only_clean_periods<V>(
    e: EntryView<V>,
    fye: int,
    label: Seq<char>,
    year: int,
    q: int,
)
    ensures
        classified(e, fye) == Some((label, year, None::<int>)) <==> clean_year(e, fye, year)
            && label == "FY"@ + decimal(year),
        classified(e, fye) == Some((label, year, Some(q))) <==> clean_quarter(e, fye, q, year)
            && label == "Q"@ + decimal(q) + "-"@ + decimal(year),
{
    lemma_quarter_labels();
}

/// No value of 101 to 329 days is kept, nor one of more than 400.
pub proof fn law_no_year_to_date<V>(e: EntryView<V>, fye: int)
    requires
        spans(e, 101, 329) || spans(e, 401, i64::MAX as int),
    ensures
        classified(e, fye) is None,
{
    if let Some((label, year, qtr)) = classified(e, fye) {
        match qtr {
            Some(q) => {
                law_only_clean_periods(e, fye, label, year, q);
            },
            None => {
                law_only_clean_periods(e, fye, label, year, 0);
            },
        }
    }
}

// ── the fiscal year end ────────────────────────────────────────────────────

/// The value spans a fiscal year that ends in this month.
pub open spec fn year_ends_in<V>(e: EntryView<V>, month: int) -> bool {
    &&& e.fp == Some("FY"@)
    &&& spans(e, 330, 400)
    &&& read_date(e.end) matches Some(end) && end.1 == month
}

/// How many of the values span a fiscal year that ends in this month.
pub open spec fn years_ending_in<V>(entries: Seq<(Seq<char>, EntryView<V>)>, month: int) -> nat
    decreases entries.len(),
{
    if entries.len() == 0 {
        0
    } else {
        years_ending_in(entries.drop_first(), month) + if year_ends_in(entries[0].1, month) {
            1nat
        } else {
            0nat
        }
    }
}

proof fn lemma_votes<V>(entries: Seq<(Seq<char>, EntryView<V>)>, month: int)
    ensures
        month_votes(entries, month) == years_ending_in(entries, month),
    decreases entries.len(),
{
    if entries.len() > 0 {
        let head = entries.take(1);
        let rest = entries.drop_first();
        lemma_votes(rest, month);
        lemma_votes_concat(head, rest, month);
        assert(head + rest =~= entries);
        assert(head.drop_last() =~= Seq::<(Seq<char>, EntryView<V>)>::empty());
        assert(month_votes(head.drop_last(), month) == 0);
        assert(head.last() == entries[0]);
        assert(year_end_month(entries[0].1) == Some(month) <==> year_ends_in(entries[0].1, month));
    }
}

proof fn lemma_votes_concat<V>(
    a: Seq<(Seq<char>, EntryView<V>)>,
    b: Seq<(Seq<char>, EntryView<V>)>,
    month: int,
)
    ensures
        month_votes(a + b, month) == month_votes(a, month) + month_votes(b, month),
    decreases b.len(),
{
    if b.len() > 0 {
        lemma_votes_concat(a, b.drop_last(), month);
        assert((a + b).drop_last() =~= a + b.drop_last());
        assert((a + b).last() == b.last());
    } else {
        assert(a + b =~= a);
    }
}

proof fn lemma_leader<V>(entries: Seq<(Seq<char>, EntryView<V>)>, upto: int, month: int)
    requires
        1 <= month <= upto,
    ensures
        1 <= leading_month(entries, upto) <= upto,
        month_votes(entries, month) <= month_votes(entries, leading_month(entries, upto)),
        month_votes(entries, month) == month_votes(entries, leading_month(entries, upto))
            ==> month <= leading_month(entries, upto),
    decreases upto,
{
    if upto > 1 {
        if month < upto {
            lemma_leader(entries, upto - 1, month);
        } else {
            lemma_leader(entries, upto - 1, 1);
        }
    }
}

/// The fiscal year ends in the month in which most of the full-year values end; of
/// several such months, and so also where there are none, in the latest.
pub proof fn law_fiscal_month<V>(entries: Seq<(Seq<char>, EntryView<V>)>, month: int)
    requires
        1 <= month <= 12,
    ensures
        1 <= fiscal_month(entries) <= 12,
        years_ending_in(entries, month) <= years_ending_in(entries, fiscal_month(entries)),
        years_ending_in(entries, month) == years_ending_in(entries, fiscal_month(entries))
            ==> month <= fiscal_month(entries),
{
    lemma_votes(entries, month);
    lemma_votes(entries, fiscal_month(entries));
    lemma_votes(entries, 12);
    lemma_leader(entries, 12, month);
    lemma_leader(entries, 12, 12);
}

// ── the facts of a metric ──────────────────────────────────────────────────

/// The concept is one that reports the metric.
pub open spec fn reports(metric: Seq<char>, concept: Seq<char>) -> bool {
    ||| metric == "revenue"@ && (concept == "RevenueFromContractWithCustomerExcludingAssessedTax"@
        || concept == "Revenues"@ || concept
        == "RevenueFromContractWithCustomerIncludingAssessedTax"@ || concept == "SalesRevenueNet"@)
    ||| metric == "net_income"@ && (concept == "NetIncomeLoss"@ || concept == "ProfitLoss"@)
    ||| metric == "eps_diluted"@ && (concept == "EarningsPerShareDiluted"@ || concept
        == "EarningsPerShareBasicAndDiluted"@)
    ||| metric == "shares_diluted"@ && concept
        == "WeightedAverageNumberOfDilutedSharesOutstanding"@
    ||| metric == "dividends_per_share"@ && (concept == "CommonStockDividendsPerShareDeclared"@
        || concept == "CommonStockDividendsPerShareCashPaid"@)
    ||| metric == "assets"@ && concept == "Assets"@
    ||| metric == "liabilities"@ && concept == "Liabilities"@
    ||| metric == "equity"@ && (concept == "StockholdersEquity"@ || concept
        == "StockholdersEquityIncludingPortionAttributableToNoncontrollingInterest"@)
    ||| metric == "assets_current"@ && concept == "AssetsCurrent"@
    ||| metric == "liabilities_current"@ && concept == "LiabilitiesCurrent"@
}

/// The value is a clean one of the years that are kept: six for full years, three
/// for quarters.
pub open spec fn kept_value<V>(
    e: EntryView<V>,
    fye: int,
    this_year: int,
    year: int,
    qtr: Option<int>,
) -> bool {
    match qtr {
        Some(q) => clean_quarter(e, fye, q, year) && year >= this_year - 3,
        None => clean_year(e, fye, year) && year >= this_year - 6,
    }
}

/// The label of a period.
pub open spec fn period_label(year: int, qtr: Option<int>) -> Seq<char> {
    match qtr {
        Some(q) => "Q"@ + decimal(q) + "-"@ + decimal(year),
        None => "FY"@ + decimal(year),
    }
}

/// The fact is the reported value, in its unit, under its period.
pub open spec fn is_fact_of<V>(
    f: FactView<V>,
    unit: Seq<char>,
    e: EntryView<V>,
    fye: int,
    this_year: int,
) -> bool {
    &&& f.value == e.val
    &&& f.unit == Some(unit)
    &&& f.period_end == e.end
    &&& f.form == e.form
    &&& f.filed_at == e.filed
    &&& f.period == period_label(f.fiscal_year, f.fiscal_qtr)
    &&& kept_value(e, fye, this_year, f.fiscal_year, f.fiscal_qtr)
}

/// The fact is one of the values that the company reported under this concept.
pub open spec fn is_reported<V>(
    f: FactView<V>,
    concept: (Seq<char>, Seq<(Seq<char>, Seq<EntryView<V>>)>),
    fye: int,
    this_year: int,
) -> bool {
    exists|u: int, k: int|
        0 <= u < concept.1.len() && 0 <= k < concept.1[u].1.len() && is_fact_of(
            f,
            concept.1[u].0,
            #[trigger] concept.1[u].1[k],
            fye,
            this_year,
        )
}

/// Some fact of the metric stands for the period of the value, and none that was
/// filed earlier.
pub open spec fn stands_for<V>(
    out: Seq<FactView<V>>,
    metric: Seq<char>,
    e: EntryView<V>,
    label: Seq<char>,
) -> bool {
    exists|j: int|
        0 <= j < out.len() && (#[trigger] out[j]).metric == metric && out[j].period == label
            && !lex_less(or_empty(out[j].filed_at), or_empty(e.filed))
}

/// The facts of a metric are those of this concept: each is one of its values, and
/// each of its values that is to be kept has its period among them.
pub open spec fn is_series_of<V>(
    out: Seq<FactView<V>>,
    metric: Seq<char>,
    concept: (Seq<char>, Seq<(Seq<char>, Seq<EntryView<V>>)>),
    fye: int,
    this_year: int,
) -> bool {
    &&& forall|j: int|
        0 <= j < out.len() && (#[trigger] out[j]).metric == metric ==> is_reported(
            out[j],
            concept,
            fye,
            this_year,
        )
    &&& forall|u: int, k: int, year: int, qtr: Option<int>|
        #![trigger kept_value(concept.1[u].1[k], fye, this_year, year, qtr)]
        0 <= u < concept.1.len() && 0 <= k < concept.1[u].1.len() && kept_value(
            concept.1[u].1[k],
            fye,
            this_year,
            year,
            qtr,
        ) ==> stands_for(out, metric, concept.1[u].1[k], period_label(year, qtr))
}

proof fn lemma_fact_of<V>(
    metric: Seq<char>,
    unit: Seq<char>,
    e: EntryView<V>,
    fye: int,
    this_year: int,
    year: int,
    qtr: Option<int>,
)
    ensures
        fact_of(metric, unit, e, fye, this_year) matches Some(f) ==> f.metric == metric
            && is_fact_of(f, unit, e, fye, this_year),
        kept_value(e, fye, this_year, year, qtr) ==> (fact_of(
            metric,
            unit,
            e,
            fye,
            this_year,
        ) matches Some(f) && f.period == period_label(year, qtr) && f.filed_at == e.filed),
{
    let label = period_label(year, qtr);
    law_only_clean_periods(
        e,
        fye,
        label,
        year,
        match qtr {
            Some(q) => q,
            None => 0,
        },
    );
    if let Some(f) = fact_of(metric, unit, e, fye, this_year) {
        law_only_clean_periods(
            e,
            fye,
            f.period,
            f.fiscal_year,
            match f.fiscal_qtr {
                Some(q) => q,
                None => 0,
            },
        );
    }
}

proof fn lemma_concept_entry<V>(units: Seq<(Seq<char>, Seq<EntryView<V>>)>, i: int) -> (at: (
    int,
    int,
))
    requires
        0 <= i < concept_entries(units).len(),
    ensures
        0 <= at.0 < units.len(),
        0 <= at.1 < units[at.0].1.len(),
        concept_entries(units)[i] == (units[at.0].0, units[at.0].1[at.1]),
    decreases units.len(),
{
    let before = concept_entries(units.drop_last());
    if i < before.len() {
        lemma_concept_entry(units.drop_last(), i)
    } else {
        assert(unit_entries(units.last().0, units.last().1)[i - before.len()] == (
            units.last().0,
            units.last().1[i - before.len()],
        ));
        (units.len() - 1, i - before.len())
    }
}

proof fn lemma_entry_place<V>(units: Seq<(Seq<char>, Seq<EntryView<V>>)>, u: int, k: int) -> (i:
    int)
    requires
        0 <= u < units.len(),
        0 <= k < units[u].1.len(),
    ensures
        0 <= i < concept_entries(units).len(),
        concept_entries(units)[i] == (units[u].0, units[u].1[k]),
    decreases units.len(),
{
    let before = concept_entries(units.drop_last());
    if u < units.len() - 1 {
        lemma_entry_place(units.drop_last(), u, k)
    } else {
        assert(unit_entries(units.last().0, units.last().1)[k] == (
            units.last().0,
            units.last().1[k],
        ));
        before.len() + k
    }
}

proof fn lemma_concept_place<V>(facts: Reported<V>, name: Seq<char>) -> (c: int)
    requires
        concept_named(facts, name) is Some,
    ensures
        0 <= c < facts.len(),
        facts[c].0 == name,
        concept_named(facts, name) == Some(facts[c].1),
    decreases facts.len(),
{
    if facts[0].0 == name {
        0
    } else {
        lemma_concept_place(facts.drop_first(), name) + 1
    }
}

proof fn lemma_table_reports(row: int, k: int)
    requires
        0 <= row < metric_table().len(),
        0 <= k < metric_table()[row].1.len(),
    ensures
        reports(metric_table()[row].0, metric_table()[row].1[k]),
{
}

/// The facts of a table hold the whole pinned series of each of its rows.
proof fn lemma_row_in_table<V>(
    table: Seq<(Seq<char>, Seq<Seq<char>>)>,
    facts: Reported<V>,
    fye: int,
    this_year: int,
    row: int,
    i: int,
) -> (j: int)
    requires
        0 <= row < table.len(),
        0 <= i < pinned_series(
            table[row].0,
            table[row].1,
            table[row].1.len() as int,
            facts,
            fye,
            this_year,
        ).len(),
    ensures
        0 <= j < table_facts(table, facts, fye, this_year).len(),
        table_facts(table, facts, fye, this_year)[j] == pinned_series(
            table[row].0,
            table[row].1,
            table[row].1.len() as int,
            facts,
            fye,
            this_year,
        )[i],
    decreases table.len(),
{
    let head = table_facts(table.drop_last(), facts, fye, this_year);
    if row < table.len() - 1 {
        assert(table.drop_last()[row] == table[row]);
        lemma_row_in_table(table.drop_last(), facts, fye, this_year, row, i)
    } else {
        head.len() + i
    }
}

/// All facts of a metric are the values of one concept that reports it, and none of
/// that concept's clean recent periods is missing; where a period was reported more
/// than once, the fact is not the earlier filing's. A fact carries its value, unit,
/// form and dates as they were reported, a quarter spans 80 to 100 days, and a full
/// year 330 to 400.
pub proof fn law_facts_of_a_metric<V>(facts: Reported<V>, this_year: int, j: int) -> (c: int)
    requires
        0 <= j < selected_facts(facts, this_year).len(),
    ensures
        0 <= c < facts.len(),
        reports(selected_facts(facts, this_year)[j].metric, facts[c].0),
        is_series_of(
            selected_facts(facts, this_year),
            selected_facts(facts, this_year)[j].metric,
            facts[c],
            fiscal_month(company_entries(facts)),
            this_year,
        ),
{
    let fye = fiscal_month(company_entries(facts));
    let out = selected_facts(facts, this_year);
    let table = metric_table();
    let metric = out[j].metric;
    lemma_metric_table_distinct();
    let row = lemma_table_fact_row(table, facts, fye, this_year, j);
    let names = table[row].1;
    let pinned = pinned_series(metric, names, names.len() as int, facts, fye, this_year);
    law_pinned_series_is_one_concept(metric, names, names.len() as int, facts, fye, this_year);
    assert(pinned.contains(out[j]));
    let k0 = choose|k: int|
        0 <= k < names.len() && pinned == named_series(
            metric,
            facts,
            #[trigger] names[k],
            fye,
            this_year,
        );
    lemma_table_reports(row, k0);
    assert(concept_named(facts, names[k0]) is Some);
    let c = lemma_concept_place(facts, names[k0]);
    let units = facts[c].1;
    let entries = concept_entries(units);
    assert(pinned == series_of(metric, entries, fye, this_year));
    assert forall|i: int| 0 <= i < out.len() && (#[trigger] out[i]).metric == metric implies
        is_reported(out[i], facts[c], fye, this_year) by {
        let r = lemma_table_fact_row(table, facts, fye, this_year, i);
        assert(r == row) by {
            if r < row {
                assert(table[r].0 != table[row].0);
            } else if row < r {
                assert(table[row].0 != table[r].0);
            }
        }
        assert(pinned.contains(out[i]));
        let p = choose|p: int| 0 <= p < pinned.len() && pinned[p] == out[i];
        law_series_facts_are_reported(metric, entries, fye, this_year, p);
        let q = choose|q: int|
            0 <= q < entries.len() && fact_of(
                metric,
                (#[trigger] entries[q]).0,
                entries[q].1,
                fye,
                this_year,
            ) == Some(pinned[p]);
        lemma_fact_of(metric, entries[q].0, entries[q].1, fye, this_year, 0, None);
        let (u, k) = lemma_concept_entry(units, q);
        assert(is_fact_of(out[i], units[u].0, units[u].1[k], fye, this_year));
    }
    assert forall|u: int, k: int, year: int, qtr: Option<int>|
        #![trigger kept_value(units[u].1[k], fye, this_year, year, qtr)]
        0 <= u < units.len() && 0 <= k < units[u].1.len() && kept_value(
            units[u].1[k],
            fye,
            this_year,
            year,
            qtr,
        ) implies stands_for(out, metric, units[u].1[k], period_label(year, qtr)) by {
        let e = units[u].1[k];
        let q = lemma_entry_place(units, u, k);
        lemma_fact_of(metric, units[u].0, e, fye, this_year, year, qtr);
        law_latest_restatement_wins(metric, entries, fye, this_year, q);
        let f = fact_of(metric, entries[q].0, entries[q].1, fye, this_year)->0;
        let p = choose|p: int|
            0 <= p < pinned.len() && (#[trigger] pinned[p]).period == f.period && !lex_less(
                or_empty(pinned[p].filed_at),
                or_empty(f.filed_at),
            );
        let at = lemma_row_in_table(table, facts, fye, this_year, row, p);
        law_series_facts_are_reported(metric, entries, fye, this_year, p);
        let s = choose|s: int|
            0 <= s < entries.len() && fact_of(
                metric,
                (#[trigger] entries[s]).0,
                entries[s].1,
                fye,
                this_year,
            ) == Some(pinned[p]);
        lemma_fact_of(metric, entries[s].0, entries[s].1, fye, this_year, 0, None);
        assert(out[at].metric == metric && out[at].period == period_label(year, qtr));
    }
    c
}

/// A metric of which some concept reports a clean recent value has facts.
pub proof fn law_reported_metric_has_facts<V>(
    facts: Reported<V>,
    this_year: int,
    metric: Seq<char>,
    c: int,
    u: int,
    k: int,
    year: int,
    qtr: Option<int>,
) -> (j: int)
    requires
        0 <= c < facts.len(),
        reports(metric, facts[c].0),
        forall|a: int| 0 <= a < c ==> (#[trigger] facts[a]).0 != facts[c].0,
        0 <= u < facts[c].1.len(),
        0 <= k < facts[c].1[u].1.len(),
        kept_value(
            facts[c].1[u].1[k],
            fiscal_month(company_entries(facts)),
            this_year,
            year,
            qtr,
        ),
    ensures
        0 <= j < selected_facts(facts, this_year).len(),
        selected_facts(facts, this_year)[j].metric == metric,
{
    let fye = fiscal_month(company_entries(facts));
    let table = metric_table();
    let (row, i) = lemma_reports_listed(metric, facts[c].0);
    let names = table[row].1;
    let units = facts[c].1;
    let entries = concept_entries(units);
    lemma_first_named(facts, c);
    let q = lemma_entry_place(units, u, k);
    lemma_fact_of(metric, units[u].0, units[u].1[k], fye, this_year, year, qtr);
    law_latest_restatement_wins(metric, entries, fye, this_year, q);
    assert(named_series(metric, facts, names[i], fye, this_year) == series_of(
        metric,
        entries,
        fye,
        this_year,
    ));
    law_no_concept_outreaches_the_pinned(
        metric,
        names,
        names.len() as int,
        facts,
        fye,
        this_year,
        i,
    );
    let j = lemma_row_in_table(table, facts, fye, this_year, row, 0);
    law_retention(metric, names, facts, fye, this_year, 0);
    j
}

proof fn lemma_reports_listed(metric: Seq<char>, concept: Seq<char>) -> (at: (int, int))
    requires
        reports(metric, concept),
    ensures
        0 <= at.0 < metric_table().len(),
        metric_table()[at.0].0 == metric,
        0 <= at.1 < metric_table()[at.0].1.len(),
        metric_table()[at.0].1[at.1] == concept,
{
    let t = metric_table();
    lemma_table_rows(metric, concept);
    let row = choose|row: int|
        0 <= row < t.len() && #[trigger] names_concept(t, row, metric, concept);
    let i = choose|i: int| 0 <= i < t[row].1.len() && t[row].1[i] == concept;
    (row, i)
}

spec fn names_concept(
    table: Seq<(Seq<char>, Seq<Seq<char>>)>,
    row: int,
    metric: Seq<char>,
    concept: Seq<char>,
) -> bool {
    table[row].0 == metric && table[row].1.contains(concept)
}

proof fn lemma_table_rows(metric: Seq<char>, concept: Seq<char>)
    requires
        reports(metric, concept),
    ensures
        exists|row: int|
            0 <= row < metric_table().len() && #[trigger] names_concept(
                metric_table(),
                row,
                metric,
                concept,
            ),
{
    let t = metric_table();
    assert(forall|row: int, i: int|
        0 <= row < t.len() && 0 <= i < t[row].1.len() && t[row].0 == metric && (
        #[trigger] t[row].1[i]) == concept ==> names_concept(t, row, metric, concept));
    assert(t[0].0 == "revenue"@ && t[0].1[0]
        == "RevenueFromContractWithCustomerExcludingAssessedTax"@ && t[0].1[1] == "Revenues"@
        && t[0].1[2] == "RevenueFromContractWithCustomerIncludingAssessedTax"@ && t[0].1[3]
        == "SalesRevenueNet"@);
    assert(t[1].0 == "net_income"@ && t[1].1[0] == "NetIncomeLoss"@ && t[1].1[1] == "ProfitLoss"@);
    assert(t[2].0 == "eps_diluted"@ && t[2].1[0] == "EarningsPerShareDiluted"@ && t[2].1[1]
        == "EarningsPerShareBasicAndDiluted"@);
    assert(t[3].0 == "shares_diluted"@ && t[3].1[0]
        == "WeightedAverageNumberOfDilutedSharesOutstanding"@);
    assert(t[4].0 == "dividends_per_share"@ && t[4].1[0]
        == "CommonStockDividendsPerShareDeclared"@ && t[4].1[1]
        == "CommonStockDividendsPerShareCashPaid"@);
    assert(t[5].0 == "assets"@ && t[5].1[0] == "Assets"@);
    assert(t[6].0 == "liabilities"@ && t[6].1[0] == "Liabilities"@);
    assert(t[7].0 == "equity"@ && t[7].1[0] == "StockholdersEquity"@ && t[7].1[1]
        == "StockholdersEquityIncludingPortionAttributableToNoncontrollingInterest"@);
    assert(t[8].0 == "assets_current"@ && t[8].1[0] == "AssetsCurrent"@);
    assert(t[9].0 == "liabilities_current"@ && t[9].1[0] == "LiabilitiesCurrent"@);
}

/// `a` is preferred to `b` where both report a metric as far forward and as fully.
pub open spec fn preferred_to(a: Seq<char>, b: Seq<char>) -> bool {
    ||| a == "RevenueFromContractWithCustomerExcludingAssessedTax"@ && (b == "Revenues"@ || b
        == "RevenueFromContractWithCustomerIncludingAssessedTax"@ || b == "SalesRevenueNet"@)
    ||| a == "Revenues"@ && (b == "RevenueFromContractWithCustomerIncludingAssessedTax"@ || b
        == "SalesRevenueNet"@)
    ||| a == "RevenueFromContractWithCustomerIncludingAssessedTax"@ && b == "SalesRevenueNet"@
    ||| a == "NetIncomeLoss"@ && b == "ProfitLoss"@
    ||| a == "EarningsPerShareDiluted"@ && b == "EarningsPerShareBasicAndDiluted"@
    ||| a == "CommonStockDividendsPerShareDeclared"@ && b
        == "CommonStockDividendsPerShareCashPaid"@
    ||| a == "StockholdersEquity"@ && b
        == "StockholdersEquityIncludingPortionAttributableToNoncontrollingInterest"@
}

/// The concepts of a metric are listed in order of preference.
pub proof fn law_listed_by_preference(row: int, i: int, k: int)
    requires
        0 <= row < metric_table().len(),
        0 <= i < k < metric_table()[row].1.len(),
    ensures
        preferred_to(metric_table()[row].1[i], metric_table()[row].1[k]),
{
}

proof fn lemma_first_named<V>(facts: Reported<V>, c: int)
    requires
        0 <= c < facts.len(),
        forall|a: int| 0 <= a < c ==> (#[trigger] facts[a]).0 != facts[c].0,
    ensures
        concept_named(facts, facts[c].0) == Some(facts[c].1),
    decreases c,
{
    if c > 0 {
        let rest = facts.drop_first();
        assert(facts[0].0 != facts[c].0);
        assert forall|a: int| 0 <= a < c - 1 implies (#[trigger] rest[a]).0 != rest[c - 1].0 by {
            assert(rest[a] == facts[a + 1]);
        }
        lemma_first_named(rest, c - 1);
    }
}

/// Of the concepts that report a metric, the pinned one reaches furthest forward;
/// of those that reach as far it covers the most periods; and of those that cover
/// as many it is the first listed.
pub proof fn law_preferred_concept<V>(
    metric: Seq<char>,
    concepts: Seq<Seq<char>>,
    facts: Reported<V>,
    fye: int,
    this_year: int,
    upto: int,
) -> (p: int)
    requires
        0 <= upto <= concepts.len(),
        exists|k: int|
            0 <= k < upto && named_series(
                metric,
                facts,
                #[trigger] concepts[k],
                fye,
                this_year,
            ).len() > 0,
    ensures
        0 <= p < upto,
        pinned_series(metric, concepts, upto, facts, fye, this_year) == named_series(
            metric,
            facts,
            concepts[p],
            fye,
            this_year,
        ),
        forall|k: int|
            0 <= k < upto && named_series(
                metric,
                facts,
                #[trigger] concepts[k],
                fye,
                this_year,
            ).len() > 0 && k != p ==> ({
                let a = named_series(metric, facts, concepts[p], fye, this_year);
                let b = named_series(metric, facts, concepts[k], fye, this_year);
                ||| lex_less(newest(b), newest(a))
                ||| newest(b) == newest(a) && b.len() < a.len()
                ||| newest(b) == newest(a) && b.len() == a.len() && p < k
            }),
        named_series(metric, facts, concepts[p], fye, this_year).len() > 0,
    decreases upto,
{
    let n = upto - 1;
    let best = pinned_series(metric, concepts, n, facts, fye, this_year);
    let next = named_series(metric, facts, concepts[n], fye, this_year);
    if exists|k: int|
        0 <= k < n && named_series(metric, facts, #[trigger] concepts[k], fye, this_year).len()
            > 0 {
        let p = law_preferred_concept(metric, concepts, facts, fye, this_year, n);
        lemma_lex_total(newest(best), newest(next));
        if next.len() > 0 && (lex_less(newest(best), newest(next)) || (newest(best) == newest(next)
            && best.len() < next.len())) {
            assert forall|k: int|
                0 <= k < upto && named_series(
                    metric,
                    facts,
                    #[trigger] concepts[k],
                    fye,
                    this_year,
                ).len() > 0 && k != n implies ({
                let b = named_series(metric, facts, concepts[k], fye, this_year);
                ||| lex_less(newest(b), newest(next))
                ||| newest(b) == newest(next) && b.len() < next.len()
            }) by {
                let b = named_series(metric, facts, concepts[k], fye, this_year);
                if k != p && lex_less(newest(b), newest(best)) && lex_less(
                    newest(best),
                    newest(next),
                ) {
                    lemma_lex_transitive(newest(b), newest(best), newest(next));
                }
            }
            n
        } else {
            p
        }
    } else {
        lemma_none_pinned(metric, concepts, facts, fye, this_year, n);
        n
    }
}

proof fn lemma_none_pinned<V>(
    metric: Seq<char>,
    concepts: Seq<Seq<char>>,
    facts: Reported<V>,
    fye: int,
    this_year: int,
    upto: int,
)
    requires
        0 <= upto <= concepts.len(),
        forall|k: int|
            0 <= k < upto ==> named_series(
                metric,
                facts,
                #[trigger] concepts[k],
                fye,
                this_year,
            ).len() == 0,
    ensures
        pinned_series(metric, concepts, upto, facts, fye, this_year).len() == 0,
    decreases upto,
{
    if upto > 0 {
        lemma_none_pinned(metric, concepts, facts, fye, this_year, upto - 1);
        assert(named_series(metric, facts, concepts[upto - 1], fye, this_year).len() == 0);
    }
}

// ── total assets ───────────────────────────────────────────────────────────

/// The latest total assets are a value that was reported under `Assets`: no other
/// one ends later, nor ends with it and was filed later. There are none exactly
/// where nothing was reported under that name.
pub proof fn law_latest_assets<V>(facts: Reported<V>, c: int)
    requires
        0 <= c < facts.len(),
        facts[c].0 == "Assets"@,
        forall|a: int| 0 <= a < c ==> (#[trigger] facts[a]).0 != "Assets"@,
    ensures
        latest_total_assets(facts) matches Some(v) ==> exists|u: int, k: int|
            0 <= u < facts[c].1.len() && 0 <= k < facts[c].1[u].1.len() && (
            #[trigger] facts[c].1[u].1[k]).val == v && is_latest(facts[c].1, facts[c].1[u].1[k]),
        latest_total_assets(facts) is None ==> forall|u: int|
            0 <= u < facts[c].1.len() ==> (#[trigger] facts[c].1[u]).1.len() == 0,
{
    lemma_first_named(facts, c);
    let units = facts[c].1;
    let entries = concept_entries(units);
    match newest_entry(entries) {
        Some(e) => {
            let i = lemma_newest_is_one(entries);
            let (u, k) = lemma_concept_entry(units, i);
            assert(units[u].1[k] == e);
            assert forall|u2: int, k2: int|
                0 <= u2 < units.len() && 0 <= k2 < units[u2].1.len() implies ({
                let x = #[trigger] units[u2].1[k2];
                !lex_less(e.end, x.end) && !(x.end == e.end && lex_less(
                    or_empty(e.filed),
                    or_empty(x.filed),
                ))
            }) by {
                let j = lemma_entry_place(units, u2, k2);
                law_newest_entry(entries, j);
            }
            assert(is_latest(units, e));
        },
        None => {
            assert forall|u: int| 0 <= u < units.len() implies (#[trigger] units[u]).1.len() == 0 by {
                if units[u].1.len() > 0 {
                    let j = lemma_entry_place(units, u, 0);
                    law_newest_entry(entries, j);
                }
            }
        },
    }
}

/// No value ends later, nor ends with it and was filed later.
pub open spec fn is_latest<V>(
    units: Seq<(Seq<char>, Seq<EntryView<V>>)>,
    e: EntryView<V>,
) -> bool {
    forall|u: int, k: int|
        0 <= u < units.len() && 0 <= k < units[u].1.len() ==> ({
            let x = #[trigger] units[u].1[k];
            !lex_less(e.end, x.end) && !(x.end == e.end && lex_less(
                or_empty(e.filed),
                or_empty(x.filed),
            ))
        })
}

proof fn lemma_newest_is_one<V>(entries: Seq<(Seq<char>, EntryView<V>)>) -> (i: int)
    requires
        newest_entry(entries) is Some,
    ensures
        0 <= i < entries.len(),
        newest_entry(entries) == Some(entries[i].1),
    decreases entries.len(),
{
    let n = entries.len() - 1;
    if newest_entry(entries) == Some(entries[n].1) {
        n
    } else {
        lemma_newest_is_one(entries.drop_last())
    }
}

/// `b` ends before `e`, or ends with it and was filed before it.
pub open spec fn comes_before<V>(b: EntryView<V>, e: EntryView<V>) -> bool {
    lex_less(b.end, e.end) || (b.end == e.end && lex_less(or_empty(b.filed), or_empty(e.filed)))
}

proof fn lemma_comes_before<V>(x: EntryView<V>, b: EntryView<V>, e: EntryView<V>)
    requires
        !comes_before(b, x),
        comes_before(b, e),
    ensures
        comes_before(x, e),
{
    lemma_lex_total(x.end, b.end);
    lemma_lex_total(or_empty(x.filed), or_empty(b.filed));
    if lex_less(x.end, b.end) && lex_less(b.end, e.end) {
        lemma_lex_transitive(x.end, b.end, e.end);
    }
    if lex_less(or_empty(x.filed), or_empty(b.filed)) && lex_less(
        or_empty(b.filed),
        or_empty(e.filed),
    ) {
        lemma_lex_transitive(or_empty(x.filed), or_empty(b.filed), or_empty(e.filed));
    }
}

/// Of several values that end and were filed together, the first counts: every
/// value listed before the newest one comes before it, and no value listed behind
/// it comes after it.
pub proof fn law_first_of_the_newest<V>(entries: Seq<(Seq<char>, EntryView<V>)>) -> (i: int)
    requires
        entries.len() > 0,
    ensures
        0 <= i < entries.len(),
        newest_entry(entries) == Some(entries[i].1),
        forall|m: int|
            0 <= m < i ==> comes_before((#[trigger] entries[m]).1, entries[i].1),
        forall|m: int|
            i < m < entries.len() ==> !comes_before(entries[i].1, (#[trigger] entries[m]).1),
    decreases entries.len(),
{
    let n = entries.len() - 1;
    let rest = entries.drop_last();
    let e = entries[n].1;
    if rest.len() == 0 {
        0
    } else {
        let k = law_first_of_the_newest(rest);
        let b = rest[k].1;
        if comes_before(b, e) {
            assert forall|m: int| 0 <= m < n implies comes_before(
                (#[trigger] entries[m]).1,
                e,
            ) by {
                law_newest_entry(rest, m);
                assert(rest[m] == entries[m]);
                lemma_comes_before(entries[m].1, b, e);
            }
            n
        } else {
            assert forall|m: int| 0 <= m < k implies comes_before(
                (#[trigger] entries[m]).1,
                entries[k].1,
            ) by {
                assert(rest[m] == entries[m]);
            }
            assert forall|m: int| k < m < entries.len() implies !comes_before(
                entries[k].1,
                (#[trigger] entries[m]).1,
            ) by {
                if m < n {
                    assert(rest[m] == entries[m]);
                }
            }
            k
        }
    }
}

/// Every quarter that is kept is a reported value of 80 to 100 days, and every full
/// year one of 330 to 400 days or a snapshot; so no value between or beyond these
/// spans is ever among the facts.
pub proof fn law_kept_spans<V>(facts: Reported<V>, this_year: int, j: int)
    requires
        0 <= j < selected_facts(facts, this_year).len(),
    ensures
        exists|c: int, u: int, k: int|
            0 <= c < facts.len() && 0 <= u < facts[c].1.len() && 0 <= k < facts[c].1[u].1.len() && {
                let f = selected_facts(facts, this_year)[j];
                let e = #[trigger] facts[c].1[u].1[k];
                &&& f.value == e.val
                &&& f.period_end == e.end
                &&& (f.fiscal_qtr is Some ==> spans(e, 80, 100))
                &&& (f.fiscal_qtr is None ==> e.start is None || spans(e, 330, 400))
            },
{
    let c = law_facts_of_a_metric(facts, this_year, j);
    let f = selected_facts(facts, this_year)[j];
    let fye = fiscal_month(company_entries(facts));
    assert(is_reported(f, facts[c], fye, this_year));
    let concept = facts[c];
    let (u, k) = choose|u: int, k: int|
        0 <= u < concept.1.len() && 0 <= k < concept.1[u].1.len() && is_fact_of(
            f,
            concept.1[u].0,
            #[trigger] concept.1[u].1[k],
            fye,
            this_year,
        );
    assert(facts[c].1[u].1[k] == concept.1[u].1[k]);
}

/// All that a company has reported is looked at: each concept adds the values of its
/// units, one behind the other and each with its unit.
pub proof fn law_every_value_counts<V>(
    facts: Reported<V>,
    concept: (Seq<char>, Seq<(Seq<char>, Seq<EntryView<V>>)>),
    unit: (Seq<char>, Seq<EntryView<V>>),
    e: EntryView<V>,
)
    ensures
        company_entries(facts.push((concept.0, Seq::empty()))) == company_entries(facts),
        company_entries(facts.push(concept)) == company_entries(facts) + concept_entries(concept.1),
        concept_entries(concept.1.push((unit.0, Seq::empty()))) == concept_entries(concept.1),
        concept_entries(concept.1.push((unit.0, unit.1.push(e)))) == concept_entries(
            concept.1.push(unit),
        ).push((unit.0, e)),
{
    let none: Seq<(Seq<char>, Seq<EntryView<V>>)> = Seq::empty();
    assert(facts.push((concept.0, none)).drop_last() =~= facts);
    assert(facts.push(concept).drop_last() =~= facts);
    assert(concept_entries(none) =~= Seq::<(Seq<char>, EntryView<V>)>::empty());
    assert(company_entries(facts.push((concept.0, none))) =~= company_entries(facts));
    let values: Seq<EntryView<V>> = Seq::empty();
    assert(concept.1.push((unit.0, values)).drop_last() =~= concept.1);
    assert(concept.1.push(unit).drop_last() =~= concept.1);
    assert(concept.1.push((unit.0, unit.1.push(e))).drop_last() =~= concept.1);
    assert(concept_entries(concept.1.push((unit.0, values))) =~= concept_entries(concept.1));
    assert(concept_entries(concept.1.push((unit.0, unit.1.push(e)))) =~= concept_entries(
        concept.1.push(unit),
    ).push((unit.0, e)));
}

} // verus!
