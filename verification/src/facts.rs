//! Company fundamentals: the XBRL facts a company has reported, brought to one
//! clean series per metric.
//!
//! A company reports the same metric under different us-gaap concepts across
//! accounting eras, and each value carries year-to-date and discrete-period
//! durations. [`select_facts`] keeps the clean full-year and discrete-quarter
//! figures of one concept per metric. The reported value itself is carried
//! through untouched, so its type `V` is left open.
use vstd::prelude::*;

use crate::calendar::{
    date_parts, day_number, days_between, named_day, parse_date, read_date, writes_iso, Date,
};
use crate::numbers::{decimal, decimal_text};
use crate::text::{begins, less, lex_less, same, starts_with};

verus! {

/// One reported value of a concept. `start` is present only for duration facts
/// (income-statement items); instantaneous facts (balance-sheet items) carry
/// only `end`. The filing's own fiscal year is not held: a prior year shown as
/// a comparative carries the later filing's, so the fiscal year comes from `end`.
pub struct UnitEntry<V> {
    pub start: Option<String>,
    pub end: String,
    pub val: V,
    /// Fiscal period: `FY`, `Q1`, `Q2`, `Q3` (`Q4` appears rarely).
    pub fp: Option<String>,
    pub form: Option<String>,
    pub filed: Option<String>,
}

/// The values of one concept, by XBRL unit (`USD`, `USD/shares`, `shares`, ...).
pub struct Concept<V> {
    pub units: Vec<(String, Vec<UnitEntry<V>>)>,
}

/// The us-gaap concepts a company has reported, by name.
pub struct CompanyFacts<V> {
    pub us_gaap: Vec<(String, Concept<V>)>,
}

/// One normalised figure.
pub struct Fact<V> {
    pub metric: String,
    /// `FY2024` or `Q1-2024`.
    pub period: String,
    pub fiscal_year: i64,
    pub fiscal_qtr: Option<i64>,
    pub period_end: String,
    pub value: V,
    pub unit: Option<String>,
    pub form: Option<String>,
    pub filed_at: Option<String>,
}

/// The meaning of a [`UnitEntry`].
pub struct EntryView<V> {
    pub start: Option<Seq<char>>,
    pub end: Seq<char>,
    pub val: V,
    pub fp: Option<Seq<char>>,
    pub form: Option<Seq<char>>,
    pub filed: Option<Seq<char>>,
}

/// The meaning of a [`Fact`].
pub struct FactView<V> {
    pub metric: Seq<char>,
    pub period: Seq<char>,
    pub fiscal_year: int,
    pub fiscal_qtr: Option<int>,
    pub period_end: Seq<char>,
    pub value: V,
    pub unit: Option<Seq<char>>,
    pub form: Option<Seq<char>>,
    pub filed_at: Option<Seq<char>>,
}

pub open spec fn text_view(o: Option<String>) -> Option<Seq<char>> {
    match o {
        Some(s) => Some(s@),
        None => None,
    }
}

pub open spec fn int_view(o: Option<i64>) -> Option<int> {
    match o {
        Some(n) => Some(n as int),
        None => None,
    }
}

impl<V> View for UnitEntry<V> {
    type V = EntryView<V>;

    open spec fn view(&self) -> EntryView<V> {
        EntryView {
            start: text_view(self.start),
            end: self.end@,
            val: self.val,
            fp: text_view(self.fp),
            form: text_view(self.form),
            filed: text_view(self.filed),
        }
    }
}

impl<V> View for Fact<V> {
    type V = FactView<V>;

    open spec fn view(&self) -> FactView<V> {
        FactView {
            metric: self.metric@,
            period: self.period@,
            fiscal_year: self.fiscal_year as int,
            fiscal_qtr: int_view(self.fiscal_qtr),
            period_end: self.period_end@,
            value: self.value,
            unit: text_view(self.unit),
            form: text_view(self.form),
            filed_at: text_view(self.filed_at),
        }
    }
}

pub open spec fn unit_view<V>(u: (String, Vec<UnitEntry<V>>)) -> (Seq<char>, Seq<EntryView<V>>) {
    (u.0@, u.1@.map_values(|e: UnitEntry<V>| e@))
}

impl<V> View for Concept<V> {
    type V = Seq<(Seq<char>, Seq<EntryView<V>>)>;

    open spec fn view(&self) -> Seq<(Seq<char>, Seq<EntryView<V>>)> {
        self.units@.map_values(|u: (String, Vec<UnitEntry<V>>)| unit_view(u))
    }
}

pub open spec fn concept_view<V>(c: (String, Concept<V>)) -> (
    Seq<char>,
    Seq<(Seq<char>, Seq<EntryView<V>>)>,
) {
    (c.0@, c.1@)
}

impl<V> View for CompanyFacts<V> {
    type V = Seq<(Seq<char>, Seq<(Seq<char>, Seq<EntryView<V>>)>)>;

    open spec fn view(&self) -> Seq<(Seq<char>, Seq<(Seq<char>, Seq<EntryView<V>>)>)> {
        self.us_gaap@.map_values(|c: (String, Concept<V>)| concept_view(c))
    }
}

/// The text, or nothing where there is none.
pub open spec fn or_empty(o: Option<Seq<char>>) -> Seq<char> {
    match o {
        Some(s) => s,
        None => Seq::empty(),
    }
}

fn text_or_empty<'a>(o: &'a Option<String>) -> (r: &'a str)
    ensures
        r@ == or_empty(text_view(*o)),
{
    match o {
        Some(s) => s.as_str(),
        None => {
            proof {
                reveal_strlit("");
                assert(""@ =~= Seq::<char>::empty());
            }
            ""
        },
    }
}

fn copy_text(o: &Option<String>) -> (r: Option<String>)
    ensures
        text_view(r) == text_view(*o),
{
    match o {
        Some(s) => Some(s.clone()),
        None => None,
    }
}

// ── fiscal periods ─────────────────────────────────────────────────────────

/// `Q3` is quarter 3; `None` for anything that is not a `Q1`..`Q4` label.
pub open spec fn quarter_of(fp: Seq<char>) -> Option<int> {
    if fp == "Q1"@ {
        Some(1)
    } else if fp == "Q2"@ {
        Some(2)
    } else if fp == "Q3"@ {
        Some(3)
    } else if fp == "Q4"@ {
        Some(4)
    } else {
        None
    }
}

/// `Q3` -> `3`. `None` for anything that is not a `Q1`..`Q4` label.
pub fn quarter_num(fp: &str) -> (r: Option<i64>)
    ensures
        int_view(r) == quarter_of(fp@),
{
    if same(fp, "Q1") {
        Some(1)
    } else if same(fp, "Q2") {
        Some(2)
    } else if same(fp, "Q3") {
        Some(3)
    } else if same(fp, "Q4") {
        Some(4)
    } else {
        None
    }
}

/// The fiscal year of a period that ends in `year`-`month`, where fiscal years
/// end in month `fye_month`.
pub open spec fn fiscal_year(year: int, month: int, fye_month: int) -> int {
    if month > fye_month {
        year + 1
    } else {
        year
    }
}

/// The fiscal year a period ending on `end` belongs to, for a company whose
/// fiscal year ends in month `fye_month`. A period that ends after that month
/// falls in the next fiscal year.
pub fn fiscal_year_of(end: Date, fye_month: u32) -> (r: i64)
    ensures
        r == fiscal_year(end.year as int, end.month as int, fye_month as int),
{
    let y: i64 = end.year as i64;
    if end.month > fye_month {
        y + 1
    } else {
        y
    }
}

/// The label of a full fiscal year.
pub open spec fn year_label(year: int) -> Seq<char> {
    "FY"@ + decimal(year)
}

/// The label of a fiscal quarter.
pub open spec fn quarter_label(quarter: int, year: int) -> Seq<char> {
    "Q"@ + decimal(quarter) + "-"@ + decimal(year)
}

/// The forms of annual reports; a fact without a form counts too.
pub open spec fn is_annual_form(form: Seq<char>) -> bool {
    form.len() == 0 || begins(form, "10-K"@) || begins(form, "20-F"@) || begins(form, "40-F"@)
}

/// The period that a figure cleanly represents: `(label, fiscal year, fiscal
/// quarter)`. A duration of about a year is a fiscal year where its period is
/// `FY`; a duration of about a quarter is the quarter its period names; a
/// snapshot is kept at the fiscal year end, from an annual report. Anything else
/// is dropped.
pub open spec fn period_of(
    end: (int, int, int),
    start: Option<(int, int, int)>,
    fp: Seq<char>,
    form: Seq<char>,
    fye_month: int,
) -> Option<(Seq<char>, int, Option<int>)> {
    let year = fiscal_year(end.0, end.1, fye_month);
    match start {
        Some(s) => {
            let days = day_number(end.0, end.1, end.2) - day_number(s.0, s.1, s.2);
            if 330 <= days <= 400 && fp == "FY"@ {
                Some((year_label(year), year, None))
            } else if 80 <= days <= 100 {
                match quarter_of(fp) {
                    Some(q) => Some((quarter_label(q, year), year, Some(q))),
                    None => None,
                }
            } else {
                None
            }
        },
        None => if fp == "FY"@ && is_annual_form(form) {
            Some((year_label(year), year, None))
        } else {
            None
        },
    }
}

/// The period of a reported value whose texts read as these dates; a text that
/// reads as none drops the value.
pub open spec fn classified_by<V>(
    e: EntryView<V>,
    end: Option<(int, int, int)>,
    start: Option<(int, int, int)>,
    fye_month: int,
) -> Option<(Seq<char>, int, Option<int>)> {
    match end {
        None => None,
        Some(end) => if e.start is Some && start is None {
            None
        } else {
            period_of(
                end,
                if e.start is Some {
                    start
                } else {
                    None
                },
                or_empty(e.fp),
                or_empty(e.form),
                fye_month,
            )
        },
    }
}

/// The period of a reported value, by the dates its texts read as.
pub open spec fn classified<V>(e: EntryView<V>, fye_month: int) -> Option<
    (Seq<char>, int, Option<int>),
> {
    classified_by(
        e,
        read_date(e.end),
        match e.start {
            Some(s) => read_date(s),
            None => None,
        },
        fye_month,
    )
}

pub open spec fn period_view(p: Option<(String, i64, Option<i64>)>) -> Option<
    (Seq<char>, int, Option<int>),
> {
    match p {
        Some((label, year, quarter)) => Some((label@, year as int, int_view(quarter))),
        None => None,
    }
}

fn year_period(year: i64) -> (r: (String, i64, Option<i64>))
    ensures
        r.0@ == year_label(year as int),
        r.1 == year,
        r.2 == None::<i64>,
{
    let mut label = "FY".to_owned();
    label.append(decimal_text(year).as_str());
    (label, year, None)
}

/// The period of a figure whose dates are known.
pub fn classify_dated(
    end: Date,
    start: Option<Date>,
    fp: &str,
    form: &str,
    fye_month: u32,
) -> (r: Option<(String, i64, Option<i64>)>)
    requires
        end.wf(),
        start matches Some(s) ==> s.wf(),
    ensures
        period_view(r) == period_of(
            date_parts(Some(end))->0,
            date_parts(start),
            fp@,
            form@,
            fye_month as int,
        ),
{
    let year: i64 = fiscal_year_of(end, fye_month);
    match start {
        Some(s) => {
            let days: i64 = days_between(s, end);
            if 330 <= days && days <= 400 && same(fp, "FY") {
                Some(year_period(year))
            } else if 80 <= days && days <= 100 {
                match quarter_num(fp) {
                    Some(q) => {
                        let mut label = "Q".to_owned();
                        label.append(decimal_text(q).as_str());
                        label.append("-");
                        label.append(decimal_text(year).as_str());
                        Some((label, year, Some(q)))
                    },
                    None => None,
                }
            } else {
                None
            }
        },
        None => {
            let annual = form.is_empty() || starts_with(form, "10-K") || starts_with(form, "20-F")
                || starts_with(form, "40-F");
            if same(fp, "FY") && annual {
                Some(year_period(year))
            } else {
                None
            }
        },
    }
}

/// Classifies one XBRL value into the fiscal period it cleanly represents, or
/// `None` to drop it. Returns `(period label, fiscal year, fiscal quarter)`.
pub fn classify<V>(e: &UnitEntry<V>, fye_month: u32) -> (r: Option<(String, i64, Option<i64>)>)
    ensures
        period_view(r) == classified(e@, fye_month as int),
        // Dates in ISO notation read as the days they name.
        forall|y: int, m: int, d: int, u: int, v: int, w: int|
            #![trigger writes_iso(e@.end, y, m, d), named_day(u, v, w)]
            writes_iso(e@.end, y, m, d) && (e@.start matches Some(s) ==> writes_iso(s, u, v, w))
                ==> period_view(r) == classified_by(
                e@,
                named_day(y, m, d),
                named_day(u, v, w),
                fye_month as int,
            ),
{
    let end = match parse_date(e.end.as_str()) {
        Some(d) => d,
        None => {
            return None;
        },
    };
    let start = match &e.start {
        Some(s) => match parse_date(s.as_str()) {
            Some(d) => Some(d),
            None => {
                return None;
            },
        },
        None => None,
    };
    classify_dated(end, start, text_or_empty(&e.fp), text_or_empty(&e.form), fye_month)
}

// ── the fiscal year end ────────────────────────────────────────────────────

/// A unit's values, each with the unit.
pub open spec fn unit_entries<V>(unit: Seq<char>, entries: Seq<EntryView<V>>) -> Seq<
    (Seq<char>, EntryView<V>),
> {
    entries.map_values(|e: EntryView<V>| (unit, e))
}

/// All values of a concept, each with its unit.
pub open spec fn concept_entries<V>(units: Seq<(Seq<char>, Seq<EntryView<V>>)>) -> Seq<
    (Seq<char>, EntryView<V>),
>
    decreases units.len(),
{
    if units.len() == 0 {
        Seq::empty()
    } else {
        concept_entries(units.drop_last()) + unit_entries(units.last().0, units.last().1)
    }
}

/// All values of a company, each with its unit.
pub open spec fn company_entries<V>(
    facts: Seq<(Seq<char>, Seq<(Seq<char>, Seq<EntryView<V>>)>)>,
) -> Seq<(Seq<char>, EntryView<V>)>
    decreases facts.len(),
{
    if facts.len() == 0 {
        Seq::empty()
    } else {
        company_entries(facts.drop_last()) + concept_entries(facts.last().1)
    }
}

pub open spec fn pair_view<V>(p: (&String, &UnitEntry<V>)) -> (Seq<char>, EntryView<V>) {
    (p.0@, p.1@)
}

pub open spec fn pairs_view<V>(v: Seq<(&String, &UnitEntry<V>)>) -> Seq<
    (Seq<char>, EntryView<V>),
> {
    v.map_values(|p: (&String, &UnitEntry<V>)| pair_view(p))
}

/// Appends all values of a concept, each with its unit.
fn push_entries<'a, V>(concept: &'a Concept<V>, out: &mut Vec<(&'a String, &'a UnitEntry<V>)>)
    ensures
        pairs_view(final(out)@) == pairs_view(old(out)@) + concept_entries(concept@),
{
    let ghost before = pairs_view(out@);
    let mut i: usize = 0;
    assert(concept@.take(0) =~= Seq::<(Seq<char>, Seq<EntryView<V>>)>::empty());
    assert(pairs_view(out@) =~= before + concept_entries(concept@.take(0)));
    while i < concept.units.len()
        invariant
            i <= concept.units@.len(),
            concept@.len() == concept.units@.len(),
            pairs_view(out@) == before + concept_entries(concept@.take(i as int)),
        decreases concept.units.len() - i,
    {
        let unit = &concept.units[i].0;
        let entries = &concept.units[i].1;
        let ghost done = pairs_view(out@);
        let ghost views = entries@.map_values(|e: UnitEntry<V>| e@);
        assert(concept@[i as int] == (unit@, views));
        let mut j: usize = 0;
        assert(pairs_view(out@) =~= done + unit_entries(unit@, views).take(0));
        while j < entries.len()
            invariant
                j <= entries@.len(),
                views == entries@.map_values(|e: UnitEntry<V>| e@),
                pairs_view(out@) == done + unit_entries(unit@, views).take(j as int),
            decreases entries.len() - j,
        {
            let ghost now = out@;
            out.push((unit, &entries[j]));
            proof {
                let ue = unit_entries(unit@, views);
                assert(pairs_view(out@) =~= pairs_view(now).push((unit@, entries@[j as int]@)));
                assert(ue.take(j + 1) =~= ue.take(j as int).push((unit@, entries@[j as int]@)));
                assert((done + ue.take(j as int)).push((unit@, entries@[j as int]@)) =~= done
                    + ue.take(j + 1));
            }
            j += 1;
        }
        proof {
            let ue = unit_entries(unit@, views);
            assert(ue.take(ue.len() as int) =~= ue);
            assert(concept@.take(i + 1).drop_last() =~= concept@.take(i as int));
            assert(before + concept_entries(concept@.take(i as int)) + ue =~= before
                + concept_entries(concept@.take(i + 1)));
        }
        i += 1;
    }
    assert(concept@.take(concept@.len() as int) =~= concept@);
}

/// The month in which a full fiscal year ends, where the value spans one.
pub open spec fn year_end_month<V>(e: EntryView<V>) -> Option<int> {
    match (e.fp, e.start, read_date(e.end)) {
        (Some(fp), Some(s), Some(end)) => match read_date(s) {
            Some(start) => {
                let days = day_number(end.0, end.1, end.2) - day_number(start.0, start.1, start.2);
                if fp == "FY"@ && 330 <= days <= 400 {
                    Some(end.1)
                } else {
                    None
                }
            },
            None => None,
        },
        _ => None,
    }
}

/// How many values end a fiscal year in `month`.
pub open spec fn month_votes<V>(entries: Seq<(Seq<char>, EntryView<V>)>, month: int) -> nat
    decreases entries.len(),
{
    if entries.len() == 0 {
        0
    } else {
        month_votes(entries.drop_last(), month) + (if year_end_month(entries.last().1) == Some(
            month,
        ) {
            1nat
        } else {
            0nat
        })
    }
}

/// The month up to `upto` with the most votes, the latest of several.
pub open spec fn leading_month<V>(entries: Seq<(Seq<char>, EntryView<V>)>, upto: int) -> int
    decreases upto,
{
    if upto <= 1 {
        1
    } else {
        let m = leading_month(entries, upto - 1);
        if month_votes(entries, upto) >= month_votes(entries, m) {
            upto
        } else {
            m
        }
    }
}

/// The month in which most of the fiscal years end; December where no value
/// spans a fiscal year.
pub open spec fn fiscal_month<V>(entries: Seq<(Seq<char>, EntryView<V>)>) -> int {
    let m = leading_month(entries, 12);
    if month_votes(entries, m) > 0 {
        m
    } else {
        12
    }
}

fn entry_year_end<V>(e: &UnitEntry<V>) -> (r: Option<u32>)
    ensures
        (match r {
            Some(m) => Some(m as int),
            None => None,
        }) == year_end_month(e@),
        r matches Some(m) ==> 1 <= m <= 12,
{
    match (&e.fp, &e.start) {
        (Some(fp), Some(s)) => {
            if !same(fp.as_str(), "FY") {
                return None;
            }
            match (parse_date(e.end.as_str()), parse_date(s.as_str())) {
                (Some(end), Some(start)) => {
                    let days: i64 = days_between(start, end);
                    if 330 <= days && days <= 400 {
                        Some(end.month)
                    } else {
                        None
                    }
                },
                _ => None,
            }
        },
        _ => None,
    }
}

/// The calendar month a company's fiscal year ends, taken as the most common
/// end month across its annual (full-year duration) facts. December, a calendar
/// fiscal year, when none can be determined.
pub fn fiscal_year_end_month<V>(body: &CompanyFacts<V>) -> (r: u32)
    ensures
        r == fiscal_month(company_entries(body@)),
        1 <= r <= 12,
{
    let mut all: Vec<(&String, &UnitEntry<V>)> = Vec::new();
    let mut i: usize = 0;
    assert(body@.take(0) =~= Seq::<(Seq<char>, Seq<(Seq<char>, Seq<EntryView<V>>)>)>::empty());
    assert(pairs_view(all@) =~= company_entries(body@.take(0)));
    while i < body.us_gaap.len()
        invariant
            i <= body.us_gaap@.len(),
            body@.len() == body.us_gaap@.len(),
            pairs_view(all@) == company_entries(body@.take(i as int)),
        decreases body.us_gaap.len() - i,
    {
        push_entries(&body.us_gaap[i].1, &mut all);
        assert(body@.take(i + 1).drop_last() =~= body@.take(i as int));
        assert(body@.take(i + 1).last() == concept_view(body.us_gaap@[i as int]));
        i += 1;
    }
    assert(body@.take(body@.len() as int) =~= body@);
    let ghost entries = company_entries(body@);

    let mut counts: Vec<usize> = vec![0, 0, 0, 0, 0, 0, 0, 0, 0, 0, 0, 0, 0];
    let mut k: usize = 0;
    while k < all.len()
        invariant
            k <= all@.len(),
            entries == pairs_view(all@),
            counts@.len() == 13,
            forall|m: int|
                1 <= m <= 12 ==> #[trigger] counts@[m] == month_votes(entries.take(k as int), m),
            forall|m: int| 1 <= m <= 12 ==> #[trigger] counts@[m] <= k,
        decreases all.len() - k,
    {
        let ghost before = counts@;
        match entry_year_end(all[k].1) {
            Some(m) => {
                let at: usize = m as usize;
                let c: usize = counts[at];
                counts.set(at, c + 1);
            },
            None => {},
        }
        proof {
            assert(entries.take(k + 1).drop_last() =~= entries.take(k as int));
            assert(entries[k as int] == pair_view(all@[k as int]));
            assert forall|m: int| 1 <= m <= 12 implies #[trigger] counts@[m] == month_votes(
                entries.take(k + 1),
                m,
            ) && counts@[m] <= k + 1 by {
                assert(before[m] == month_votes(entries.take(k as int), m));
            }
        }
        k += 1;
    }
    assert(entries.take(entries.len() as int) =~= entries);

    let mut best: usize = 1;
    let mut m: usize = 2;
    while m <= 12
        invariant
            2 <= m <= 13,
            1 <= best < m,
            counts@.len() == 13,
            forall|j: int| 1 <= j <= 12 ==> #[trigger] counts@[j] == month_votes(entries, j),
            best == leading_month(entries, m - 1),
        decreases 13 - m,
    {
        assert(counts@[m as int] == month_votes(entries, m as int));
        assert(counts@[best as int] == month_votes(entries, best as int));
        if counts[m] >= counts[best] {
            best = m;
        }
        m += 1;
    }
    assert(counts@[best as int] == month_votes(entries, best as int));
    if counts[best] > 0 {
        best as u32
    } else {
        12
    }
}

/// No month ends more of the fiscal years than the one chosen.
pub proof fn law_fiscal_month_is_the_most_common<V>(
    entries: Seq<(Seq<char>, EntryView<V>)>,
    month: int,
)
    requires
        1 <= month <= 12,
    ensures
        1 <= fiscal_month(entries) <= 12,
        month_votes(entries, month) <= month_votes(entries, fiscal_month(entries)),
{
    lemma_leading_month(entries, 12, month);
    let m = leading_month(entries, 12);
    if month_votes(entries, m) == 0 {
        lemma_leading_month(entries, 12, 12);
    }
}

proof fn lemma_leading_month<V>(
    entries: Seq<(Seq<char>, EntryView<V>)>,
    upto: int,
    month: int,
)
    requires
        1 <= upto,
        1 <= month <= upto,
    ensures
        1 <= leading_month(entries, upto) <= upto,
        month_votes(entries, month) <= month_votes(entries, leading_month(entries, upto)),
    decreases upto,
{
    if upto > 1 {
        if month < upto {
            lemma_leading_month(entries, upto - 1, month);
        } else {
            lemma_leading_month(entries, upto - 1, 1);
        }
    }
}

// ── the series of a metric ─────────────────────────────────────────────────

/// How many fiscal years of annual history to keep.
pub const ANNUAL_YEARS: i64 = 6;

/// How many fiscal years of quarterly history to keep.
pub const QUARTERLY_YEARS: i64 = 3;

/// The first fiscal year that is kept, of quarters or of full years.
pub open spec fn keep_since(quarterly: bool, this_year: int) -> int {
    if quarterly {
        this_year - QUARTERLY_YEARS
    } else {
        this_year - ANNUAL_YEARS
    }
}

/// The fact that a reported value gives for a metric: `None` where it has no
/// clean period or is older than the retention window.
pub open spec fn fact_of<V>(
    metric: Seq<char>,
    unit: Seq<char>,
    e: EntryView<V>,
    fye_month: int,
    this_year: int,
) -> Option<FactView<V>> {
    match classified(e, fye_month) {
        Some((period, fiscal_year, fiscal_qtr)) => if fiscal_year >= keep_since(
            fiscal_qtr is Some,
            this_year,
        ) {
            Some(
                FactView {
                    metric,
                    period,
                    fiscal_year,
                    fiscal_qtr,
                    period_end: e.end,
                    value: e.val,
                    unit: Some(unit),
                    form: e.form,
                    filed_at: e.filed,
                },
            )
        } else {
            None
        },
        None => None,
    }
}

/// The place of a period in a series; the series' length where it is absent.
pub open spec fn period_index<V>(series: Seq<FactView<V>>, period: Seq<char>) -> int
    decreases series.len(),
{
    if series.len() == 0 {
        0
    } else if series[0].period == period {
        0
    } else {
        1 + period_index(series.drop_first(), period)
    }
}

/// A series with one more fact: a new period is added, a known one is replaced
/// by a later filing only.
pub open spec fn with_fact<V>(series: Seq<FactView<V>>, f: FactView<V>) -> Seq<FactView<V>> {
    let i = period_index(series, f.period);
    if i == series.len() {
        series.push(f)
    } else if lex_less(or_empty(series[i].filed_at), or_empty(f.filed_at)) {
        series.update(i, f)
    } else {
        series
    }
}

/// A metric's series from one concept's values.
pub open spec fn series_of<V>(
    metric: Seq<char>,
    entries: Seq<(Seq<char>, EntryView<V>)>,
    fye_month: int,
    this_year: int,
) -> Seq<FactView<V>>
    decreases entries.len(),
{
    if entries.len() == 0 {
        Seq::empty()
    } else {
        let before = series_of(metric, entries.drop_last(), fye_month, this_year);
        match fact_of(metric, entries.last().0, entries.last().1, fye_month, this_year) {
            Some(f) => with_fact(before, f),
            None => before,
        }
    }
}

pub open spec fn facts_view<V>(v: Seq<Fact<V>>) -> Seq<FactView<V>> {
    v.map_values(|f: Fact<V>| f@)
}

fn find_period<V>(series: &Vec<Fact<V>>, period: &str) -> (r: usize)
    ensures
        r == period_index(facts_view(series@), period@),
        r <= series@.len(),
{
    let ghost views = facts_view(series@);
    let mut i: usize = 0;
    assert(views.skip(0) =~= views);
    while i < series.len()
        invariant
            views == facts_view(series@),
            i <= views.len(),
            period_index(views, period@) == i + period_index(views.skip(i as int), period@),
        decreases series.len() - i,
    {
        assert(views.skip(i as int).drop_first() =~= views.skip(i + 1));
        assert(views.skip(i as int)[0] == series@[i as int]@);
        if same(series[i].period.as_str(), period) {
            return i;
        }
        i += 1;
    }
    i
}

fn concept_series<V: Copy>(metric: &str, concept: &Concept<V>, fye_month: u32, this_year: i64) -> (r:
    Vec<Fact<V>>)
    requires
        this_year >= i64::MIN + 6,
    ensures
        facts_view(r@) == series_of(
            metric@,
            concept_entries(concept@),
            fye_month as int,
            this_year as int,
        ),
{
    let mut all: Vec<(&String, &UnitEntry<V>)> = Vec::new();
    push_entries(concept, &mut all);
    let ghost entries = concept_entries(concept@);
    assert(pairs_view(all@) =~= entries);
    let mut series: Vec<Fact<V>> = Vec::new();
    let mut k: usize = 0;
    assert(entries.take(0) =~= Seq::<(Seq<char>, EntryView<V>)>::empty());
    assert(facts_view(series@) =~= Seq::<FactView<V>>::empty());
    while k < all.len()
        invariant
            this_year >= i64::MIN + 6,
            k <= all@.len(),
            entries == pairs_view(all@),
            facts_view(series@) == series_of(
                metric@,
                entries.take(k as int),
                fye_month as int,
                this_year as int,
            ),
        decreases all.len() - k,
    {
        let (unit, e) = all[k];
        proof {
            assert(entries.take(k + 1).drop_last() =~= entries.take(k as int));
            assert(entries.take(k + 1).last() == pair_view(all@[k as int]));
        }
        k += 1;
        let (period, fiscal_year, fiscal_qtr) = match classify(e, fye_month) {
            Some(p) => p,
            None => {
                continue ;
            },
        };
        let since: i64 = if fiscal_qtr.is_some() {
            this_year - QUARTERLY_YEARS
        } else {
            this_year - ANNUAL_YEARS
        };
        if fiscal_year < since {
            continue ;
        }
        let at: usize = find_period(&series, period.as_str());
        let newer = if at < series.len() {
            less(text_or_empty(&series[at].filed_at), text_or_empty(&e.filed))
        } else {
            true
        };
        let f = Fact {
            metric: metric.to_owned(),
            period,
            fiscal_year,
            fiscal_qtr,
            period_end: e.end.clone(),
            value: e.val,
            unit: Some(unit.clone()),
            form: copy_text(&e.form),
            filed_at: copy_text(&e.filed),
        };
        let ghost view = f@;
        let ghost before = facts_view(series@);
        if newer {
            if at < series.len() {
                series.set(at, f);
                assert(facts_view(series@) =~= before.update(at as int, view));
            } else {
                series.push(f);
                assert(facts_view(series@) =~= before.push(view));
            }
        }
    }
    assert(entries.take(entries.len() as int) =~= entries);
    series
}

// ── pinning one concept per metric ─────────────────────────────────────────

/// The candidate series of one metric: the rank of its concept in the metric's
/// list (lower is more preferred), and the facts.
pub struct ConceptSeries<V> {
    pub rank: usize,
    pub facts: Vec<Fact<V>>,
}

/// The newest period end of a series; nothing where it is empty.
pub open spec fn newest<V>(series: Seq<FactView<V>>) -> Seq<char>
    decreases series.len(),
{
    if series.len() == 0 {
        Seq::empty()
    } else {
        let before = newest(series.drop_last());
        if lex_less(before, series.last().period_end) {
            series.last().period_end
        } else {
            before
        }
    }
}

impl<V> ConceptSeries<V> {
    /// The newest `period_end` across the series, for picking the concept whose
    /// data reaches furthest forward.
    pub fn newest_end(&self) -> (r: &str)
        ensures
            r@ == newest(facts_view(self.facts@)),
    {
        let ghost views = facts_view(self.facts@);
        let mut best: &str = "";
        let mut i: usize = 0;
        proof {
            reveal_strlit("");
            assert(""@ =~= Seq::<char>::empty());
            assert(views.take(0) =~= Seq::<FactView<V>>::empty());
        }
        while i < self.facts.len()
            invariant
                views == facts_view(self.facts@),
                i <= views.len(),
                best@ == newest(views.take(i as int)),
            decreases self.facts.len() - i,
        {
            proof {
                assert(views.take(i + 1).drop_last() =~= views.take(i as int));
                assert(views.take(i + 1).last() == self.facts@[i as int]@);
            }
            if less(best, self.facts[i].period_end.as_str()) {
                best = self.facts[i].period_end.as_str();
            }
            i += 1;
        }
        assert(views.take(views.len() as int) =~= views);
        best
    }
}

/// The first concept with this name.
pub open spec fn concept_named<V>(
    facts: Seq<(Seq<char>, Seq<(Seq<char>, Seq<EntryView<V>>)>)>,
    name: Seq<char>,
) -> Option<Seq<(Seq<char>, Seq<EntryView<V>>)>>
    decreases facts.len(),
{
    if facts.len() == 0 {
        None
    } else if facts[0].0 == name {
        Some(facts[0].1)
    } else {
        concept_named(facts.drop_first(), name)
    }
}

fn find_concept<'a, V>(body: &'a CompanyFacts<V>, name: &str) -> (r: Option<&'a Concept<V>>)
    ensures
        (match r {
            Some(c) => Some(c@),
            None => None,
        }) == concept_named(body@, name@),
{
    let ghost views = body@;
    let mut i: usize = 0;
    assert(views.skip(0) =~= views);
    while i < body.us_gaap.len()
        invariant
            views == body@,
            i <= views.len(),
            views.len() == body.us_gaap@.len(),
            concept_named(views, name@) == concept_named(views.skip(i as int), name@),
        decreases body.us_gaap.len() - i,
    {
        assert(views.skip(i as int).drop_first() =~= views.skip(i + 1));
        assert(views.skip(i as int)[0] == concept_view(body.us_gaap@[i as int]));
        if same(body.us_gaap[i].0.as_str(), name) {
            return Some(&body.us_gaap[i].1);
        }
        i += 1;
    }
    None
}

/// A metric's series from one concept of a company; empty where the company
/// does not report it.
pub open spec fn named_series<V>(
    metric: Seq<char>,
    facts: Seq<(Seq<char>, Seq<(Seq<char>, Seq<EntryView<V>>)>)>,
    concept: Seq<char>,
    fye_month: int,
    this_year: int,
) -> Seq<FactView<V>> {
    match concept_named(facts, concept) {
        Some(units) => series_of(metric, concept_entries(units), fye_month, this_year),
        None => Seq::empty(),
    }
}

/// `b` reaches further forward than `a`, or covers more periods up to the same
/// end.
pub open spec fn outreaches<V>(a: Seq<FactView<V>>, b: Seq<FactView<V>>) -> bool {
    lex_less(newest(a), newest(b)) || (newest(a) == newest(b) && a.len() < b.len())
}

/// The series that is pinned of the first `upto` concepts: the one that reaches
/// the most recent period, then the one that covers the most periods, then the
/// earliest listed.
pub open spec fn pinned_series<V>(
    metric: Seq<char>,
    concepts: Seq<Seq<char>>,
    upto: int,
    facts: Seq<(Seq<char>, Seq<(Seq<char>, Seq<EntryView<V>>)>)>,
    fye_month: int,
    this_year: int,
) -> Seq<FactView<V>>
    decreases upto,
{
    if upto <= 0 {
        Seq::empty()
    } else {
        let best = pinned_series(metric, concepts, upto - 1, facts, fye_month, this_year);
        let next = named_series(metric, facts, concepts[upto - 1], fye_month, this_year);
        if next.len() > 0 && (best.len() == 0 || outreaches(best, next)) {
            next
        } else {
            best
        }
    }
}

/// Our canonical metrics, each with the us-gaap concepts that can carry it, the
/// most preferred first.
pub open spec fn metric_table() -> Seq<(Seq<char>, Seq<Seq<char>>)> {
    seq![
        (
            "revenue"@,
            seq![
                "RevenueFromContractWithCustomerExcludingAssessedTax"@,
                "Revenues"@,
                "RevenueFromContractWithCustomerIncludingAssessedTax"@,
                "SalesRevenueNet"@,
            ],
        ),
        ("net_income"@, seq!["NetIncomeLoss"@, "ProfitLoss"@]),
        ("eps_diluted"@, seq!["EarningsPerShareDiluted"@, "EarningsPerShareBasicAndDiluted"@]),
        ("shares_diluted"@, seq!["WeightedAverageNumberOfDilutedSharesOutstanding"@]),
        (
            "dividends_per_share"@,
            seq!["CommonStockDividendsPerShareDeclared"@, "CommonStockDividendsPerShareCashPaid"@],
        ),
        ("assets"@, seq!["Assets"@]),
        ("liabilities"@, seq!["Liabilities"@]),
        (
            "equity"@,
            seq![
                "StockholdersEquity"@,
                "StockholdersEquityIncludingPortionAttributableToNoncontrollingInterest"@,
            ],
        ),
        ("assets_current"@, seq!["AssetsCurrent"@]),
        ("liabilities_current"@, seq!["LiabilitiesCurrent"@]),
    ]
}

pub open spec fn names_view(v: Seq<&str>) -> Seq<Seq<char>> {
    v.map_values(|c: &str| c@)
}

pub open spec fn table_view(v: Seq<(&str, Vec<&str>)>) -> Seq<(Seq<char>, Seq<Seq<char>>)> {
    v.map_values(|m: (&str, Vec<&str>)| (m.0@, names_view(m.1@)))
}

/// The metric table.
pub fn metric_concepts() -> (r: Vec<(&'static str, Vec<&'static str>)>)
    ensures
        table_view(r@) == metric_table(),
{
    let revenue: Vec<&'static str> = vec![
        "RevenueFromContractWithCustomerExcludingAssessedTax",
        "Revenues",
        "RevenueFromContractWithCustomerIncludingAssessedTax",
        "SalesRevenueNet",
    ];
    let net_income: Vec<&'static str> = vec!["NetIncomeLoss", "ProfitLoss"];
    let eps: Vec<&'static str> = vec!["EarningsPerShareDiluted", "EarningsPerShareBasicAndDiluted"];
    let shares: Vec<&'static str> = vec!["WeightedAverageNumberOfDilutedSharesOutstanding"];
    let dividends: Vec<&'static str> = vec![
        "CommonStockDividendsPerShareDeclared",
        "CommonStockDividendsPerShareCashPaid",
    ];
    let assets: Vec<&'static str> = vec!["Assets"];
    let liabilities: Vec<&'static str> = vec!["Liabilities"];
    let equity: Vec<&'static str> = vec![
        "StockholdersEquity",
        "StockholdersEquityIncludingPortionAttributableToNoncontrollingInterest",
    ];
    let assets_current: Vec<&'static str> = vec!["AssetsCurrent"];
    let liabilities_current: Vec<&'static str> = vec!["LiabilitiesCurrent"];
    proof {
        let t = metric_table();
        assert(names_view(revenue@) =~= t[0].1);
        assert(names_view(net_income@) =~= t[1].1);
        assert(names_view(eps@) =~= t[2].1);
        assert(names_view(shares@) =~= t[3].1);
        assert(names_view(dividends@) =~= t[4].1);
        assert(names_view(assets@) =~= t[5].1);
        assert(names_view(liabilities@) =~= t[6].1);
        assert(names_view(equity@) =~= t[7].1);
        assert(names_view(assets_current@) =~= t[8].1);
        assert(names_view(liabilities_current@) =~= t[9].1);
    }
    let r: Vec<(&'static str, Vec<&'static str>)> = vec![
        ("revenue", revenue),
        ("net_income", net_income),
        ("eps_diluted", eps),
        ("shares_diluted", shares),
        ("dividends_per_share", dividends),
        ("assets", assets),
        ("liabilities", liabilities),
        ("equity", equity),
        ("assets_current", assets_current),
        ("liabilities_current", liabilities_current),
    ];
    assert(table_view(r@) =~= metric_table());
    r
}

/// The facts of the metrics in `table`, metric by metric.
pub open spec fn table_facts<V>(
    table: Seq<(Seq<char>, Seq<Seq<char>>)>,
    facts: Seq<(Seq<char>, Seq<(Seq<char>, Seq<EntryView<V>>)>)>,
    fye_month: int,
    this_year: int,
) -> Seq<FactView<V>>
    decreases table.len(),
{
    if table.len() == 0 {
        Seq::empty()
    } else {
        table_facts(table.drop_last(), facts, fye_month, this_year) + pinned_series(
            table.last().0,
            table.last().1,
            table.last().1.len() as int,
            facts,
            fye_month,
            this_year,
        )
    }
}

/// The normalised facts of a company in the year `this_year`.
pub open spec fn selected_facts<V>(
    facts: Seq<(Seq<char>, Seq<(Seq<char>, Seq<EntryView<V>>)>)>,
    this_year: int,
) -> Seq<FactView<V>> {
    table_facts(metric_table(), facts, fiscal_month(company_entries(facts)), this_year)
}

fn pin_concept<V: Copy>(
    body: &CompanyFacts<V>,
    metric: &str,
    concepts: &Vec<&'static str>,
    fye_month: u32,
    this_year: i64,
) -> (r: Vec<Fact<V>>)
    requires
        this_year >= i64::MIN + 6,
    ensures
        facts_view(r@) == pinned_series(
            metric@,
            names_view(concepts@),
            concepts@.len() as int,
            body@,
            fye_month as int,
            this_year as int,
        ),
{
    let mut best: ConceptSeries<V> = ConceptSeries { rank: 0, facts: Vec::new() };
    let mut rank: usize = 0;
    assert(facts_view(best.facts@) =~= Seq::<FactView<V>>::empty());
    while rank < concepts.len()
        invariant
            this_year >= i64::MIN + 6,
            rank <= concepts@.len(),
            facts_view(best.facts@) == pinned_series(
                metric@,
                names_view(concepts@),
                rank as int,
                body@,
                fye_month as int,
                this_year as int,
            ),
        decreases concepts.len() - rank,
    {
        match find_concept(body, concepts[rank]) {
            Some(concept) => {
                let facts = concept_series(metric, concept, fye_month, this_year);
                let next = ConceptSeries { rank, facts };
                let take = next.facts.len() > 0 && (best.facts.len() == 0 || {
                    let a = best.newest_end();
                    let b = next.newest_end();
                    less(a, b) || (same(a, b) && best.facts.len() < next.facts.len())
                });
                if take {
                    best = next;
                }
            },
            None => {},
        }
        rank += 1;
    }
    best.facts
}

/// Turns a parsed `companyfacts` body into normalised facts, given the current
/// year. One us-gaap concept is pinned per metric, so that every period of a
/// metric shares one definition: a year the company did not report under the
/// pinned concept is left absent rather than read from a mismatched one.
pub fn select_facts<V: Copy>(body: &CompanyFacts<V>, this_year: i64) -> (r: Vec<Fact<V>>)
    requires
        this_year >= i64::MIN + 6,
    ensures
        facts_view(r@) == selected_facts(body@, this_year as int),
{
    let fye_month: u32 = fiscal_year_end_month(body);
    let table = metric_concepts();
    let ghost views = metric_table();
    let mut out: Vec<Fact<V>> = Vec::new();
    let mut i: usize = 0;
    assert(views.take(0) =~= Seq::<(Seq<char>, Seq<Seq<char>>)>::empty());
    assert(facts_view(out@) =~= Seq::<FactView<V>>::empty());
    while i < table.len()
        invariant
            this_year >= i64::MIN + 6,
            views == table_view(table@),
            i <= views.len(),
            facts_view(out@) == table_facts(
                views.take(i as int),
                body@,
                fye_month as int,
                this_year as int,
            ),
        decreases table.len() - i,
    {
        let mut facts = pin_concept(body, table[i].0, &table[i].1, fye_month, this_year);
        proof {
            assert(views.take(i + 1).drop_last() =~= views.take(i as int));
            assert(views[i as int] == (table@[i as int].0@, names_view(table@[i as int].1@)));
            assert(facts_view(out@ + facts@) =~= facts_view(out@) + facts_view(facts@));
        }
        out.append(&mut facts);
        i += 1;
    }
    assert(views.take(views.len() as int) =~= views);
    out
}

// ── keys ───────────────────────────────────────────────────────────────────

impl<V> CompanyFacts<V> {
    /// The keys of the source objects: no concept is named twice, and no unit
    /// occurs twice in a concept.
    pub open spec fn wf(self) -> bool {
        &&& forall|i: int, j: int|
            0 <= i < j < self@.len() ==> (#[trigger] self@[i]).0 != (#[trigger] self@[j]).0
        &&& forall|c: int, i: int, j: int|
            0 <= c < self@.len() && 0 <= i < j < self@[c].1.len() ==> (#[trigger] self@[c].1[i]).0
                != (#[trigger] self@[c].1[j]).0
    }
}

/// A concept is found by its name, wherever it stands.
pub proof fn law_concept_found_by_name<V>(body: CompanyFacts<V>, i: int)
    requires
        body.wf(),
        0 <= i < body@.len(),
    ensures
        concept_named(body@, body@[i].0) == Some(body@[i].1),
{
    lemma_concept_found(body@, i);
}

proof fn lemma_concept_found<V>(
    facts: Seq<(Seq<char>, Seq<(Seq<char>, Seq<EntryView<V>>)>)>,
    i: int,
)
    requires
        0 <= i < facts.len(),
        forall|a: int, b: int|
            0 <= a < b < facts.len() ==> (#[trigger] facts[a]).0 != (#[trigger] facts[b]).0,
    ensures
        concept_named(facts, facts[i].0) == Some(facts[i].1),
    decreases facts.len(),
{
    if i > 0 {
        let rest = facts.drop_first();
        assert forall|a: int, b: int| 0 <= a < b < rest.len() implies (#[trigger] rest[a]).0 != (
        #[trigger] rest[b]).0 by {
            assert(rest[a] == facts[a + 1] && rest[b] == facts[b + 1]);
        }
        lemma_concept_found(rest, i - 1);
    }
}

// ── total assets ───────────────────────────────────────────────────────────

/// `e` is newer than `b`: it ends later, or ends with it and was filed later.
pub open spec fn entry_newer<V>(b: EntryView<V>, e: EntryView<V>) -> bool {
    lex_less(b.end, e.end) || (b.end == e.end && lex_less(or_empty(b.filed), or_empty(e.filed)))
}

/// The newest value, the first of several.
pub open spec fn newest_entry<V>(entries: Seq<(Seq<char>, EntryView<V>)>) -> Option<EntryView<V>>
    decreases entries.len(),
{
    if entries.len() == 0 {
        None
    } else {
        let e = entries.last().1;
        match newest_entry(entries.drop_last()) {
            Some(b) if !entry_newer(b, e) => Some(b),
            _ => Some(e),
        }
    }
}

/// The latest total-assets figure of a company.
pub open spec fn latest_total_assets<V>(
    facts: Seq<(Seq<char>, Seq<(Seq<char>, Seq<EntryView<V>>)>)>,
) -> Option<V> {
    match concept_named(facts, "Assets"@) {
        Some(units) => match newest_entry(concept_entries(units)) {
            Some(e) => Some(e.val),
            None => None,
        },
        None => None,
    }
}

/// The latest total-assets figure a company has reported, whatever its fiscal
/// period: newest by period end, ties broken by the later filing. `None` when
/// the company has no `Assets` concept.
pub fn latest_assets<V: Copy>(body: &CompanyFacts<V>) -> (r: Option<V>)
    ensures
        r == latest_total_assets(body@),
{
    let assets = match find_concept(body, "Assets") {
        Some(c) => c,
        None => {
            return None;
        },
    };
    let mut all: Vec<(&String, &UnitEntry<V>)> = Vec::new();
    push_entries(assets, &mut all);
    let ghost entries = concept_entries(assets@);
    assert(pairs_view(all@) =~= entries);
    let mut best: Option<usize> = None;
    let mut k: usize = 0;
    assert(entries.take(0) =~= Seq::<(Seq<char>, EntryView<V>)>::empty());
    while k < all.len()
        invariant
            k <= all@.len(),
            entries == pairs_view(all@),
            best matches Some(b) ==> b < k,
            newest_entry(entries.take(k as int)) == (match best {
                Some(b) => Some(all@[b as int].1@),
                None => None,
            }),
        decreases all.len() - k,
    {
        proof {
            assert(entries.take(k + 1).drop_last() =~= entries.take(k as int));
            assert(entries.take(k + 1).last() == pair_view(all@[k as int]));
        }
        let e = all[k].1;
        let newer = match best {
            None => true,
            Some(at) => {
                let b = all[at].1;
                less(b.end.as_str(), e.end.as_str()) || (same(b.end.as_str(), e.end.as_str())
                    && less(text_or_empty(&b.filed), text_or_empty(&e.filed)))
            },
        };
        if newer {
            best = Some(k);
        }
        k += 1;
    }
    assert(entries.take(entries.len() as int) =~= entries);
    match best {
        Some(b) => Some(all[b].1.val),
        None => None,
    }
}

/// No value is newer than the one taken.
pub proof fn law_newest_entry<V>(entries: Seq<(Seq<char>, EntryView<V>)>, i: int)
    requires
        0 <= i < entries.len(),
    ensures
        newest_entry(entries) is Some,
        !entry_newer(newest_entry(entries)->0, entries[i].1),
    decreases entries.len(),
{
    let e = entries.last().1;
    if i == entries.len() - 1 {
        crate::text::lemma_lex_irreflexive(e.end);
        crate::text::lemma_lex_irreflexive(or_empty(e.filed));
    } else {
        law_newest_entry(entries.drop_last(), i);
        let b = newest_entry(entries.drop_last())->0;
        let x = entries[i].1;
        if entry_newer(b, e) && entry_newer(e, x) {
            if lex_less(b.end, e.end) && lex_less(e.end, x.end) {
                crate::text::lemma_lex_transitive(b.end, e.end, x.end);
            } else if b.end == e.end && e.end == x.end {
                crate::text::lemma_lex_transitive(
                    or_empty(b.filed),
                    or_empty(e.filed),
                    or_empty(x.filed),
                );
            }
        }
    }
}

} // verus!
