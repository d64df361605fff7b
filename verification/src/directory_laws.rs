//! What is found in a ticker directory, said of the rows it was made of; and how
//! tickers are compared.
use vstd::prelude::*;

use crate::directory::{
    ciks_of, funds_of, listed_funds, single_fund, FundIdView, FundRow, TickerEntry,
};
use crate::numbers::zero_padded;
use crate::tickers::{kept_in_tickers, normalized, uppercased};

verus! {

// ── tickers ────────────────────────────────────────────────────────────────

/// The comparison form is made character by character: an ASCII letter counts in
/// upper case, an ASCII digit as it is, and anything else not at all.
pub proof fn law_ticker_characters(s: Seq<char>, c: char)
    ensures
        normalized(Seq::empty()) == Seq::<char>::empty(),
        normalized(s.push(c)) == normalized(s) + (if 97 <= c as u32 <= 122 {
            seq![((c as u32) - 32) as char]
        } else if 65 <= c as u32 <= 90 || 48 <= c as u32 <= 57 {
            seq![c]
        } else {
            Seq::empty()
        }),
{
    reveal(Seq::filter);
    assert(s.push(c).drop_last() =~= s);
    assert(uppercased(Seq::<char>::empty()) =~= Seq::<char>::empty());
    let keep = kept_in_tickers();
    let before = s.filter(keep);
    if keep(c) {
        assert(uppercased(before.push(c)) =~= uppercased(before).push(
            crate::tickers::upper_ascii(c),
        ));
    }
    assert(normalized(s.push(c)) =~= normalized(s) + (if 97 <= c as u32 <= 122 {
        seq![((c as u32) - 32) as char]
    } else if 65 <= c as u32 <= 90 || 48 <= c as u32 <= 57 {
        seq![c]
    } else {
        Seq::empty()
    }));
}

// ── companies ──────────────────────────────────────────────────────────────

/// A ticker is found exactly where some row lists it.
pub proof fn law_only_listed_companies(rows: Seq<TickerEntry>, key: Seq<char>)
    ensures
        ciks_of(rows).contains_key(key) <==> exists|i: int|
            0 <= i < rows.len() && normalized((#[trigger] rows[i]).ticker@) == key,
    decreases rows.len(),
{
    if rows.len() > 0 {
        let rest = rows.drop_last();
        law_only_listed_companies(rest, key);
        if exists|i: int| 0 <= i < rest.len() && normalized((#[trigger] rest[i]).ticker@) == key {
            let i = choose|i: int|
                0 <= i < rest.len() && normalized((#[trigger] rest[i]).ticker@) == key;
            assert(normalized(rows[i].ticker@) == key);
        }
        if exists|i: int| 0 <= i < rows.len() && normalized((#[trigger] rows[i]).ticker@) == key {
            let i = choose|i: int|
                0 <= i < rows.len() && normalized((#[trigger] rows[i]).ticker@) == key;
            if i < rest.len() {
                assert(normalized(rest[i].ticker@) == key);
            }
        }
        assert(rows[rows.len() - 1] == rows.last());
    }
}

// ── funds ──────────────────────────────────────────────────────────────────

/// A fund is found under its ticker as the first row that lists it says: by its
/// registrant's number in ten digits, and by its series.
pub proof fn law_first_row_of_a_fund(rows: Seq<FundRow>, i: int)
    requires
        0 <= i < rows.len(),
        forall|j: int|
            0 <= j < i ==> normalized((#[trigger] rows[j]).symbol@) != normalized(rows[i].symbol@),
    ensures
        listed_funds(rows).contains_key(normalized(rows[i].symbol@)),
        listed_funds(rows)[normalized(rows[i].symbol@)] == (FundIdView {
            cik: zero_padded(rows[i].cik as int, 10),
            series_id: Some(rows[i].series_id@),
        }),
    decreases rows.len(),
{
    let rest = rows.drop_last();
    let key = normalized(rows[i].symbol@);
    if i < rest.len() {
        assert(rest[i] == rows[i]);
        assert forall|j: int| 0 <= j < i implies normalized((#[trigger] rest[j]).symbol@)
            != normalized(rest[i].symbol@) by {
            assert(rest[j] == rows[j]);
        }
        law_first_row_of_a_fund(rest, i);
    } else {
        law_only_listed_funds(rest, key);
        assert(!listed_funds(rest).contains_key(key)) by {
            if listed_funds(rest).contains_key(key) {
                let j = choose|j: int|
                    0 <= j < rest.len() && normalized((#[trigger] rest[j]).symbol@) == key;
                assert(rest[j] == rows[j]);
            }
        }
    }
}

/// A ticker is listed exactly where some row lists it.
pub proof fn law_only_listed_funds(rows: Seq<FundRow>, key: Seq<char>)
    ensures
        listed_funds(rows).contains_key(key) <==> exists|i: int|
            0 <= i < rows.len() && normalized((#[trigger] rows[i]).symbol@) == key,
    decreases rows.len(),
{
    if rows.len() > 0 {
        let rest = rows.drop_last();
        law_only_listed_funds(rest, key);
        if exists|i: int| 0 <= i < rest.len() && normalized((#[trigger] rest[i]).symbol@) == key {
            let i = choose|i: int|
                0 <= i < rest.len() && normalized((#[trigger] rest[i]).symbol@) == key;
            assert(normalized(rows[i].symbol@) == key);
        }
        if exists|i: int| 0 <= i < rows.len() && normalized((#[trigger] rows[i]).symbol@) == key {
            let i = choose|i: int|
                0 <= i < rows.len() && normalized((#[trigger] rows[i]).symbol@) == key;
            if i < rest.len() {
                assert(normalized(rest[i].symbol@) == key);
            }
        }
        assert(rows[rows.len() - 1] == rows.last());
    }
}

/// Besides the listed funds only the four trusts are found.
pub proof fn law_only_four_trusts(rows: Seq<FundRow>, key: Seq<char>)
    requires
        funds_of(rows).contains_key(key),
    ensures
        listed_funds(rows).contains_key(key) || key == normalized("SPY"@) || key == normalized(
            "DIA"@,
        ) || key == normalized("GLD"@) || key == normalized("SLV"@),
{
}

/// Upper case changes the ASCII letters and nothing else.
pub proof fn law_upper_case(s: Seq<char>, i: int)
    requires
        0 <= i < s.len(),
    ensures
        uppercased(s).len() == s.len(),
        97 <= s[i] as u32 <= 122 ==> uppercased(s)[i] as u32 == s[i] as u32 - 32,
        !(97 <= s[i] as u32 <= 122) ==> uppercased(s)[i] == s[i],
{
}

/// A trust is one fund of its registrant: it has its number in ten digits, and no
/// series.
pub proof fn law_trusts_have_no_series(cik: int)
    ensures
        single_fund(cik).cik == zero_padded(cik, 10),
        single_fund(cik).series_id is None,
{
}

} // verus!
