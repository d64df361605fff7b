//! Which filings are kept, said row by row of a history and entry by entry of a
//! feed.
use vstd::prelude::*;

use crate::atom::EntryItem;
use crate::filings::{
    cell, filing_at, kept_filings, material_form, material_fund_form, ownership_at, ownership_rows,
    ownership_url, portfolio_url, FilingView, RecentFilings,
};
use crate::funds::{
    first_report, fund_list, material_entries, shape_of, ShapeView,
};
use crate::ownership::ownership_form;
use crate::text::{
    after_last, before_last, begins, ends, without_char, without_leading, without_suffixes,
};

verus! {

// ── forms ──────────────────────────────────────────────────────────────────

/// The forms of a company that are shown are those that begin with one of seven
/// names; so an amendment is shown like the form it amends.
pub proof fn law_company_forms(form: Seq<char>, rest: Seq<char>)
    ensures
        material_form(form) <==> begins(form, "10-K"@) || begins(form, "10-Q"@) || begins(
            form,
            "8-K"@,
        ) || begins(form, "20-F"@) || begins(form, "40-F"@) || begins(form, "6-K"@) || begins(
            form,
            "DEF 14A"@,
        ),
        material_form(form) ==> material_form(form + rest),
{
    lemma_begins_more(form, rest);
}

/// The forms of a fund that are shown are those that begin with one of nine names.
pub proof fn law_fund_forms(form: Seq<char>, rest: Seq<char>)
    ensures
        material_fund_form(form) <==> begins(form, "NPORT-P"@) || begins(form, "NPORT-EX"@)
            || begins(form, "N-CEN"@) || begins(form, "N-CSR"@) || begins(form, "485BPOS"@)
            || begins(form, "485APOS"@) || begins(form, "10-K"@) || begins(form, "10-Q"@) || begins(
            form,
            "8-K"@,
        ),
        material_fund_form(form) ==> material_fund_form(form + rest),
{
    lemma_begins_more(form, rest);
}

proof fn lemma_begins_more(form: Seq<char>, rest: Seq<char>)
    ensures
        forall|p: Seq<char>| #[trigger] begins(form, p) ==> begins(form + rest, p),
{
    assert forall|p: Seq<char>| #[trigger] begins(form, p) implies begins(form + rest, p) by {
        assert((form + rest).take(p.len() as int) =~= form.take(p.len() as int));
    }
}

// ── a company's history ────────────────────────────────────────────────────

/// The text in a row of a column, where there is one that is not empty.
pub open spec fn entry_of(column: Seq<String>, i: int) -> Option<Seq<char>> {
    if 0 <= i < column.len() && column[i]@.len() > 0 {
        Some(column[i]@)
    } else {
        None
    }
}

/// The row is to be kept: its form is shown, and its number and date are known.
pub open spec fn keeps_row(r: RecentFilings, i: int) -> bool {
    &&& entry_of(r.form@, i) matches Some(form) && material_form(form)
    &&& entry_of(r.accession_number@, i) is Some
    &&& entry_of(r.filing_date@, i) is Some
}

/// How many of the first `n` rows are to be kept.
pub open spec fn rows_kept(r: RecentFilings, n: int) -> nat
    decreases n,
{
    if n <= 0 {
        0
    } else {
        rows_kept(r, n - 1) + if keeps_row(r, n - 1) {
            1nat
        } else {
            0nat
        }
    }
}

/// The filing is the row's: every field is the row's own, and it is linked to its
/// document, or to its index page where it has none, in the directory of the
/// company's number without leading zeros and the filing's number without dashes.
pub open spec fn is_filing_of(f: FilingView, r: RecentFilings, cik: Seq<char>, i: int) -> bool {
    &&& entry_of(r.accession_number@, i) == Some(f.accession)
    &&& entry_of(r.form@, i) == Some(f.form)
    &&& entry_of(r.filing_date@, i) == Some(f.filed_at)
    &&& entry_of(r.report_date@, i) == f.period_of_report
    &&& entry_of(r.primary_document@, i) == f.primary_doc
    &&& entry_of(r.primary_doc_description@, i) == f.description
    &&& entry_of(r.items@, i) == f.items
    &&& f.url == "https://www.sec.gov/Archives/edgar/data/"@ + without_leading(cik, '0') + "/"@
        + without_char(f.accession, '-') + "/"@ + (match f.primary_doc {
        Some(doc) => doc,
        None => f.accession + "-index.htm"@,
    })
}

proof fn lemma_row(r: RecentFilings, cik: Seq<char>, i: int)
    requires
        0 <= i,
    ensures
        filing_at(r, cik, i) is Some <==> keeps_row(r, i),
        filing_at(r, cik, i) matches Some(f) ==> is_filing_of(f, r, cik, i),
{
    lemma_no_empty_form();
    let form = cell(r.form@, i);
    if form.len() == 0 {
        assert(form =~= Seq::<char>::empty());
    }
}

proof fn lemma_no_empty_form()
    ensures
        !material_form(Seq::<char>::empty()),
        !material_fund_form(Seq::<char>::empty()),
{
    reveal_strlit("10-K");
    reveal_strlit("10-Q");
    reveal_strlit("8-K");
    reveal_strlit("20-F");
    reveal_strlit("40-F");
    reveal_strlit("6-K");
    reveal_strlit("DEF 14A");
    reveal_strlit("NPORT-P");
    reveal_strlit("NPORT-EX");
    reveal_strlit("N-CEN");
    reveal_strlit("N-CSR");
    reveal_strlit("485BPOS");
    reveal_strlit("485APOS");
}

/// A row that is to be kept is kept as long as there is room, in the place that its
/// order gives it; and no other row is.
pub proof fn law_filings_of_a_history(
    r: RecentFilings,
    cik: Seq<char>,
    n: int,
    limit: nat,
    i: int,
)
    requires
        0 <= i < n,
    ensures
        kept_filings(r, cik, n, limit).len() == (if rows_kept(r, n) < limit {
            rows_kept(r, n)
        } else {
            limit
        }),
        keeps_row(r, i) && rows_kept(r, i) < limit ==> is_filing_of(
            kept_filings(r, cik, n, limit)[rows_kept(r, i) as int],
            r,
            cik,
            i,
        ),
    decreases n,
{
    lemma_row(r, cik, n - 1);
    if i < n - 1 {
        law_filings_of_a_history(r, cik, n - 1, limit, i);
        lemma_rows_grow(r, i, n - 1);
    } else if n > 1 {
        law_filings_of_a_history(r, cik, n - 1, limit, 0);
    } else {
        assert(kept_filings(r, cik, 0, limit).len() == 0);
        assert(rows_kept(r, 0) == 0);
    }
}

proof fn lemma_rows_grow(r: RecentFilings, i: int, n: int)
    requires
        0 <= i < n,
    ensures
        rows_kept(r, i) + (if keeps_row(r, i) {
            1nat
        } else {
            0nat
        }) <= rows_kept(r, n),
    decreases n - i,
{
    if i < n - 1 {
        lemma_rows_grow(r, i, n - 1);
    }
}

// ── ownership filings ──────────────────────────────────────────────────────

/// The row is an ownership filing with an XML document.
pub open spec fn is_ownership_row(r: RecentFilings, i: int) -> bool {
    &&& entry_of(r.form@, i) matches Some(form) && ownership_form(form)
    &&& entry_of(r.accession_number@, i) is Some
    &&& entry_of(r.filing_date@, i) is Some
    &&& entry_of(r.primary_document@, i) matches Some(doc) && ends(doc, ".xml"@)
}

/// How many of the first `n` rows are ownership filings.
pub open spec fn ownership_count(r: RecentFilings, n: int) -> nat
    decreases n,
{
    if n <= 0 {
        0
    } else {
        ownership_count(r, n - 1) + if is_ownership_row(r, n - 1) {
            1nat
        } else {
            0nat
        }
    }
}

proof fn lemma_ownership_row(r: RecentFilings, i: int)
    requires
        0 <= i,
    ensures
        ownership_at(r, i) is Some <==> is_ownership_row(r, i),
        ownership_at(r, i) matches Some(f) ==> entry_of(r.accession_number@, i) == Some(f.accession)
            && entry_of(r.filing_date@, i) == Some(f.filed_at) && entry_of(r.primary_document@, i)
            == Some(f.primary_doc),
{
    reveal_strlit("3");
    reveal_strlit("4");
    reveal_strlit("5");
    reveal_strlit(".xml");
    reveal_strlit("/A");
    let none = Seq::<char>::empty();
    assert(without_suffixes(none, "/A"@) == none);
    assert("3"@.len() == 1 && "4"@.len() == 1 && "5"@.len() == 1);
    assert(!ownership_form(none));
    assert(!ends(none, ".xml"@));
    let form = cell(r.form@, i);
    if form.len() == 0 {
        assert(form =~= none);
    }
    let doc = cell(r.primary_document@, i);
    if doc.len() == 0 {
        assert(doc =~= none);
    }
}

/// The ownership filings of a history are its rows of that kind, in order and all
/// of them.
pub proof fn law_ownership_filings(r: RecentFilings, n: int, i: int)
    requires
        0 <= i < n,
    ensures
        ownership_rows(r, n).len() == ownership_count(r, n),
        is_ownership_row(r, i) ==> ({
            let f = ownership_rows(r, n)[ownership_count(r, i) as int];
            &&& entry_of(r.accession_number@, i) == Some(f.accession)
            &&& entry_of(r.filing_date@, i) == Some(f.filed_at)
            &&& entry_of(r.primary_document@, i) == Some(f.primary_doc)
        }),
    decreases n,
{
    lemma_ownership_row(r, n - 1);
    if i < n - 1 {
        law_ownership_filings(r, n - 1, i);
        lemma_ownership_grows(r, i, n - 1);
    } else if n > 1 {
        law_ownership_filings(r, n - 1, 0);
    } else {
        assert(ownership_rows(r, 0).len() == 0);
        assert(ownership_count(r, 0) == 0);
    }
}

proof fn lemma_ownership_grows(r: RecentFilings, i: int, n: int)
    requires
        0 <= i < n,
    ensures
        ownership_count(r, i) + (if is_ownership_row(r, i) {
            1nat
        } else {
            0nat
        }) <= ownership_count(r, n),
    decreases n - i,
{
    if i < n - 1 {
        lemma_ownership_grows(r, i, n - 1);
    }
}

// ── addresses ──────────────────────────────────────────────────────────────

proof fn lemma_segments(head: Seq<char>, c: char, tail: Seq<char>)
    requires
        !tail.contains(c),
    ensures
        after_last(head + seq![c] + tail, c) == tail,
        before_last(head + seq![c] + tail, c) == Some(head),
        after_last(tail, c) == tail,
        before_last(tail, c) is None,
    decreases tail.len(),
{
    let s = head + seq![c] + tail;
    if tail.len() > 0 {
        let shorter = tail.drop_last();
        assert(!shorter.contains(c)) by {
            if shorter.contains(c) {
                let i = choose|i: int| 0 <= i < shorter.len() && shorter[i] == c;
                assert(tail[i] == c);
            }
        }
        assert(tail.contains(tail.last()));
        lemma_segments(head, c, shorter);
        assert(s.drop_last() =~= head + seq![c] + shorter);
        assert(s.last() == tail.last());
        assert(tail =~= shorter.push(tail.last()));
    } else {
        assert(s.drop_last() =~= head);
        assert(tail =~= Seq::<char>::empty());
    }
}

/// An ownership document is read under its bare name, whatever directory the
/// history puts before it.
pub proof fn law_ownership_address(
    cik: Seq<char>,
    accession: Seq<char>,
    viewer: Seq<char>,
    name: Seq<char>,
)
    requires
        !name.contains('/'),
    ensures
        ownership_url(cik, accession, name) == "https://www.sec.gov/Archives/edgar/data/"@
            + without_leading(cik, '0') + "/"@ + without_char(accession, '-') + "/"@ + name,
        ownership_url(cik, accession, viewer + seq!['/'] + name) == ownership_url(
            cik,
            accession,
            name,
        ),
{
    lemma_segments(viewer, '/', name);
}

/// A portfolio document stands beside the index page of its filing.
pub proof fn law_portfolio_address(dir: Seq<char>, page: Seq<char>)
    requires
        !page.contains('/'),
    ensures
        portfolio_url(dir + seq!['/'] + page) == Some(dir + "/primary_doc.xml"@),
        portfolio_url(page) is None,
{
    lemma_segments(dir, '/', page);
}

// ── a fund's feed ──────────────────────────────────────────────────────────

/// How many of the first `n` entries are of a form that is shown.
pub open spec fn entries_shown(entries: Seq<EntryItem>, n: int) -> nat
    decreases n,
{
    if n <= 0 {
        0
    } else {
        entries_shown(entries, n - 1) + if material_fund_form(entries[n - 1].form) {
            1nat
        } else {
            0nat
        }
    }
}

proof fn lemma_material_entries(entries: Seq<EntryItem>, n: int, i: int)
    requires
        0 <= i < n <= entries.len(),
    ensures
        material_entries(entries.take(n)).len() == entries_shown(entries, n),
        material_fund_form(entries[i].form) ==> entries_shown(entries, i) < entries_shown(
            entries,
            n,
        ) && material_entries(entries.take(n))[entries_shown(entries, i) as int] == entries[i],
    decreases n,
{
    reveal(Seq::filter);
    let shorter = entries.take(n - 1);
    assert(entries.take(n).drop_last() =~= shorter);
    assert(entries.take(n).last() == entries[n - 1]);
    if i < n - 1 {
        lemma_material_entries(entries, n - 1, i);
    } else if n > 1 {
        lemma_material_entries(entries, n - 1, 0);
    } else {
        assert(shorter =~= Seq::<EntryItem>::empty());
        assert(material_entries(shorter).len() == 0);
        assert(entries_shown(entries, 0) == 0);
    }
}

/// Of a feed, every entry of a form that is shown is listed, up to forty, in the
/// place that its order gives it, with its own number, form, date and page; and no
/// other is.
pub proof fn law_filings_of_a_feed(entries: Seq<EntryItem>, i: int)
    requires
        0 <= i < entries.len(),
    ensures
        ({
            let n = entries.len() as int;
            let list = fund_list(entries);
            &&& list.len() == (if entries_shown(entries, n) < 40 {
                entries_shown(entries, n)
            } else {
                40
            })
            &&& (material_fund_form(entries[i].form) && entries_shown(entries, i) < 40 ==> {
                let f = list[entries_shown(entries, i) as int];
                &&& f.accession == entries[i].accession
                &&& f.form == entries[i].form
                &&& f.filed_at == entries[i].filed
                &&& f.url == entries[i].href
                &&& f.period_of_report is None && f.primary_doc is None && f.description is None
                    && f.items is None
            })
        }),
{
    let n = entries.len() as int;
    assert(entries.take(n) =~= entries);
    lemma_material_entries(entries, n, i);
}

/// The entry is a portfolio report whose page is known.
pub open spec fn reports_portfolio(e: EntryItem) -> bool {
    begins(e.form, "NPORT-P"@) && e.href.len() > 0
}

/// A fund's shape: with a portfolio report it is a portfolio, read from the first
/// of them; without one it is a commodity trust exactly where it files a 10-K and
/// no census.
pub proof fn law_shape_of_a_fund(entries: Seq<EntryItem>)
    ensures
        shape_of(entries) matches ShapeView::Portfolio { nport_href } ==> exists|i: int|
            0 <= i < entries.len() && reports_portfolio(#[trigger] entries[i]) && entries[i].href
                == nport_href && forall|j: int|
                0 <= j < i ==> !reports_portfolio(#[trigger] entries[j]),
        shape_of(entries) is Portfolio <==> exists|i: int|
            0 <= i < entries.len() && reports_portfolio(#[trigger] entries[i]),
        shape_of(entries) is CommodityTrust <==> {
            &&& forall|i: int| 0 <= i < entries.len() ==> !reports_portfolio(#[trigger] entries[i])
            &&& exists|i: int| 0 <= i < entries.len() && begins((#[trigger] entries[i]).form, "10-K"@)
            &&& forall|i: int|
                0 <= i < entries.len() ==> !begins((#[trigger] entries[i]).form, "N-CEN"@)
        },
{
    lemma_first_report(entries);
}

proof fn lemma_first_report(entries: Seq<EntryItem>)
    ensures
        first_report(entries) matches Some(href) ==> exists|i: int|
            0 <= i < entries.len() && reports_portfolio(#[trigger] entries[i]) && entries[i].href
                == href && forall|j: int| 0 <= j < i ==> !reports_portfolio(#[trigger] entries[j]),
        first_report(entries) is None ==> forall|i: int|
            0 <= i < entries.len() ==> !reports_portfolio(#[trigger] entries[i]),
    decreases entries.len(),
{
    if entries.len() > 0 {
        let rest = entries.drop_first();
        lemma_first_report(rest);
        if reports_portfolio(entries[0]) {
            assert(entries[0].href == first_report(entries)->0);
        } else if first_report(entries) is Some {
            let href = first_report(entries)->0;
            let i = choose|i: int|
                0 <= i < rest.len() && reports_portfolio(#[trigger] rest[i]) && rest[i].href == href
                    && forall|j: int| 0 <= j < i ==> !reports_portfolio(#[trigger] rest[j]);
            assert(entries[i + 1] == rest[i]);
            assert forall|j: int| 0 <= j < i + 1 implies !reports_portfolio(
                #[trigger] entries[j],
            ) by {
                if j > 0 {
                    assert(rest[j - 1] == entries[j]);
                }
            }
        } else {
            assert forall|i: int| 0 <= i < entries.len() implies !reports_portfolio(
                #[trigger] entries[i],
            ) by {
                if i > 0 {
                    assert(rest[i - 1] == entries[i]);
                }
            }
        }
    }
}

} // verus!
