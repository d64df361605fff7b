//! What is pulled for a new symbol and what becomes of it, piece by piece.
use vstd::prelude::*;

use crate::backfill::{
    after_listing, after_lookup, checked_columns, followup_of, pieces_of, resolved, Answer, EtfItem,
    Followup, Item, Piece, ResolutionView,
};
use crate::funds::ShapeView;
use crate::tickers::normalized;

verus! {

/// Every symbol gets its history; stocks and ETFs their dividends; ETFs their
/// metadata; stocks their earnings date and sector; and each of the two its own SEC
/// data where the SEC can be asked.
pub proof fn law_pieces(kind: Seq<char>, sec_ok: bool)
    ensures
        ({
            let p = pieces_of(kind, sec_ok);
            let stock = kind == "stock"@;
            let etf = kind == "etf"@;
            &&& p.no_duplicates()
            &&& p.len() > 0 && p[0] == Piece::History
            &&& (p.contains(Piece::Dividends) <==> stock || etf)
            &&& (p.contains(Piece::FundMetadata) <==> etf)
            &&& (p.contains(Piece::Earnings) <==> stock)
            &&& (p.contains(Piece::Profile) <==> stock)
            &&& (p.contains(Piece::StockSec) <==> stock && sec_ok)
            &&& (p.contains(Piece::FundSec) <==> etf && sec_ok)
        }),
{
    reveal_strlit("stock");
    reveal_strlit("etf");
    assert("stock"@.len() == 5 && "etf"@.len() == 3);
    let p = pieces_of(kind, sec_ok);
    if kind == "stock"@ {
        assert(p[1] == Piece::Dividends && p[2] == Piece::Earnings && p[3] == Piece::Profile);
        assert(sec_ok ==> p[4] == Piece::StockSec);
    } else if kind == "etf"@ {
        assert(p[1] == Piece::Dividends && p[2] == Piece::FundMetadata);
        assert(sec_ok ==> p[3] == Piece::FundSec);
    }
}

/// The answer is stored.
pub open spec fn stores(f: Followup) -> bool {
    f is Store || f is StoreAndStamp
}

/// The item is marked apart from being stored.
pub open spec fn marks(f: Followup) -> bool {
    f is Stamp || f is StoreAndStamp
}

/// Data is always stored. An answer without data is stored only where its absence
/// is itself the answer: no dividends, no earnings date, no facts, no filings.
/// Nothing is stored or marked where nothing was learned.
pub proof fn law_what_is_stored(item: Item, answer: Answer)
    ensures
        stores(followup_of(item, answer)) <==> answer is Data || (answer is Empty && (
        item is Dividends || item is Earnings || item is Facts || item is Filings)),
        marks(followup_of(item, answer)) <==> match item {
            Item::History | Item::Profile => answer is Empty,
            Item::Earnings => false,
            _ => !(answer is Nothing),
        },
{
}

/// A registrant that does not exist has its sections marked as checked: a fund its
/// profile, a company its facts and filings. In any other case nothing is marked.
pub proof fn law_checked_sections(fund: bool, r: ResolutionView, column: Seq<char>)
    ensures
        checked_columns(fund, r).contains(column) <==> r is Absent && (if fund {
            column == "fund_synced_at"@
        } else {
            column == "fundamentals_synced_at"@ || column == "filings_synced_at"@
        }),
{
    let c = checked_columns(fund, r);
    if r is Absent {
        if fund {
            assert(c[0] == "fund_synced_at"@);
        } else {
            assert(c[0] == "fundamentals_synced_at"@ && c[1] == "filings_synced_at"@);
        }
    }
}

/// A fund's filings are asked for exactly where the fund was found, and under the
/// identity that was found. Its portfolio is read exactly where its filings show
/// one, from the page they name; its assets exactly where they show a commodity
/// trust, from its own registrant; and where they were not read, nothing more is
/// done.
pub proof fn law_fund_steps(
    r: ResolutionView,
    series: Option<Seq<char>>,
    cik: Seq<char>,
    shape: Option<ShapeView>,
)
    ensures
        after_lookup(r, series) matches EtfItem::ListFilings(id) ==> r == ResolutionView::Found(
            id.cik,
        ) && id.series_id == series,
        r is Found ==> after_lookup(r, series) is ListFilings,
        r is Unavailable <==> after_lookup(r, series) is Done,
        after_listing(cik, shape) matches EtfItem::ReadPortfolio(href) ==> shape == Some(
            ShapeView::Portfolio { nport_href: href },
        ),
        shape matches Some(ShapeView::Portfolio { .. }) ==> after_listing(
            cik,
            shape,
        ) is ReadPortfolio,
        after_listing(cik, shape) is ReadAum <==> shape == Some(ShapeView::CommodityTrust),
        after_listing(cik, shape) matches EtfItem::ReadAum(of) ==> of == cik,
        after_listing(cik, shape) is Done <==> shape is None,
{
}

/// One more ticker adds its own entry at the end where the directory lists it, and
/// nothing otherwise.
pub proof fn law_resolved_in_order<T>(
    tickers: Seq<Seq<char>>,
    t: Seq<char>,
    map: Map<Seq<char>, T>,
)
    ensures
        resolved(Seq::empty(), map) == Seq::<(Seq<char>, T)>::empty(),
        resolved(tickers.push(t), map) == (if map.contains_key(normalized(t)) {
            resolved(tickers, map).push((t, map[normalized(t)]))
        } else {
            resolved(tickers, map)
        }),
{
    assert(tickers.push(t).drop_last() =~= tickers);
}

} // verus!
