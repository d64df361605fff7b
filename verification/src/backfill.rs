//! Filling in everything about one symbol: which pieces are pulled, and what
//! becomes of each answer.
use vstd::prelude::*;

use crate::directory::{CikMap, FundId, FundIdView, FundMap};
use crate::facts::text_view;
use crate::funds::{FundShape, ShapeView};
use crate::quotes::texts;
use crate::text::same;
use crate::tickers::normalized;

verus! {

/// A piece of a symbol's data.
#[derive(Clone, Copy, Debug, PartialEq, Eq, Structural)]
pub enum Piece {
    /// The deep daily history.
    History,
    /// The dividend or distribution history.
    Dividends,
    /// An ETF's metadata.
    FundMetadata,
    /// The next earnings date.
    Earnings,
    /// The sector and industry.
    Profile,
    /// A stock's fundamentals, filings and roster.
    StockSec,
    /// An ETF's fund profile and filings.
    FundSec,
}

/// The pieces of a symbol of this kind, in the order in which they are pulled.
/// Indexes and futures do not file, and the SEC is only asked where it can be.
pub open spec fn pieces_of(kind: Seq<char>, sec_ok: bool) -> Seq<Piece> {
    let sec = if sec_ok {
        if kind == "stock"@ {
            seq![Piece::StockSec]
        } else {
            seq![Piece::FundSec]
        }
    } else {
        Seq::empty()
    };
    if kind == "stock"@ {
        seq![Piece::History, Piece::Dividends, Piece::Earnings, Piece::Profile] + sec
    } else if kind == "etf"@ {
        seq![Piece::History, Piece::Dividends, Piece::FundMetadata] + sec
    } else {
        seq![Piece::History]
    }
}

/// The pieces to pull for a symbol that was just added.
pub fn backfill_symbol(kind: &str, sec_ok: bool) -> (r: Vec<Piece>)
    ensures
        r@ == pieces_of(kind@, sec_ok),
{
    let stock = same(kind, "stock");
    let etf = same(kind, "etf");
    proof {
        reveal_strlit("stock");
        reveal_strlit("etf");
        assert("stock"@.len() != "etf"@.len());
    }
    let mut pieces: Vec<Piece> = Vec::new();
    pieces.push(Piece::History);
    if stock || etf {
        pieces.push(Piece::Dividends);
    }
    if etf {
        pieces.push(Piece::FundMetadata);
    }
    if stock {
        pieces.push(Piece::Earnings);
        pieces.push(Piece::Profile);
    }
    if sec_ok {
        if stock {
            pieces.push(Piece::StockSec);
        } else if etf {
            pieces.push(Piece::FundSec);
        }
    }
    assert(pieces@ =~= pieces_of(kind@, sec_ok));
    pieces
}

// ── answers ────────────────────────────────────────────────────────────────

/// One request's worth of data.
#[derive(Clone, Copy, Debug, PartialEq, Eq, Structural)]
pub enum Item {
    History,
    Dividends,
    FundMetadata,
    Earnings,
    Profile,
    Facts,
    Filings,
}

/// How a guarded request for an item went.
#[derive(Clone, Copy, Debug, PartialEq, Eq, Structural)]
pub enum Answer {
    /// The guard refused it, or it failed.
    Nothing,
    /// It was answered, and there is no data.
    Empty,
    /// It was answered with data.
    Data,
}

/// What to do about an answer.
#[derive(Clone, Copy, Debug, PartialEq, Eq, Structural)]
pub enum Followup {
    /// Leave the item for a later run.
    Leave,
    /// Mark the item as checked; keep what is stored.
    Stamp,
    /// Store the answer; storing it marks the item as well.
    Store,
    /// Store the answer, then mark the item.
    StoreAndStamp,
}

/// What becomes of an answer. Nothing learned leaves the item as it is, to be
/// tried again. A clean answer without data is marked, so that it is not asked
/// for again at once; where the absence of data is itself the answer, it
/// replaces what is stored.
pub open spec fn followup_of(item: Item, answer: Answer) -> Followup {
    match (item, answer) {
        (_, Answer::Nothing) => Followup::Leave,
        (Item::History, Answer::Empty) => Followup::Stamp,
        (Item::History, Answer::Data) => Followup::Store,
        (Item::FundMetadata, Answer::Empty) => Followup::Stamp,
        (Item::FundMetadata, Answer::Data) => Followup::StoreAndStamp,
        (Item::Profile, Answer::Empty) => Followup::Stamp,
        (Item::Profile, Answer::Data) => Followup::Store,
        (Item::Earnings, _) => Followup::Store,
        (Item::Dividends, _) | (Item::Facts, _) | (Item::Filings, _) => Followup::StoreAndStamp,
    }
}

/// Decides what becomes of an answer.
pub fn followup(item: Item, answer: Answer) -> (r: Followup)
    ensures
        r == followup_of(item, answer),
{
    match answer {
        Answer::Nothing => Followup::Leave,
        Answer::Empty => match item {
            Item::History | Item::FundMetadata | Item::Profile => Followup::Stamp,
            Item::Earnings => Followup::Store,
            Item::Dividends | Item::Facts | Item::Filings => Followup::StoreAndStamp,
        },
        Answer::Data => match item {
            Item::History | Item::Profile | Item::Earnings => Followup::Store,
            _ => Followup::StoreAndStamp,
        },
    }
}

/// An item is left as it is exactly where nothing was learned of it.
pub proof fn law_only_answers_are_kept(item: Item, answer: Answer)
    ensures
        followup_of(item, answer) is Leave <==> answer is Nothing,
{
}

// ── registrants ────────────────────────────────────────────────────────────

/// Outcome of looking up a symbol's CIK.
pub enum CikResolution {
    /// A CIK is on file for this symbol.
    Found(String),
    /// The directory was fetched and does not list this ticker.
    Absent,
    /// The directory could not be fetched: nothing was learned.
    Unavailable,
}

/// The meaning of a [`CikResolution`].
pub enum ResolutionView {
    Found(Seq<char>),
    Absent,
    Unavailable,
}

impl View for CikResolution {
    type V = ResolutionView;

    open spec fn view(&self) -> ResolutionView {
        match self {
            CikResolution::Found(cik) => ResolutionView::Found(cik@),
            CikResolution::Absent => ResolutionView::Absent,
            CikResolution::Unavailable => ResolutionView::Unavailable,
        }
    }
}

/// The outcome, given the CIK that is on file after the lookup and whether the
/// directory was fetched. A CIK from an earlier run counts either way.
pub fn resolve_one_cik(on_file: Option<String>, fetched: bool) -> (r: CikResolution)
    ensures
        r@ == (match text_view(on_file) {
            Some(cik) => ResolutionView::Found(cik),
            None => if fetched {
                ResolutionView::Absent
            } else {
                ResolutionView::Unavailable
            },
        }),
{
    match on_file {
        Some(cik) => CikResolution::Found(cik),
        None => {
            if fetched {
                CikResolution::Absent
            } else {
                CikResolution::Unavailable
            }
        },
    }
}

/// The sync columns to stamp where a registrant does not exist, so that the page
/// shows an honest "no data".
pub open spec fn checked_columns(fund: bool, r: ResolutionView) -> Seq<Seq<char>> {
    if !(r is Absent) {
        Seq::empty()
    } else if fund {
        seq!["fund_synced_at"@]
    } else {
        seq!["fundamentals_synced_at"@, "filings_synced_at"@]
    }
}

/// The sync columns to stamp after a lookup. Nothing is stamped where nothing
/// was learned.
pub fn columns_to_stamp(fund: bool, r: &CikResolution) -> (out: Vec<&'static str>)
    ensures
        out@.map_values(|c: &str| c@) == checked_columns(fund, r@),
{
    let mut out: Vec<&'static str> = Vec::new();
    match r {
        CikResolution::Absent => {
            if fund {
                out.push("fund_synced_at");
            } else {
                out.push("fundamentals_synced_at");
                out.push("filings_synced_at");
            }
        },
        _ => {},
    }
    assert(out@.map_values(|c: &str| c@) =~= checked_columns(fund, r@));
    out
}

/// The tickers that a directory lists, each with its entry.
pub open spec fn resolved<T>(tickers: Seq<Seq<char>>, map: Map<Seq<char>, T>) -> Seq<
    (Seq<char>, T),
>
    decreases tickers.len(),
{
    if tickers.len() == 0 {
        Seq::empty()
    } else {
        let before = resolved(tickers.drop_last(), map);
        let key = normalized(tickers.last());
        if map.contains_key(key) {
            before.push((tickers.last(), map[key]))
        } else {
            before
        }
    }
}

pub open spec fn ciks_view(v: Seq<(String, String)>) -> Seq<(Seq<char>, Seq<char>)> {
    v.map_values(|p: (String, String)| (p.0@, p.1@))
}

pub open spec fn fund_ids_view(v: Seq<(String, FundId)>) -> Seq<(Seq<char>, FundIdView)> {
    v.map_values(|p: (String, FundId)| (p.0@, p.1@))
}

/// The CIKs to fill in for stocks that have none.
pub fn resolve_ciks(stocks: &Vec<String>, map: &CikMap) -> (r: Vec<(String, String)>)
    ensures
        ciks_view(r@) == resolved(texts(stocks@), map@),
{
    let ghost all = texts(stocks@);
    let mut out: Vec<(String, String)> = Vec::new();
    let mut i: usize = 0;
    assert(all.take(0) =~= Seq::<Seq<char>>::empty());
    assert(ciks_view(out@) =~= Seq::<(Seq<char>, Seq<char>)>::empty());
    while i < stocks.len()
        invariant
            i <= stocks@.len(),
            all == texts(stocks@),
            ciks_view(out@) == resolved(all.take(i as int), map@),
        decreases stocks.len() - i,
    {
        let ghost before = ciks_view(out@);
        assert(all.take(i + 1).drop_last() =~= all.take(i as int));
        match map.get(stocks[i].as_str()) {
            Some(cik) => {
                out.push((stocks[i].clone(), cik));
                assert(ciks_view(out@) =~= before.push((all[i as int], cik@)));
            },
            None => {},
        }
        i += 1;
    }
    assert(all.take(all.len() as int) =~= all);
    out
}

/// The fund identities to fill in for ETFs that have none.
pub fn resolve_fund_ciks(etfs: &Vec<String>, map: &FundMap) -> (r: Vec<(String, FundId)>)
    ensures
        fund_ids_view(r@) == resolved(texts(etfs@), map@),
{
    let ghost all = texts(etfs@);
    let mut out: Vec<(String, FundId)> = Vec::new();
    let mut i: usize = 0;
    assert(all.take(0) =~= Seq::<Seq<char>>::empty());
    assert(fund_ids_view(out@) =~= Seq::<(Seq<char>, FundIdView)>::empty());
    while i < etfs.len()
        invariant
            i <= etfs@.len(),
            all == texts(etfs@),
            fund_ids_view(out@) == resolved(all.take(i as int), map@),
        decreases etfs.len() - i,
    {
        let ghost before = fund_ids_view(out@);
        assert(all.take(i + 1).drop_last() =~= all.take(i as int));
        match map.get(etfs[i].as_str()) {
            Some(id) => {
                out.push((etfs[i].clone(), id));
                assert(fund_ids_view(out@) =~= before.push((all[i as int], id@)));
            },
            None => {},
        }
        i += 1;
    }
    assert(all.take(all.len() as int) =~= all);
    out
}

/// Exactly the listed tickers are resolved, each to its own entry.
pub proof fn law_resolved<T>(tickers: Seq<Seq<char>>, map: Map<Seq<char>, T>, t: Seq<char>, id: T)
    ensures
        resolved(tickers, map).contains((t, id)) <==> tickers.contains(t) && map.contains_key(
            normalized(t),
        ) && map[normalized(t)] == id,
    decreases tickers.len(),
{
    if tickers.len() > 0 {
        let rest = tickers.drop_last();
        let before = resolved(rest, map);
        let all = resolved(tickers, map);
        let key = normalized(tickers.last());
        law_resolved(rest, map, t, id);
        assert(tickers =~= rest.push(tickers.last()));
        assert(tickers.contains(t) <==> rest.contains(t) || t == tickers.last()) by {
            if rest.contains(t) {
                let i = choose|i: int| 0 <= i < rest.len() && rest[i] == t;
                assert(tickers[i] == t);
            }
            assert(tickers[tickers.len() - 1] == tickers.last());
        }
        if map.contains_key(key) {
            let new = (tickers.last(), map[key]);
            assert(all[before.len() as int] == new);
            assert(all.contains((t, id)) <==> before.contains((t, id)) || (t, id) == new) by {
                if before.contains((t, id)) {
                    let i = choose|i: int| 0 <= i < before.len() && before[i] == (t, id);
                    assert(all[i] == (t, id));
                }
            }
        }
    }
}

// ── an ETF's fund profile ──────────────────────────────────────────────────

/// The next thing to do for an ETF's fund profile.
pub enum EtfAction {
    /// Ask for the fund's filing list.
    ListFilings(FundId),
    /// Ask for the portfolio report beside this index page.
    ReadPortfolio(String),
    /// Ask for the total assets of this registrant.
    ReadAum(String),
    /// Store the profile that was read.
    Store,
    /// Mark the profile as up to date.
    Stamp,
    /// Nothing more.
    Done,
}

/// The meaning of an [`EtfAction`].
pub enum EtfItem {
    ListFilings(FundIdView),
    ReadPortfolio(Seq<char>),
    ReadAum(Seq<char>),
    Store,
    Stamp,
    Done,
}

impl View for EtfAction {
    type V = EtfItem;

    open spec fn view(&self) -> EtfItem {
        match self {
            EtfAction::ListFilings(id) => EtfItem::ListFilings(id@),
            EtfAction::ReadPortfolio(href) => EtfItem::ReadPortfolio(href@),
            EtfAction::ReadAum(cik) => EtfItem::ReadAum(cik@),
            EtfAction::Store => EtfItem::Store,
            EtfAction::Stamp => EtfItem::Stamp,
            EtfAction::Done => EtfItem::Done,
        }
    }
}

/// After the lookup of the fund. A fund that does not exist is marked as checked;
/// where nothing was learned it is left for later.
pub open spec fn after_lookup(r: ResolutionView, series_id: Option<Seq<char>>) -> EtfItem {
    match r {
        ResolutionView::Found(cik) => EtfItem::ListFilings(FundIdView { cik, series_id }),
        ResolutionView::Absent => EtfItem::Stamp,
        ResolutionView::Unavailable => EtfItem::Done,
    }
}

/// After the request for the filing list; `None` where it was not answered. The
/// fund's shape says where its profile is read from.
pub open spec fn after_listing(cik: Seq<char>, shape: Option<ShapeView>) -> EtfItem {
    match shape {
        Some(ShapeView::Portfolio { nport_href }) => EtfItem::ReadPortfolio(nport_href),
        Some(ShapeView::CommodityTrust) => EtfItem::ReadAum(cik),
        Some(ShapeView::Unknown) => EtfItem::Stamp,
        None => EtfItem::Done,
    }
}

/// What follows the lookup of the fund.
pub fn etf_after_lookup(r: CikResolution, series_id: Option<String>) -> (a: EtfAction)
    ensures
        a@ == after_lookup(r@, text_view(series_id)),
{
    match r {
        CikResolution::Found(cik) => EtfAction::ListFilings(FundId { cik, series_id }),
        CikResolution::Absent => EtfAction::Stamp,
        CikResolution::Unavailable => EtfAction::Done,
    }
}

/// What follows the request for the filing list.
pub fn etf_after_listing(cik: &str, shape: Option<FundShape>) -> (a: EtfAction)
    ensures
        a@ == after_listing(
            cik@,
            match shape {
                Some(s) => Some(s@),
                None => None,
            },
        ),
{
    match shape {
        Some(FundShape::Portfolio { nport_href }) => EtfAction::ReadPortfolio(nport_href),
        Some(FundShape::CommodityTrust) => EtfAction::ReadAum(cik.to_owned()),
        Some(FundShape::Unknown) => EtfAction::Stamp,
        None => EtfAction::Done,
    }
}

/// What follows the request for the profile: it is stored where it was answered.
pub fn etf_after_reading(answered: bool) -> (a: EtfAction)
    ensures
        a@ == (if answered {
            EtfItem::Store
        } else {
            EtfItem::Done
        }),
{
    if answered {
        EtfAction::Store
    } else {
        EtfAction::Done
    }
}

/// What follows the storing of the profile: it is marked where that worked.
pub fn etf_after_storing(stored: bool) -> (a: EtfAction)
    ensures
        a@ == (if stored {
            EtfItem::Stamp
        } else {
            EtfItem::Done
        }),
{
    if stored {
        EtfAction::Stamp
    } else {
        EtfAction::Done
    }
}

/// Before its profile is stored, a fund is marked as up to date only where there
/// is nothing to store: it does not exist, or its filings show no shape.
pub proof fn law_early_stamps(
    r: ResolutionView,
    series_id: Option<Seq<char>>,
    cik: Seq<char>,
    shape: Option<ShapeView>,
)
    ensures
        after_lookup(r, series_id) is Stamp <==> r is Absent,
        after_listing(cik, shape) is Stamp <==> shape == Some(ShapeView::Unknown),
{
}

// ── a week of intraday bars ────────────────────────────────────────────────

/// How far into a week its first stored bar may lie: a week that opens on a
/// holiday still counts as covered.
pub const WEEK_MARGIN_MS: i64 = 129_600_000;

/// Whether a symbol's stored bars reach back to the start of the week, so that
/// it need not be asked for again. `earliest` is its first bar in the week.
pub fn week_covered(earliest: Option<i64>, week_start: i64) -> (r: bool)
    ensures
        r == (earliest matches Some(ts) && ts <= week_start + WEEK_MARGIN_MS),
{
    match earliest {
        Some(ts) => ts as i128 <= week_start as i128 + WEEK_MARGIN_MS as i128,
        None => false,
    }
}

} // verus!
