//! Ticker directories: which registrant files under a ticker.
use vstd::hash_map::StringHashMap;
use vstd::prelude::*;

use crate::facts::text_view;
use crate::numbers::{ten_digits, zero_padded};
use crate::tickers::{
    ascii_upper_letter, kept_in_tickers, lemma_filter_all, normalize_ticker, normalized,
};

verus! {

/// One row of EDGAR's company ticker file.
pub struct TickerEntry {
    pub cik_str: i64,
    pub ticker: String,
}

/// The CIKs of companies by normalised ticker.
pub struct CikMap {
    ciks: StringHashMap<String>,
}

impl View for CikMap {
    type V = Map<Seq<char>, Seq<char>>;

    closed spec fn view(&self) -> Map<Seq<char>, Seq<char>> {
        self.ciks@.map_values(|cik: String| cik@)
    }
}

/// The directory that a list of rows describes; where two rows share a ticker,
/// the later one stands.
pub open spec fn ciks_of(rows: Seq<TickerEntry>) -> Map<Seq<char>, Seq<char>>
    decreases rows.len(),
{
    if rows.len() == 0 {
        Map::empty()
    } else {
        ciks_of(rows.drop_last()).insert(
            normalized(rows.last().ticker@),
            zero_padded(rows.last().cik_str as int, 10),
        )
    }
}

impl CikMap {
    /// The directory of a list of rows.
    pub fn of(rows: &Vec<TickerEntry>) -> (r: CikMap)
        ensures
            r@ == ciks_of(rows@),
    {
        let mut map = CikMap { ciks: StringHashMap::new() };
        assert(map@ =~= Map::<Seq<char>, Seq<char>>::empty());
        let mut i: usize = 0;
        while i < rows.len()
            invariant
                i <= rows@.len(),
                map@ == ciks_of(rows@.take(i as int)),
            decreases rows.len() - i,
        {
            let ghost before = map@;
            let key = normalize_ticker(rows[i].ticker.as_str());
            let cik = ten_digits(rows[i].cik_str);
            map.ciks.insert(key, cik);
            assert(map@ =~= before.insert(key@, cik@));
            assert(rows@.take(i + 1).drop_last() =~= rows@.take(i as int));
            i += 1;
        }
        assert(rows@.take(rows@.len() as int) =~= rows@);
        map
    }

    /// The CIK that files under a ticker, however it is punctuated.
    pub fn get(&self, ticker: &str) -> (r: Option<String>)
        ensures
            text_view(r) == (if self@.contains_key(normalized(ticker@)) {
                Some(self@[normalized(ticker@)])
            } else {
                None
            }),
    {
        let key = normalize_ticker(ticker);
        match self.ciks.get(key.as_str()) {
            Some(cik) => Some(cik.clone()),
            None => None,
        }
    }
}

/// A fund's identity: the registrant's CIK and, where the registrant hosts
/// several funds, the series.
pub struct FundId {
    pub cik: String,
    pub series_id: Option<String>,
}

/// The meaning of a [`FundId`].
pub struct FundIdView {
    pub cik: Seq<char>,
    pub series_id: Option<Seq<char>>,
}

impl View for FundId {
    type V = FundIdView;

    open spec fn view(&self) -> FundIdView {
        FundIdView { cik: self.cik@, series_id: text_view(self.series_id) }
    }
}

/// One row of EDGAR's mutual-fund ticker file.
pub struct FundRow {
    pub cik: i64,
    pub series_id: String,
    pub class_id: String,
    pub symbol: String,
}

/// Funds by normalised ticker.
pub struct FundMap {
    funds: StringHashMap<FundId>,
}

impl View for FundMap {
    type V = Map<Seq<char>, FundIdView>;

    closed spec fn view(&self) -> Map<Seq<char>, FundIdView> {
        self.funds@.map_values(|id: FundId| id@)
    }
}

/// A directory with one more fund, unless its ticker is already taken.
pub open spec fn with_fund(
    m: Map<Seq<char>, FundIdView>,
    symbol: Seq<char>,
    id: FundIdView,
) -> Map<Seq<char>, FundIdView> {
    if m.contains_key(normalized(symbol)) {
        m
    } else {
        m.insert(normalized(symbol), id)
    }
}

/// The funds that a list of rows describes; where two rows share a ticker, the
/// earlier one stands.
pub open spec fn listed_funds(rows: Seq<FundRow>) -> Map<Seq<char>, FundIdView>
    decreases rows.len(),
{
    if rows.len() == 0 {
        Map::empty()
    } else {
        let row = rows.last();
        with_fund(
            listed_funds(rows.drop_last()),
            row.symbol@,
            FundIdView { cik: zero_padded(row.cik as int, 10), series_id: Some(row.series_id@) },
        )
    }
}

/// A trust that is a single fund, so it has no series.
pub open spec fn single_fund(cik: int) -> FundIdView {
    FundIdView { cik: zero_padded(cik, 10), series_id: None }
}

/// A directory with the fund trusts that the ticker file leaves out: the unit
/// investment trusts and the physical-commodity grantor trusts.
pub open spec fn with_fallback(m: Map<Seq<char>, FundIdView>) -> Map<Seq<char>, FundIdView> {
    let m = with_fund(m, "SPY"@, single_fund(884394));
    let m = with_fund(m, "DIA"@, single_fund(1041130));
    let m = with_fund(m, "GLD"@, single_fund(1222333));
    with_fund(m, "SLV"@, single_fund(1330568))
}

/// The fund directory of a list of rows.
pub open spec fn funds_of(rows: Seq<FundRow>) -> Map<Seq<char>, FundIdView> {
    with_fallback(listed_funds(rows))
}

impl FundMap {
    fn add(&mut self, symbol: &str, id: FundId)
        ensures
            final(self)@ == with_fund(old(self)@, symbol@, id@),
    {
        let key = normalize_ticker(symbol);
        if !self.funds.contains_key(key.as_str()) {
            let ghost before = self@;
            self.funds.insert(key, id);
            assert(self@ =~= before.insert(key@, id@));
        }
    }

    /// The directory of a list of rows, with the fund trusts that such lists
    /// leave out.
    pub fn of(rows: &Vec<FundRow>) -> (r: FundMap)
        ensures
            r@ == funds_of(rows@),
    {
        let mut map = FundMap { funds: StringHashMap::new() };
        assert(map@ =~= Map::<Seq<char>, FundIdView>::empty());
        let mut i: usize = 0;
        while i < rows.len()
            invariant
                i <= rows@.len(),
                map@ == listed_funds(rows@.take(i as int)),
            decreases rows.len() - i,
        {
            let id = FundId {
                cik: ten_digits(rows[i].cik),
                series_id: Some(rows[i].series_id.clone()),
            };
            map.add(rows[i].symbol.as_str(), id);
            assert(rows@.take(i + 1).drop_last() =~= rows@.take(i as int));
            i += 1;
        }
        assert(rows@.take(rows@.len() as int) =~= rows@);
        map.add("SPY", FundId { cik: ten_digits(884394), series_id: None });
        map.add("DIA", FundId { cik: ten_digits(1041130), series_id: None });
        map.add("GLD", FundId { cik: ten_digits(1222333), series_id: None });
        map.add("SLV", FundId { cik: ten_digits(1330568), series_id: None });
        map
    }

    /// The fund with a ticker, however it is punctuated.
    pub fn get(&self, ticker: &str) -> (r: Option<FundId>)
        ensures
            (match r {
                Some(id) => Some(id@),
                None => None,
            }) == (if self@.contains_key(normalized(ticker@)) {
                Some(self@[normalized(ticker@)])
            } else {
                None
            }),
    {
        let key = normalize_ticker(ticker);
        match self.funds.get(key.as_str()) {
            Some(id) => Some(
                FundId {
                    cik: id.cik.clone(),
                    series_id: match &id.series_id {
                        Some(s) => Some(s.clone()),
                        None => None,
                    },
                },
            ),
            None => None,
        }
    }
}

proof fn lemma_fund_stays(m: Map<Seq<char>, FundIdView>, symbol: Seq<char>, id: FundIdView)
    ensures
        forall|k: Seq<char>| #[trigger]
            m.contains_key(k) ==> with_fund(m, symbol, id).contains_key(k) && with_fund(
                m,
                symbol,
                id,
            )[k] == m[k],
        with_fund(m, symbol, id).contains_key(normalized(symbol)),
{
}

/// The first row of a ticker decides: rows behind it, and the trusts added at
/// the end, leave it as it is.
pub proof fn law_first_fund_stands(rows: Seq<FundRow>, more: Seq<FundRow>, ticker: Seq<char>)
    requires
        listed_funds(rows).contains_key(ticker),
    ensures
        funds_of(rows + more).contains_key(ticker),
        funds_of(rows + more)[ticker] == listed_funds(rows)[ticker],
{
    lemma_first_listed_stands(rows, more, ticker);
    let m = listed_funds(rows + more);
    let m1 = with_fund(m, "SPY"@, single_fund(884394));
    let m2 = with_fund(m1, "DIA"@, single_fund(1041130));
    let m3 = with_fund(m2, "GLD"@, single_fund(1222333));
    lemma_fund_stays(m, "SPY"@, single_fund(884394));
    lemma_fund_stays(m1, "DIA"@, single_fund(1041130));
    lemma_fund_stays(m2, "GLD"@, single_fund(1222333));
    lemma_fund_stays(m3, "SLV"@, single_fund(1330568));
}

proof fn lemma_first_listed_stands(rows: Seq<FundRow>, more: Seq<FundRow>, ticker: Seq<char>)
    requires
        listed_funds(rows).contains_key(ticker),
    ensures
        listed_funds(rows + more).contains_key(ticker),
        listed_funds(rows + more)[ticker] == listed_funds(rows)[ticker],
    decreases more.len(),
{
    if more.len() > 0 {
        lemma_first_listed_stands(rows, more.drop_last(), ticker);
        assert((rows + more).drop_last() =~= rows + more.drop_last());
    } else {
        assert(rows + more =~= rows);
    }
}

proof fn lemma_trust_tickers()
    ensures
        normalized("SPY"@) == "SPY"@,
        normalized("DIA"@) == "DIA"@,
        normalized("GLD"@) == "GLD"@,
        normalized("SLV"@) == "SLV"@,
        "SPY"@[0] == 'S' && "SPY"@[1] == 'P',
        "DIA"@[0] == 'D',
        "GLD"@[0] == 'G',
        "SLV"@[0] == 'S' && "SLV"@[1] == 'L',
{
    reveal_strlit("SPY");
    reveal_strlit("DIA");
    reveal_strlit("GLD");
    reveal_strlit("SLV");
    lemma_plain_ticker("SPY"@);
    lemma_plain_ticker("DIA"@);
    lemma_plain_ticker("GLD"@);
    lemma_plain_ticker("SLV"@);
}

proof fn lemma_plain_ticker(s: Seq<char>)
    requires
        forall|i: int| 0 <= i < s.len() ==> ascii_upper_letter(#[trigger] s[i]),
    ensures
        normalized(s) == s,
{
    lemma_filter_all(s, kept_in_tickers());
    assert(normalized(s) =~= s);
}

/// Every fund trust that the ticker file leaves out is found, as a single fund
/// under its registrant's CIK.
pub proof fn law_trusts_are_found(rows: Seq<FundRow>)
    ensures
        ({
            let all = funds_of(rows);
            let listed = listed_funds(rows);
            &&& all.contains_key("SPY"@)
            &&& all.contains_key("DIA"@)
            &&& all.contains_key("GLD"@)
            &&& all.contains_key("SLV"@)
            &&& (!listed.contains_key("SPY"@) ==> all["SPY"@] == single_fund(884394))
            &&& (!listed.contains_key("DIA"@) ==> all["DIA"@] == single_fund(1041130))
            &&& (!listed.contains_key("GLD"@) ==> all["GLD"@] == single_fund(1222333))
            &&& (!listed.contains_key("SLV"@) ==> all["SLV"@] == single_fund(1330568))
        }),
{
    lemma_trust_tickers();
    let m = listed_funds(rows);
    let m1 = with_fund(m, "SPY"@, single_fund(884394));
    let m2 = with_fund(m1, "DIA"@, single_fund(1041130));
    let m3 = with_fund(m2, "GLD"@, single_fund(1222333));
    lemma_fund_stays(m, "SPY"@, single_fund(884394));
    lemma_fund_stays(m1, "DIA"@, single_fund(1041130));
    lemma_fund_stays(m2, "GLD"@, single_fund(1222333));
    lemma_fund_stays(m3, "SLV"@, single_fund(1330568));
}

/// Every listed company is found under its ticker.
pub proof fn law_listed_company_is_found(rows: Seq<TickerEntry>, i: int)
    requires
        0 <= i < rows.len(),
    ensures
        ciks_of(rows).contains_key(normalized(rows[i].ticker@)),
        (forall|j: int|
            i < j < rows.len() ==> normalized((#[trigger] rows[j]).ticker@) != normalized(
                rows[i].ticker@,
            )) ==> ciks_of(rows)[normalized(rows[i].ticker@)] == zero_padded(
            rows[i].cik_str as int,
            10,
        ),
    decreases rows.len(),
{
    if i < rows.len() - 1 {
        law_listed_company_is_found(rows.drop_last(), i);
    }
}

} // verus!
