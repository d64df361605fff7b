//! Company fundamentals, fund profiles and filing history from SEC EDGAR.
//!
//! Each piece of data takes one request. For each there is a function that
//! gives the URL and a method of [`SecProvider`] that makes the answer of what
//! came back. A reply of "not found" is handed in as `None`.
use vstd::prelude::*;

use crate::atom::{atom_start, atom_walk, parse_edgar_atom};
use crate::directory::{ciks_of, funds_of, CikMap, FundId, FundIdView, FundMap, FundRow, TickerEntry};
use crate::facts::{
    facts_view, latest_assets, latest_total_assets, select_facts, selected_facts, CompanyFacts, Fact,
    FactView,
};
use crate::filings::{
    filings_view, kept_filings, ownership_filings, ownership_filings_view, ownership_rows,
    portfolio_doc_url, portfolio_url, select_filings, FilingRecord, FilingView, OwnershipFiling, OwnershipFilingView,
    RecentFilings, MAX_FILINGS,
};
use crate::funds::{fund_list, fund_shape, material_fund_filings, shape_of, FundFilings};
use crate::nport::{nport_start, nport_walk, parse_nport, PortfolioReport};
use crate::number_laws::law_decimal_reads_back;
use crate::numbers::{decimal, integer_value, parse_i64};
use crate::ownership::{
    ownership_start, ownership_walk, parse_ownership, people_view, OwnershipPerson, PersonView,
};
use crate::text::{trim, trimmed};
use crate::xml::document_events;

verus! {

// ── replies ────────────────────────────────────────────────────────────────

/// An explicit rate-limit signal of an endpoint.
#[derive(Clone, Copy, Debug, PartialEq, Eq, Structural)]
pub struct RateLimited {
    pub status: u16,
    pub retry_after_secs: Option<i64>,
}

/// What the status of a reply says.
#[derive(Clone, Copy, Debug, PartialEq, Eq, Structural)]
pub enum Reply {
    /// Too many requests, or the service is unavailable.
    Limited(RateLimited),
    /// There is no such resource: a valid answer, not a failure.
    Absent,
    /// Anything else: a body, or an ordinary failure.
    Other,
}

/// The seconds that a `Retry-After` header asks for, where it is a number.
pub open spec fn retry_after(header: Option<&str>) -> Option<i64> {
    match header {
        Some(h) => match integer_value(trimmed(h@)) {
            Some(v) if i64::MIN <= v <= i64::MAX => Some(v as i64),
            _ => None,
        },
        None => None,
    }
}

/// What a status says: 429 and 503 are rate-limit signals, 404 an absence.
pub open spec fn reply_of(status: u16, header: Option<&str>) -> Reply {
    if status == 429 || status == 503 {
        Reply::Limited(RateLimited { status, retry_after_secs: retry_after(header) })
    } else if status == 404 {
        Reply::Absent
    } else {
        Reply::Other
    }
}

/// Reads the status of a reply and its `Retry-After` header.
pub fn read_reply(status: u16, header: Option<&str>) -> (r: Reply)
    ensures
        r == reply_of(status, header),
{
    if status == 429 || status == 503 {
        let retry_after_secs = match header {
            Some(h) => parse_i64(trim(h).as_str()),
            None => None,
        };
        Reply::Limited(RateLimited { status, retry_after_secs })
    } else if status == 404 {
        Reply::Absent
    } else {
        Reply::Other
    }
}

// ── requests ───────────────────────────────────────────────────────────────

/// The whole-market file of tickers and CIKs.
pub fn company_tickers_url() -> (r: &'static str)
    ensures
        r@ == "https://www.sec.gov/files/company_tickers.json"@,
{
    "https://www.sec.gov/files/company_tickers.json"
}

/// The mutual-fund file of tickers, CIKs and series.
pub fn fund_tickers_url() -> (r: &'static str)
    ensures
        r@ == "https://www.sec.gov/files/company_tickers_mf.json"@,
{
    "https://www.sec.gov/files/company_tickers_mf.json"
}

/// Every XBRL fact that a company has reported.
pub fn company_facts_url(cik: &str) -> (r: String)
    ensures
        r@ == "https://data.sec.gov/api/xbrl/companyfacts/CIK"@ + cik@ + ".json"@,
{
    let mut url = "https://data.sec.gov/api/xbrl/companyfacts/CIK".to_owned();
    url.append(cik);
    url.append(".json");
    url
}

/// A company's filing history.
pub fn submissions_url(cik: &str) -> (r: String)
    ensures
        r@ == "https://data.sec.gov/submissions/CIK"@ + cik@ + ".json"@,
{
    let mut url = "https://data.sec.gov/submissions/CIK".to_owned();
    url.append(cik);
    url.append(".json");
    url
}

/// What a fund's filings are asked for by: its series where the registrant hosts
/// several funds, so that a sibling's filings never leak in, else its CIK.
pub open spec fn fund_key(id: FundIdView) -> Seq<char> {
    match id.series_id {
        Some(series) => series,
        None => id.cik,
    }
}

fn fund_key_text(id: &FundId) -> (r: &str)
    ensures
        r@ == fund_key(id@),
{
    match &id.series_id {
        Some(series) => series.as_str(),
        None => id.cik.as_str(),
    }
}

/// A fund's filing feed.
pub fn fund_filings_url(id: &FundId) -> (r: String)
    ensures
        r@ == "https://www.sec.gov/cgi-bin/browse-edgar?action=getcompany&CIK="@ + fund_key(id@)
            + "&type=&dateb=&owner=include&count=100&output=atom"@,
{
    let mut url = "https://www.sec.gov/cgi-bin/browse-edgar?action=getcompany&CIK=".to_owned();
    url.append(fund_key_text(id));
    url.append("&type=&dateb=&owner=include&count=100&output=atom");
    url
}

// ── answers ────────────────────────────────────────────────────────────────

/// Why no answer can be made.
pub enum SecError {
    /// A resource that must be there is not; what to say of it.
    Missing(String),
    /// A filing's index page has no directory; what to say of it.
    Href(String),
    /// The document is not well-formed XML.
    Xml(quick_xml::Error),
}

/// Fundamentals and filings from SEC EDGAR.
pub struct SecProvider {}

impl SecProvider {
    /// A provider.
    pub fn new() -> (r: SecProvider) {
        SecProvider {  }
    }

    /// The provider's name in logs.
    pub fn name(&self) -> (r: &'static str)
        ensures
            r@ == "sec"@,
    {
        "sec"
    }

    /// Ticker to CIK for the whole market. The file must be there.
    pub fn cik_map(&self, reply: Option<&Vec<TickerEntry>>) -> (r: Result<CikMap, SecError>)
        ensures
            match reply {
                Some(rows) => r matches Ok(map) && map@ == ciks_of(rows@),
                None => r matches Err(SecError::Missing(why)) && why@
                    == "sec company_tickers.json not found"@,
            },
    {
        match reply {
            Some(rows) => Ok(CikMap::of(rows)),
            None => Err(SecError::Missing("sec company_tickers.json not found".to_owned())),
        }
    }

    /// A company's normalised facts; none where it has reported no XBRL.
    pub fn facts<V: Copy>(&self, reply: Option<&CompanyFacts<V>>, this_year: i64) -> (r: Vec<
        Fact<V>,
    >)
        requires
            this_year >= i64::MIN + 6,
        ensures
            facts_view(r@) == (match reply {
                Some(body) => selected_facts(body@, this_year as int),
                None => Seq::<FactView<V>>::empty(),
            }),
    {
        match reply {
            Some(body) => select_facts(body, this_year),
            None => {
                let none: Vec<Fact<V>> = Vec::new();
                assert(facts_view(none@) =~= Seq::<FactView<V>>::empty());
                none
            },
        }
    }

    /// A company's material filings; none where it has no submission history.
    pub fn filings(&self, cik: &str, reply: Option<&RecentFilings>) -> (r: Vec<FilingRecord>)
        ensures
            filings_view(r@) == (match reply {
                Some(recent) => kept_filings(
                    *recent,
                    cik@,
                    recent.accession_number@.len() as int,
                    MAX_FILINGS as nat,
                ),
                None => Seq::<FilingView>::empty(),
            }),
    {
        match reply {
            Some(recent) => select_filings(recent, cik),
            None => {
                let none: Vec<FilingRecord> = Vec::new();
                assert(filings_view(none@) =~= Seq::<FilingView>::empty());
                none
            },
        }
    }

    /// Ticker to fund identity, from the mutual-fund ticker file plus the fund
    /// trusts that are absent from it. The file must be there.
    pub fn fund_ticker_map(&self, reply: Option<&Vec<FundRow>>) -> (r: Result<FundMap, SecError>)
        ensures
            match reply {
                Some(rows) => r matches Ok(map) && map@ == funds_of(rows@),
                None => r matches Err(SecError::Missing(why)) && why@
                    == "sec company_tickers_mf.json not found"@,
            },
    {
        match reply {
            Some(rows) => Ok(FundMap::of(rows)),
            None => Err(SecError::Missing("sec company_tickers_mf.json not found".to_owned())),
        }
    }

    /// A fund's filing list, plus what the filing history says about its shape.
    /// The shape is read from the whole feed, before the list is trimmed to the
    /// material forms.
    pub fn fund_filings(&self, id: &FundId, reply: Option<&[u8]>) -> (r: Result<
        FundFilings,
        SecError,
    >)
        ensures
            match reply {
                Some(feed) => match atom_walk(atom_start(), document_events(feed@)) {
                    Some(entries) => r matches Ok(f) && filings_view(f.filings@) == fund_list(
                        entries,
                    ) && f.shape@ == shape_of(entries),
                    None => r matches Err(SecError::Xml(_)),
                },
                None => r matches Err(SecError::Missing(why)) && why@
                    == "edgar filing index for "@ + fund_key(id@) + " not found"@,
            },
    {
        match reply {
            Some(feed) => match parse_edgar_atom(feed) {
                Ok(entries) => {
                    let shape = fund_shape(&entries);
                    let filings = material_fund_filings(entries);
                    Ok(FundFilings { filings, shape })
                },
                Err(e) => Err(SecError::Xml(e)),
            },
            None => {
                let mut why = "edgar filing index for ".to_owned();
                why.append(fund_key_text(id));
                why.append(" not found");
                Err(SecError::Missing(why))
            },
        }
    }

    /// Parses one N-PORT filing into a portfolio report. `index_href` is the
    /// filing's index page; the document, which must be there, was asked for
    /// beside it (see [`portfolio_doc_url`]).
    pub fn fund_portfolio(&self, index_href: &str, reply: Option<&[u8]>) -> (r: Result<
        PortfolioReport,
        SecError,
    >)
        ensures
            match (portfolio_url(index_href@), reply) {
                (None, _) => r matches Err(SecError::Href(why)) && why@ == "malformed filing href "@
                    + index_href@,
                (Some(url), None) => r matches Err(SecError::Missing(why)) && why@
                    == "N-PORT not found at "@ + url,
                (Some(_), Some(xml)) => match nport_walk(nport_start(), document_events(xml@)) {
                    Some(report) => r matches Ok(p) && p@ == report,
                    None => r matches Err(SecError::Xml(_)),
                },
            },
    {
        let url = match portfolio_doc_url(index_href) {
            Some(url) => url,
            None => {
                let mut why = "malformed filing href ".to_owned();
                why.append(index_href);
                return Err(SecError::Href(why));
            },
        };
        match reply {
            Some(xml) => match parse_nport(xml) {
                Ok(report) => Ok(report),
                Err(e) => Err(SecError::Xml(e)),
            },
            None => {
                let mut why = "N-PORT not found at ".to_owned();
                why.append(url.as_str());
                Err(SecError::Missing(why))
            },
        }
    }

    /// The latest total-assets figure a company has reported. Gives a
    /// physical-commodity trust, which files no portfolio report, an AUM.
    pub fn fund_aum<V: Copy>(&self, reply: Option<&CompanyFacts<V>>) -> (r: Option<V>)
        ensures
            r == (match reply {
                Some(body) => latest_total_assets(body@),
                None => None,
            }),
    {
        match reply {
            Some(body) => latest_assets(body),
            None => None,
        }
    }

    /// A company's recent ownership filings, from its submission history; none
    /// where it has no history.
    pub fn ownership_index(&self, reply: Option<&RecentFilings>) -> (r: Vec<OwnershipFiling>)
        ensures
            ownership_filings_view(r@) == (match reply {
                Some(recent) => ownership_rows(*recent, recent.accession_number@.len() as int),
                None => Seq::<OwnershipFilingView>::empty(),
            }),
    {
        match reply {
            Some(recent) => ownership_filings(recent),
            None => {
                let none: Vec<OwnershipFiling> = Vec::new();
                assert(ownership_filings_view(none@) =~= Seq::<OwnershipFilingView>::empty());
                none
            },
        }
    }

    /// The reporting people of one ownership filing; none where it is not there.
    pub fn ownership_doc(&self, reply: Option<&[u8]>) -> (r: Vec<OwnershipPerson>)
        ensures
            people_view(r@) == (match reply {
                Some(xml) => ownership_walk(ownership_start(), document_events(xml@)),
                None => Seq::<PersonView>::empty(),
            }),
    {
        match reply {
            Some(xml) => parse_ownership(xml),
            None => {
                let none: Vec<OwnershipPerson> = Vec::new();
                assert(people_view(none@) =~= Seq::<PersonView>::empty());
                none
            },
        }
    }
}

/// A reply is a rate-limit signal exactly where its status is 429 or 503, and an
/// absence exactly where it is 404. A signal carries its status and, where the
/// header writes a number, that number; any other header, or none, is not one.
pub proof fn law_replies(status: u16, header: Option<&str>, n: i64)
    ensures
        reply_of(status, header) is Limited <==> status == 429 || status == 503,
        reply_of(status, header) is Absent <==> status == 404,
        reply_of(status, header) matches Reply::Limited(l) ==> {
            &&& l.status == status
            &&& (header matches Some(h) ==> {
                &&& trimmed(h@) == decimal(n as int) ==> l.retry_after_secs == Some(n)
                &&& (l.retry_after_secs matches Some(v) ==> integer_value(trimmed(h@)) == Some(
                    v as int,
                ))
            })
            &&& (header is None ==> l.retry_after_secs is None)
        },
{
    law_decimal_reads_back(n as int);
}

/// A fund is asked for by its series where it has one, so that funds of one
/// registrant are told apart, and by its registrant otherwise.
pub proof fn law_fund_key(a: FundIdView, b: FundIdView)
    ensures
        a.series_id matches Some(s) ==> fund_key(a) == s,
        a.series_id is None ==> fund_key(a) == a.cik,
        a.series_id is Some && b.series_id is Some && a.series_id != b.series_id ==> fund_key(a)
            != fund_key(b),
{
}

} // verus!
