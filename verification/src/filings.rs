//! Filing histories: which of a company's or a fund's filings to keep, and where
//! they are found.
use vstd::prelude::*;

use crate::facts::text_view;
use crate::ownership::{is_ownership_form, ownership_form};
use crate::text::{
    after_last, before_last, begins, ends, ends_with, head_before_last, last_segment, remove_char,
    starts_with, strip_leading, without_char, without_leading,
};

verus! {

/// One filing.
pub struct FilingRecord {
    pub accession: String,
    pub form: String,
    pub filed_at: String,
    pub period_of_report: Option<String>,
    pub primary_doc: Option<String>,
    pub url: String,
    pub description: Option<String>,
    /// 8-K item codes, comma-separated.
    pub items: Option<String>,
}

/// The meaning of a [`FilingRecord`].
pub struct FilingView {
    pub accession: Seq<char>,
    pub form: Seq<char>,
    pub filed_at: Seq<char>,
    pub period_of_report: Option<Seq<char>>,
    pub primary_doc: Option<Seq<char>>,
    pub url: Seq<char>,
    pub description: Option<Seq<char>>,
    pub items: Option<Seq<char>>,
}

impl View for FilingRecord {
    type V = FilingView;

    open spec fn view(&self) -> FilingView {
        FilingView {
            accession: self.accession@,
            form: self.form@,
            filed_at: self.filed_at@,
            period_of_report: text_view(self.period_of_report),
            primary_doc: text_view(self.primary_doc),
            url: self.url@,
            description: text_view(self.description),
            items: text_view(self.items),
        }
    }
}

pub open spec fn filings_view(v: Seq<FilingRecord>) -> Seq<FilingView> {
    v.map_values(|f: FilingRecord| f@)
}

/// A filing history as EDGAR gives it: one parallel column per field, a row per
/// filing, the newest first.
pub struct RecentFilings {
    pub accession_number: Vec<String>,
    pub filing_date: Vec<String>,
    pub report_date: Vec<String>,
    pub form: Vec<String>,
    pub primary_document: Vec<String>,
    pub primary_doc_description: Vec<String>,
    pub items: Vec<String>,
}

/// The text in row `i` of a column; nothing where the column is shorter.
pub open spec fn cell(column: Seq<String>, i: int) -> Seq<char> {
    if 0 <= i < column.len() {
        column[i]@
    } else {
        Seq::empty()
    }
}

/// A text, or none where it is empty.
pub open spec fn unless_empty(s: Seq<char>) -> Option<Seq<char>> {
    if s.len() == 0 {
        None
    } else {
        Some(s)
    }
}

fn cell_text(column: &Vec<String>, i: usize) -> (r: String)
    ensures
        r@ == cell(column@, i as int),
{
    if i < column.len() {
        column[i].clone()
    } else {
        String::new()
    }
}

fn some_unless_empty(s: String) -> (r: Option<String>)
    ensures
        text_view(r) == unless_empty(s@),
{
    if s.as_str().is_empty() {
        None
    } else {
        Some(s)
    }
}

// ── forms ──────────────────────────────────────────────────────────────────

/// Periodic reports (10-K, 10-Q, 8-K and the foreign-filer equivalents) and the
/// annual proxy.
pub open spec fn material_form(form: Seq<char>) -> bool {
    ||| begins(form, "10-K"@)
    ||| begins(form, "10-Q"@)
    ||| begins(form, "8-K"@)
    ||| begins(form, "20-F"@)
    ||| begins(form, "40-F"@)
    ||| begins(form, "6-K"@)
    ||| begins(form, "DEF 14A"@)
}

/// Whether a filing form is worth showing a market-watcher.
pub fn is_material_form(form: &str) -> (r: bool)
    ensures
        r == material_form(form@),
{
    starts_with(form, "10-K") || starts_with(form, "10-Q") || starts_with(form, "8-K")
        || starts_with(form, "20-F") || starts_with(form, "40-F") || starts_with(form, "6-K")
        || starts_with(form, "DEF 14A")
}

/// A fund's portfolio reports, its census and shareholder reports, its
/// prospectus, and the periodic reports that a commodity trust files instead.
pub open spec fn material_fund_form(form: Seq<char>) -> bool {
    ||| begins(form, "NPORT-P"@)
    ||| begins(form, "NPORT-EX"@)
    ||| begins(form, "N-CEN"@)
    ||| begins(form, "N-CSR"@)
    ||| begins(form, "485BPOS"@)
    ||| begins(form, "485APOS"@)
    ||| begins(form, "10-K"@)
    ||| begins(form, "10-Q"@)
    ||| begins(form, "8-K"@)
}

/// Whether a filing form is worth showing on a fund's page.
pub fn is_material_fund_form(form: &str) -> (r: bool)
    ensures
        r == material_fund_form(form@),
{
    starts_with(form, "NPORT-P") || starts_with(form, "NPORT-EX") || starts_with(form, "N-CEN")
        || starts_with(form, "N-CSR") || starts_with(form, "485BPOS") || starts_with(
        form,
        "485APOS",
    ) || starts_with(form, "10-K") || starts_with(form, "10-Q") || starts_with(form, "8-K")
}

// ── a company's material filings ───────────────────────────────────────────

/// How many material filings to keep per company.
pub const MAX_FILINGS: usize = 40;

/// The directory of a filing in the EDGAR archive, where a registrant's CIK
/// stands unpadded and the accession number without dashes.
pub open spec fn archive_dir(cik: Seq<char>, accession: Seq<char>) -> Seq<char> {
    "https://www.sec.gov/Archives/edgar/data/"@ + without_leading(cik, '0') + "/"@ + without_char(
        accession,
        '-',
    ) + "/"@
}

fn archive_dir_text(cik: &str, accession: &str) -> (r: String)
    ensures
        r@ == archive_dir(cik@, accession@),
{
    let mut url = "https://www.sec.gov/Archives/edgar/data/".to_owned();
    url.append(strip_leading(cik, '0').as_str());
    url.append("/");
    url.append(remove_char(accession, '-').as_str());
    url.append("/");
    url
}

/// Where a filing is linked to: its primary document where EDGAR names one, its
/// index page otherwise.
pub open spec fn filing_url(cik: Seq<char>, accession: Seq<char>, doc: Option<Seq<char>>) -> Seq<
    char,
> {
    archive_dir(cik, accession) + (match doc {
        Some(d) => d,
        None => accession + "-index.htm"@,
    })
}

/// The filing in row `i`; `None` where its form is not material or its accession
/// number or date is missing.
pub open spec fn filing_at(r: RecentFilings, cik: Seq<char>, i: int) -> Option<FilingView> {
    let form = cell(r.form@, i);
    let accession = cell(r.accession_number@, i);
    let filed_at = cell(r.filing_date@, i);
    if !material_form(form) || accession.len() == 0 || filed_at.len() == 0 {
        None
    } else {
        let doc = unless_empty(cell(r.primary_document@, i));
        Some(
            FilingView {
                accession,
                form,
                filed_at,
                period_of_report: unless_empty(cell(r.report_date@, i)),
                primary_doc: doc,
                url: filing_url(cik, accession, doc),
                description: unless_empty(cell(r.primary_doc_description@, i)),
                items: unless_empty(cell(r.items@, i)),
            },
        )
    }
}

/// The filings of the first `n` rows that are kept, `limit` at most.
pub open spec fn kept_filings(r: RecentFilings, cik: Seq<char>, n: int, limit: nat) -> Seq<
    FilingView,
>
    decreases n,
{
    if n <= 0 {
        Seq::empty()
    } else {
        let before = kept_filings(r, cik, n - 1, limit);
        match filing_at(r, cik, n - 1) {
            Some(f) if before.len() < limit => before.push(f),
            _ => before,
        }
    }
}

fn read_filing(r: &RecentFilings, cik: &str, i: usize) -> (f: Option<FilingRecord>)
    ensures
        (match f {
            Some(x) => Some(x@),
            None => None,
        }) == filing_at(*r, cik@, i as int),
{
    let form = cell_text(&r.form, i);
    if !is_material_form(form.as_str()) {
        return None;
    }
    let accession = cell_text(&r.accession_number, i);
    let filed_at = cell_text(&r.filing_date, i);
    if accession.as_str().is_empty() || filed_at.as_str().is_empty() {
        return None;
    }
    let primary_doc = some_unless_empty(cell_text(&r.primary_document, i));
    let mut url = archive_dir_text(cik, accession.as_str());
    let ghost dir = url@;
    match &primary_doc {
        Some(doc) => {
            url.append(doc.as_str());
        },
        None => {
            url.append(accession.as_str());
            url.append("-index.htm");
            assert(url@ =~= dir + (accession@ + "-index.htm"@));
        },
    }
    Some(
        FilingRecord {
            accession,
            form,
            filed_at,
            period_of_report: some_unless_empty(cell_text(&r.report_date, i)),
            primary_doc,
            url,
            description: some_unless_empty(cell_text(&r.primary_doc_description, i)),
            items: some_unless_empty(cell_text(&r.items, i)),
        },
    )
}

/// Picks the material filings out of a submission history, in its order (the
/// newest first), capped at [`MAX_FILINGS`].
pub fn select_filings(r: &RecentFilings, cik: &str) -> (out: Vec<FilingRecord>)
    ensures
        filings_view(out@) == kept_filings(
            *r,
            cik@,
            r.accession_number@.len() as int,
            MAX_FILINGS as nat,
        ),
{
    let mut out: Vec<FilingRecord> = Vec::new();
    let mut i: usize = 0;
    assert(filings_view(out@) =~= Seq::<FilingView>::empty());
    while i < r.accession_number.len() && out.len() < MAX_FILINGS
        invariant
            i <= r.accession_number@.len(),
            out@.len() <= MAX_FILINGS,
            filings_view(out@) == kept_filings(*r, cik@, i as int, MAX_FILINGS as nat),
        decreases r.accession_number.len() - i,
    {
        let ghost before = filings_view(out@);
        match read_filing(r, cik, i) {
            Some(f) => {
                out.push(f);
                assert(filings_view(out@) =~= before.push(f@));
            },
            None => {},
        }
        i += 1;
    }
    proof {
        lemma_full_list_stays(
            *r,
            cik@,
            i as int,
            r.accession_number@.len() as int,
            MAX_FILINGS as nat,
        );
    }
    out
}

proof fn lemma_full_list_stays(r: RecentFilings, cik: Seq<char>, i: int, n: int, limit: nat)
    requires
        0 <= i <= n,
        i == n || kept_filings(r, cik, i, limit).len() >= limit,
    ensures
        kept_filings(r, cik, n, limit) == kept_filings(r, cik, i, limit),
    decreases n - i,
{
    if i < n {
        lemma_full_list_stays(r, cik, i, n - 1, limit);
    }
}

/// No more filings are kept than the limit; each is the filing of one of the
/// rows, so it is material and has an accession number and a date.
pub proof fn law_kept_filings(r: RecentFilings, cik: Seq<char>, n: int, limit: nat, k: int)
    requires
        0 <= k < kept_filings(r, cik, n, limit).len(),
    ensures
        kept_filings(r, cik, n, limit).len() <= limit,
        exists|i: int|
            0 <= i < n && (#[trigger] filing_at(r, cik, i)) == Some(
                kept_filings(r, cik, n, limit)[k],
            ),
        material_form(kept_filings(r, cik, n, limit)[k].form),
        kept_filings(r, cik, n, limit)[k].accession.len() > 0,
        kept_filings(r, cik, n, limit)[k].filed_at.len() > 0,
    decreases n,
{
    if n > 0 {
        let before = kept_filings(r, cik, n - 1, limit);
        let out = kept_filings(r, cik, n, limit);
        if k < before.len() {
            law_kept_filings(r, cik, n - 1, limit, k);
            let i = choose|i: int|
                0 <= i < n - 1 && (#[trigger] filing_at(r, cik, i)) == Some(before[k]);
            assert(filing_at(r, cik, i) == Some(out[k]));
        } else {
            assert(filing_at(r, cik, n - 1) == Some(out[k]));
            if before.len() > 0 {
                law_kept_filings(r, cik, n - 1, limit, 0);
            }
        }
    }
}

/// The filings that are kept are the first of the material ones: a longer limit
/// only adds filings behind them.
pub proof fn law_limit_cuts_the_end(r: RecentFilings, cik: Seq<char>, n: int, a: nat, b: nat)
    requires
        a <= b,
    ensures
        ({
            let short = kept_filings(r, cik, n, a);
            let long = kept_filings(r, cik, n, b);
            &&& short.len() <= long.len()
            &&& short == long.take(short.len() as int)
            &&& (short.len() < a ==> short == long)
        }),
    decreases n,
{
    if n > 0 {
        law_limit_cuts_the_end(r, cik, n - 1, a, b);
        let short = kept_filings(r, cik, n, a);
        let long = kept_filings(r, cik, n, b);
        assert(short =~= long.take(short.len() as int));
        if short.len() < a {
            assert(short =~= long);
        }
    } else {
        assert(Seq::<FilingView>::empty().take(0) =~= Seq::<FilingView>::empty());
    }
}

// ── ownership filings ──────────────────────────────────────────────────────

/// An ownership filing, to be read from its XML document.
pub struct OwnershipFiling {
    pub accession: String,
    pub filed_at: String,
    pub primary_doc: String,
}

/// The meaning of an [`OwnershipFiling`].
pub struct OwnershipFilingView {
    pub accession: Seq<char>,
    pub filed_at: Seq<char>,
    pub primary_doc: Seq<char>,
}

impl View for OwnershipFiling {
    type V = OwnershipFilingView;

    open spec fn view(&self) -> OwnershipFilingView {
        OwnershipFilingView {
            accession: self.accession@,
            filed_at: self.filed_at@,
            primary_doc: self.primary_doc@,
        }
    }
}

pub open spec fn ownership_filings_view(v: Seq<OwnershipFiling>) -> Seq<OwnershipFilingView> {
    v.map_values(|f: OwnershipFiling| f@)
}

/// The ownership filing in row `i`, where it is one with an XML document.
pub open spec fn ownership_at(r: RecentFilings, i: int) -> Option<OwnershipFilingView> {
    let accession = cell(r.accession_number@, i);
    let filed_at = cell(r.filing_date@, i);
    let primary_doc = cell(r.primary_document@, i);
    if ownership_form(cell(r.form@, i)) && accession.len() > 0 && filed_at.len() > 0 && ends(
        primary_doc,
        ".xml"@,
    ) {
        Some(OwnershipFilingView { accession, filed_at, primary_doc })
    } else {
        None
    }
}

/// The ownership filings of the first `n` rows.
pub open spec fn ownership_rows(r: RecentFilings, n: int) -> Seq<OwnershipFilingView>
    decreases n,
{
    if n <= 0 {
        Seq::empty()
    } else {
        match ownership_at(r, n - 1) {
            Some(f) => ownership_rows(r, n - 1).push(f),
            None => ownership_rows(r, n - 1),
        }
    }
}

/// A company's ownership filings in the order of its history. Only those whose
/// primary document is XML are returned: the rare legacy filing with another
/// has nothing to parse.
pub fn ownership_filings(r: &RecentFilings) -> (out: Vec<OwnershipFiling>)
    ensures
        ownership_filings_view(out@) == ownership_rows(*r, r.accession_number@.len() as int),
{
    let mut out: Vec<OwnershipFiling> = Vec::new();
    let mut i: usize = 0;
    assert(ownership_filings_view(out@) =~= Seq::<OwnershipFilingView>::empty());
    while i < r.accession_number.len()
        invariant
            i <= r.accession_number@.len(),
            ownership_filings_view(out@) == ownership_rows(*r, i as int),
        decreases r.accession_number.len() - i,
    {
        let form = cell_text(&r.form, i);
        let accession = cell_text(&r.accession_number, i);
        let filed_at = cell_text(&r.filing_date, i);
        let primary_doc = cell_text(&r.primary_document, i);
        if is_ownership_form(form.as_str()) && !accession.as_str().is_empty()
            && !filed_at.as_str().is_empty() && ends_with(primary_doc.as_str(), ".xml") {
            let ghost before = ownership_filings_view(out@);
            let f = OwnershipFiling { accession, filed_at, primary_doc };
            out.push(f);
            assert(ownership_filings_view(out@) =~= before.push(f@));
        }
        i += 1;
    }
    out
}

/// Where the XML of an ownership filing is found: the bare file name in the
/// filing's directory, also where the history names a styled viewer path.
pub open spec fn ownership_url(
    cik: Seq<char>,
    accession: Seq<char>,
    primary_doc: Seq<char>,
) -> Seq<char> {
    archive_dir(cik, accession) + after_last(primary_doc, '/')
}

/// The URL of an ownership document.
pub fn ownership_doc_url(cik: &str, accession: &str, primary_doc: &str) -> (r: String)
    ensures
        r@ == ownership_url(cik@, accession@, primary_doc@),
{
    let mut url = archive_dir_text(cik, accession);
    url.append(last_segment(primary_doc, '/').as_str());
    url
}

/// Where the N-PORT document of a filing is found: beside its index page.
pub open spec fn portfolio_url(index_href: Seq<char>) -> Option<Seq<char>> {
    match before_last(index_href, '/') {
        Some(dir) => Some(dir + "/primary_doc.xml"@),
        None => None,
    }
}

/// The URL of a filing's N-PORT document; `None` where the index page's URL has
/// no directory.
pub fn portfolio_doc_url(index_href: &str) -> (r: Option<String>)
    ensures
        text_view(r) == portfolio_url(index_href@),
{
    match head_before_last(index_href, '/') {
        Some(dir) => {
            let mut url = dir;
            url.append("/primary_doc.xml");
            Some(url)
        },
        None => None,
    }
}

} // verus!
