//! N-PORT portfolio reports: a fund's net assets and its holdings.
//!
//! A report can run to many megabytes, so it is walked event by event. Amounts
//! are kept as the texts that write them: the first text of each field that is
//! a number at all.
use vstd::prelude::*;

use crate::buckets::{asset_bucket, asset_class, country, country_bucket, issuer_bucket, sector};
use crate::facts::text_view;
use crate::numbers::{amount_text, is_amount};
use crate::text::{trim, trimmed};
use crate::xml::{
    document_events, is_tag, next_event, open_document, pending_events, tag_is, whole_stream,
    XmlEvent, XmlItem,
};

verus! {

/// One holding as it is assembled inside an `<invstOrSec>` block.
pub struct HoldingAcc {
    pub name: String,
    pub title: String,
    pub pct: Option<String>,
    pub value: Option<String>,
    pub asset_cat: Option<String>,
    /// `<issuerCat>`, e.g. `CORP` / `MUN` / `RF`.
    pub issuer_cat: Option<String>,
    /// `<invCountry>`, the issuer's ISO-3166-1 alpha-2 country code.
    pub country: Option<String>,
}

/// The meaning of a [`HoldingAcc`].
pub struct HoldingAccView {
    pub name: Seq<char>,
    pub title: Seq<char>,
    pub pct: Option<Seq<char>>,
    pub value: Option<Seq<char>>,
    pub asset_cat: Option<Seq<char>>,
    pub issuer_cat: Option<Seq<char>>,
    pub country: Option<Seq<char>>,
}

/// One position of a fund. The weight and the value are number texts.
pub struct FundHolding {
    pub name: String,
    pub pct: Option<String>,
    pub value_usd: Option<String>,
    pub asset_cat: Option<String>,
}

/// The meaning of a [`FundHolding`].
pub struct FundHoldingView {
    pub name: Seq<char>,
    pub pct: Option<Seq<char>>,
    pub value_usd: Option<Seq<char>>,
    pub asset_cat: Option<Seq<char>>,
}

/// A position with the buckets its weight counts into.
pub struct Position {
    pub holding: FundHolding,
    pub asset_class: String,
    pub sector: String,
    pub country: String,
}

/// The meaning of a [`Position`].
pub struct PositionView {
    pub holding: FundHoldingView,
    pub asset_class: Seq<char>,
    pub sector: Seq<char>,
    pub country: Seq<char>,
}

/// A portfolio report. The amounts are number texts.
pub struct PortfolioReport {
    pub net_assets: Option<String>,
    pub total_assets: Option<String>,
    pub report_date: Option<String>,
    pub positions: Vec<Position>,
}

/// The meaning of a [`PortfolioReport`].
pub struct PortfolioReportView {
    pub net_assets: Option<Seq<char>>,
    pub total_assets: Option<Seq<char>>,
    pub report_date: Option<Seq<char>>,
    pub positions: Seq<PositionView>,
}

/// A report being walked: the open elements, the holding being assembled, and
/// what has been read so far.
pub struct NportReader {
    path: Vec<Vec<u8>>,
    cur: Option<HoldingAcc>,
    report: PortfolioReport,
}

/// The meaning of a [`NportReader`].
pub struct NportState {
    pub path: Seq<Seq<u8>>,
    pub cur: Option<HoldingAccView>,
    pub report: PortfolioReportView,
}

impl View for HoldingAcc {
    type V = HoldingAccView;

    open spec fn view(&self) -> HoldingAccView {
        HoldingAccView {
            name: self.name@,
            title: self.title@,
            pct: text_view(self.pct),
            value: text_view(self.value),
            asset_cat: text_view(self.asset_cat),
            issuer_cat: text_view(self.issuer_cat),
            country: text_view(self.country),
        }
    }
}

impl View for FundHolding {
    type V = FundHoldingView;

    open spec fn view(&self) -> FundHoldingView {
        FundHoldingView {
            name: self.name@,
            pct: text_view(self.pct),
            value_usd: text_view(self.value_usd),
            asset_cat: text_view(self.asset_cat),
        }
    }
}

impl View for Position {
    type V = PositionView;

    open spec fn view(&self) -> PositionView {
        PositionView {
            holding: self.holding@,
            asset_class: self.asset_class@,
            sector: self.sector@,
            country: self.country@,
        }
    }
}

impl View for PortfolioReport {
    type V = PortfolioReportView;

    open spec fn view(&self) -> PortfolioReportView {
        PortfolioReportView {
            net_assets: text_view(self.net_assets),
            total_assets: text_view(self.total_assets),
            report_date: text_view(self.report_date),
            positions: self.positions@.map_values(|p: Position| p@),
        }
    }
}

/// The names of the open elements, the innermost last.
pub open spec fn path_view(path: Seq<Vec<u8>>) -> Seq<Seq<u8>> {
    path.map_values(|n: Vec<u8>| n@)
}

impl View for NportReader {
    type V = NportState;

    closed spec fn view(&self) -> NportState {
        NportState {
            path: path_view(self.path@),
            cur: match self.cur {
                Some(h) => Some(h@),
                None => None,
            },
            report: self.report@,
        }
    }
}

// ── one holding ────────────────────────────────────────────────────────────

pub open spec fn empty_holding() -> HoldingAccView {
    HoldingAccView {
        name: Seq::empty(),
        title: Seq::empty(),
        pct: None,
        value: None,
        asset_cat: None,
        issuer_cat: None,
        country: None,
    }
}

/// The number text, where the text is one.
pub open spec fn amount_of(txt: Seq<char>) -> Option<Seq<char>> {
    if is_amount(txt) {
        Some(txt)
    } else {
        None
    }
}

fn amount(txt: &str) -> (r: Option<String>)
    ensures
        text_view(r) == amount_of(txt@),
{
    if amount_text(txt) {
        Some(txt.to_owned())
    } else {
        None
    }
}

/// A holding after the text `txt` of an element `tag`. The first text of a field
/// stays: the issuer-level value precedes any nested block.
pub open spec fn with_field(h: HoldingAccView, tag: Seq<u8>, txt: Seq<char>) -> HoldingAccView {
    if is_tag(tag, "name"@) && h.name.len() == 0 {
        HoldingAccView { name: txt, ..h }
    } else if is_tag(tag, "title"@) && h.title.len() == 0 {
        HoldingAccView { title: txt, ..h }
    } else if is_tag(tag, "pctVal"@) && h.pct is None {
        HoldingAccView { pct: amount_of(txt), ..h }
    } else if is_tag(tag, "valUSD"@) && h.value is None {
        HoldingAccView { value: amount_of(txt), ..h }
    } else if is_tag(tag, "assetCat"@) && h.asset_cat is None {
        HoldingAccView { asset_cat: Some(txt), ..h }
    } else if is_tag(tag, "issuerCat"@) && h.issuer_cat is None {
        HoldingAccView { issuer_cat: Some(txt), ..h }
    } else if is_tag(tag, "invCountry"@) && h.country is None {
        HoldingAccView { country: Some(txt), ..h }
    } else {
        h
    }
}

/// The name a holding is shown by: its title where it has one.
pub open spec fn holding_of(h: HoldingAccView) -> FundHoldingView {
    FundHoldingView {
        name: if h.title.len() == 0 {
            h.name
        } else {
            h.title
        },
        pct: h.pct,
        value_usd: h.value,
        asset_cat: h.asset_cat,
    }
}

/// A finished holding with its buckets.
pub open spec fn position_of(h: HoldingAccView) -> PositionView {
    PositionView {
        holding: holding_of(h),
        asset_class: match h.asset_cat {
            Some(cat) => asset_class(cat),
            None => "Other"@,
        },
        sector: sector(h.issuer_cat),
        country: country(h.country),
    }
}

fn text_ref<'a>(o: &'a Option<String>) -> (r: Option<&'a str>)
    ensures
        crate::buckets::str_view(r) == text_view(*o),
{
    match o {
        Some(s) => Some(s.as_str()),
        None => None,
    }
}

impl HoldingAcc {
    /// A holding of which nothing is known.
    pub fn new() -> (r: HoldingAcc)
        ensures
            r@ == empty_holding(),
    {
        HoldingAcc {
            name: String::new(),
            title: String::new(),
            pct: None,
            value: None,
            asset_cat: None,
            issuer_cat: None,
            country: None,
        }
    }

    /// Takes in the text of one field.
    pub fn capture(self, tag: &Vec<u8>, txt: &str) -> (r: HoldingAcc)
        ensures
            r@ == with_field(self@, tag@, txt@),
    {
        let mut h = self;
        if tag_is(tag, "name") && h.name.as_str().is_empty() {
            h.name = txt.to_owned();
        } else if tag_is(tag, "title") && h.title.as_str().is_empty() {
            h.title = txt.to_owned();
        } else if tag_is(tag, "pctVal") && h.pct.is_none() {
            h.pct = amount(txt);
        } else if tag_is(tag, "valUSD") && h.value.is_none() {
            h.value = amount(txt);
        } else if tag_is(tag, "assetCat") && h.asset_cat.is_none() {
            h.asset_cat = Some(txt.to_owned());
        } else if tag_is(tag, "issuerCat") && h.issuer_cat.is_none() {
            h.issuer_cat = Some(txt.to_owned());
        } else if tag_is(tag, "invCountry") && h.country.is_none() {
            h.country = Some(txt.to_owned());
        }
        h
    }

    /// The holding as it is shown. The issue title is preferred to the issuer
    /// name, which often arrives truncated and all-caps.
    pub fn into_holding(self) -> (r: FundHolding)
        ensures
            r@ == holding_of(self@),
    {
        let name = if self.title.as_str().is_empty() {
            self.name
        } else {
            self.title
        };
        FundHolding { name, pct: self.pct, value_usd: self.value, asset_cat: self.asset_cat }
    }

    /// The holding with the buckets its weight counts into.
    pub fn into_position(self) -> (r: Position)
        ensures
            r@ == position_of(self@),
    {
        let class = match text_ref(&self.asset_cat) {
            Some(cat) => asset_bucket(cat),
            None => "Other",
        };
        let sector = issuer_bucket(text_ref(&self.issuer_cat));
        let country = country_bucket(text_ref(&self.country));
        Position {
            asset_class: class.to_owned(),
            sector: sector.to_owned(),
            country,
            holding: self.into_holding(),
        }
    }
}

// ── the walk ───────────────────────────────────────────────────────────────

pub open spec fn empty_report() -> PortfolioReportView {
    PortfolioReportView {
        net_assets: None,
        total_assets: None,
        report_date: None,
        positions: Seq::empty(),
    }
}

pub open spec fn nport_start() -> NportState {
    NportState { path: Seq::empty(), cur: None, report: empty_report() }
}

/// A report after the text `txt` of the element at `path`: the fund-level fields
/// count inside their own parent elements only.
pub open spec fn with_fund_field(
    r: PortfolioReportView,
    path: Seq<Seq<u8>>,
    txt: Seq<char>,
) -> PortfolioReportView {
    let tag = path.last();
    let parent = path[path.len() - 2];
    if path.len() < 2 {
        r
    } else if is_tag(parent, "fundInfo"@) && is_tag(tag, "netAssets"@) && r.net_assets is None {
        PortfolioReportView { net_assets: amount_of(txt), ..r }
    } else if is_tag(parent, "fundInfo"@) && is_tag(tag, "totAssets"@) && r.total_assets is None {
        PortfolioReportView { total_assets: amount_of(txt), ..r }
    } else if is_tag(parent, "genInfo"@) && is_tag(tag, "repPdDate"@) && r.report_date is None {
        PortfolioReportView { report_date: Some(txt), ..r }
    } else {
        r
    }
}

/// The path outside the innermost element.
pub open spec fn parent_path(path: Seq<Seq<u8>>) -> Seq<Seq<u8>> {
    if path.len() > 0 {
        path.drop_last()
    } else {
        path
    }
}

/// The state after one event.
pub open spec fn nport_step(s: NportState, e: XmlItem) -> NportState {
    match e {
        XmlItem::Open(t) => if t.empty {
            s
        } else {
            NportState {
                path: s.path.push(t.name),
                cur: if is_tag(t.name, "invstOrSec"@) {
                    Some(empty_holding())
                } else {
                    s.cur
                },
                ..s
            }
        },
        XmlItem::Close(name) => {
            let path = parent_path(s.path);
            match s.cur {
                Some(h) if is_tag(name, "invstOrSec"@) => NportState {
                    path,
                    cur: None,
                    report: PortfolioReportView {
                        positions: s.report.positions.push(position_of(h)),
                        ..s.report
                    },
                },
                _ => NportState { path, ..s },
            }
        },
        XmlItem::Text(Some(raw)) => {
            let txt = trimmed(raw);
            if s.path.len() == 0 || txt.len() == 0 {
                s
            } else {
                NportState {
                    cur: match s.cur {
                        Some(h) => Some(with_field(h, s.path.last(), txt)),
                        None => None,
                    },
                    report: with_fund_field(s.report, s.path, txt),
                    ..s
                }
            }
        },
        _ => s,
    }
}

/// The report that a stream of events gives; `None` where reading fails.
pub open spec fn nport_walk(s: NportState, events: Seq<XmlItem>) -> Option<PortfolioReportView>
    decreases events.len(),
{
    if events.len() == 0 {
        Some(s.report)
    } else {
        match events[0] {
            XmlItem::Eof => Some(s.report),
            XmlItem::Failed => None,
            e => nport_walk(nport_step(s, e), events.drop_first()),
        }
    }
}

impl NportReader {
    /// A reader at the start of a report.
    pub fn new() -> (r: NportReader)
        ensures
            r@ == nport_start(),
    {
        let r = NportReader {
            path: Vec::new(),
            cur: None,
            report: PortfolioReport {
                net_assets: None,
                total_assets: None,
                report_date: None,
                positions: Vec::new(),
            },
        };
        assert(path_view(r.path@) =~= Seq::<Seq<u8>>::empty());
        assert(r.report@.positions =~= Seq::<PositionView>::empty());
        r
    }

    /// Takes in one event.
    pub fn step(&mut self, event: XmlEvent)
        ensures
            final(self)@ == nport_step(old(self)@, event@),
    {
        let ghost before = self@;
        match event {
            XmlEvent::Open(t) => {
                if !t.empty {
                    if tag_is(&t.name, "invstOrSec") {
                        self.cur = Some(HoldingAcc::new());
                    }
                    self.path.push(t.name);
                    assert(path_view(self.path@) =~= before.path.push(t.name@));
                }
            },
            XmlEvent::Close(name) => {
                if tag_is(&name, "invstOrSec") {
                    match self.cur.take() {
                        Some(h) => {
                            self.report.positions.push(h.into_position());
                            assert(self.report@.positions =~= before.report.positions.push(
                                position_of(before.cur->0),
                            ));
                        },
                        None => {},
                    }
                }
                let _ = self.path.pop();
                assert(path_view(self.path@) =~= parent_path(before.path));
            },
            XmlEvent::Text(Some(raw)) => {
                let txt = trim(raw.as_str());
                let depth: usize = self.path.len();
                if depth > 0 && !txt.as_str().is_empty() {
                    let tag = &self.path[depth - 1];
                    match self.cur.take() {
                        Some(h) => {
                            self.cur = Some(h.capture(tag, txt.as_str()));
                        },
                        None => {},
                    }
                    if depth > 1 {
                        let parent = &self.path[depth - 2];
                        let tag = &self.path[depth - 1];
                        if tag_is(parent, "fundInfo") && tag_is(tag, "netAssets")
                            && self.report.net_assets.is_none() {
                            self.report.net_assets = amount(txt.as_str());
                        } else if tag_is(parent, "fundInfo") && tag_is(tag, "totAssets")
                            && self.report.total_assets.is_none() {
                            self.report.total_assets = amount(txt.as_str());
                        } else if tag_is(parent, "genInfo") && tag_is(tag, "repPdDate")
                            && self.report.report_date.is_none() {
                            self.report.report_date = Some(txt);
                        }
                    }
                }
            },
            _ => {},
        }
    }

    /// What has been read.
    pub fn finish(self) -> (r: PortfolioReport)
        ensures
            r@ == self@.report,
    {
        self.report
    }
}

/// Parses an N-PORT `primary_doc.xml` into a portfolio report.
pub fn parse_nport(xml: &[u8]) -> (r: Result<PortfolioReport, quick_xml::Error>)
    ensures
        (match r {
            Ok(report) => Some(report@),
            Err(_) => None,
        }) == nport_walk(nport_start(), document_events(xml@)),
        whole_stream(document_events(xml@)),
{
    let mut reader = open_document(xml);
    let mut walk = NportReader::new();
    loop
        invariant
            whole_stream(document_events(xml@)),
            whole_stream(pending_events(reader)),
            nport_walk(walk@, pending_events(reader)) == nport_walk(
                nport_start(),
                document_events(xml@),
            ),
        decreases pending_events(reader).len(),
    {
        let ghost pending = pending_events(reader);
        match next_event(&mut reader) {
            Err(e) => {
                return Err(e);
            },
            Ok(XmlEvent::Eof) => {
                return Ok(walk.finish());
            },
            Ok(event) => {
                walk.step(event);
                proof {
                    crate::xml::lemma_rest_of_stream(pending);
                }
            },
        }
    }
}

/// The number of holding blocks that close in a stream of events; `inside` says
/// whether one is open at its start.
pub open spec fn closed_blocks(inside: bool, events: Seq<XmlItem>) -> nat
    decreases events.len(),
{
    if events.len() == 0 {
        0
    } else {
        let rest = events.drop_first();
        match events[0] {
            XmlItem::Eof | XmlItem::Failed => 0,
            XmlItem::Open(t) => closed_blocks(
                inside || (!t.empty && is_tag(t.name, "invstOrSec"@)),
                rest,
            ),
            XmlItem::Close(name) => if inside && is_tag(name, "invstOrSec"@) {
                closed_blocks(false, rest) + 1
            } else {
                closed_blocks(inside, rest)
            },
            _ => closed_blocks(inside, rest),
        }
    }
}

proof fn lemma_positions(s: NportState, events: Seq<XmlItem>)
    ensures
        nport_walk(s, events) matches Some(r) ==> r.positions.len() == s.report.positions.len()
            + closed_blocks(s.cur is Some, events),
    decreases events.len(),
{
    if events.len() > 0 && !(events[0] is Eof) && !(events[0] is Failed) {
        lemma_positions(nport_step(s, events[0]), events.drop_first());
    }
}

/// A report has one position for each holding block of its document.
pub proof fn law_one_position_per_block(events: Seq<XmlItem>)
    ensures
        nport_walk(nport_start(), events) matches Some(r) ==> r.positions.len() == closed_blocks(
            false,
            events,
        ),
{
    lemma_positions(nport_start(), events);
}

/// What was read first stays: a fund-level field that is set, and every position,
/// is in the finished report as it was read.
pub proof fn law_first_value_stays(s: NportState, events: Seq<XmlItem>, i: int)
    requires
        nport_walk(s, events) is Some,
    ensures
        ({
            let r = nport_walk(s, events)->0;
            &&& (s.report.net_assets is Some ==> r.net_assets == s.report.net_assets)
            &&& (s.report.total_assets is Some ==> r.total_assets == s.report.total_assets)
            &&& (s.report.report_date is Some ==> r.report_date == s.report.report_date)
            &&& (0 <= i < s.report.positions.len() ==> i < r.positions.len() && r.positions[i]
                == s.report.positions[i])
        }),
    decreases events.len(),
{
    if events.len() > 0 && !(events[0] is Eof) {
        law_first_value_stays(nport_step(s, events[0]), events.drop_first(), i);
    }
}

} // verus!
