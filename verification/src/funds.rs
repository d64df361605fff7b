//! What a fund's filing feed says: its material filings and its shape.
use vstd::prelude::*;

use crate::atom::{entries_view, AtomEntry, EntryItem};
use crate::filings::{
    filings_view, is_material_fund_form, material_fund_form, FilingRecord, FilingView,
};
use crate::text::{begins, starts_with};

verus! {

/// What a fund's filing history says about it.
pub enum FundShape {
    /// It files portfolio reports; the newest one's index page.
    Portfolio { nport_href: String },
    /// A grantor trust holding a physical commodity: it files 10-Ks and no fund
    /// census.
    CommodityTrust,
    /// Neither.
    Unknown,
}

/// The meaning of a [`FundShape`].
pub enum ShapeView {
    Portfolio { nport_href: Seq<char> },
    CommodityTrust,
    Unknown,
}

impl View for FundShape {
    type V = ShapeView;

    open spec fn view(&self) -> ShapeView {
        match self {
            FundShape::Portfolio { nport_href } => ShapeView::Portfolio { nport_href: nport_href@ },
            FundShape::CommodityTrust => ShapeView::CommodityTrust,
            FundShape::Unknown => ShapeView::Unknown,
        }
    }
}

/// A fund's filing list and shape.
pub struct FundFilings {
    pub filings: Vec<FilingRecord>,
    pub shape: FundShape,
}

/// How many of a fund's filings to keep.
pub const MAX_FUND_FILINGS: usize = 40;

/// A portfolio report whose index page is known.
pub open spec fn is_portfolio_report(e: EntryItem) -> bool {
    begins(e.form, "NPORT-P"@) && e.href.len() > 0
}

/// The index page of the first portfolio report.
pub open spec fn first_report(entries: Seq<EntryItem>) -> Option<Seq<char>>
    decreases entries.len(),
{
    if entries.len() == 0 {
        None
    } else if is_portfolio_report(entries[0]) {
        Some(entries[0].href)
    } else {
        first_report(entries.drop_first())
    }
}

/// Some entry's form begins so.
pub open spec fn files_form(entries: Seq<EntryItem>, prefix: Seq<char>) -> bool {
    exists|i: int| 0 <= i < entries.len() && begins((#[trigger] entries[i]).form, prefix)
}

/// The shape that a filing history shows. A fund with a portfolio report is a
/// portfolio; without one, a filer of 10-Ks that files no fund census is a
/// commodity trust.
pub open spec fn shape_of(entries: Seq<EntryItem>) -> ShapeView {
    match first_report(entries) {
        Some(nport_href) => ShapeView::Portfolio { nport_href },
        None => if files_form(entries, "10-K"@) && !files_form(entries, "N-CEN"@) {
            ShapeView::CommodityTrust
        } else {
            ShapeView::Unknown
        },
    }
}

/// Reads a fund's shape off its filing history.
pub fn fund_shape(entries: &Vec<AtomEntry>) -> (r: FundShape)
    ensures
        r@ == shape_of(entries_view(entries@)),
{
    let ghost all = entries_view(entries@);
    let mut nport: Option<String> = None;
    let mut has_ncen = false;
    let mut has_10k = false;
    let mut i: usize = 0;
    assert(all.skip(0) =~= all);
    while i < entries.len()
        invariant
            i <= entries@.len(),
            all == entries_view(entries@),
            match nport {
                Some(href) => first_report(all) == Some(href@),
                None => first_report(all) == first_report(all.skip(i as int)),
            },
            has_ncen == exists|j: int| 0 <= j < i && begins((#[trigger] all[j]).form, "N-CEN"@),
            has_10k == exists|j: int| 0 <= j < i && begins((#[trigger] all[j]).form, "10-K"@),
        decreases entries.len() - i,
    {
        let e = &entries[i];
        assert(all[i as int] == e@);
        assert(all.skip(i as int).drop_first() =~= all.skip(i + 1));
        if nport.is_none() && starts_with(e.form.as_str(), "NPORT-P") && !e.href.as_str().is_empty() {
            nport = Some(e.href.clone());
        }
        let ncen = starts_with(e.form.as_str(), "N-CEN");
        let annual = starts_with(e.form.as_str(), "10-K");
        has_ncen = has_ncen || ncen;
        has_10k = has_10k || annual;
        i += 1;
    }
    match nport {
        Some(nport_href) => FundShape::Portfolio { nport_href },
        None => {
            if has_10k && !has_ncen {
                FundShape::CommodityTrust
            } else {
                FundShape::Unknown
            }
        },
    }
}

/// The filing that a feed entry describes.
pub open spec fn listed(e: EntryItem) -> FilingView {
    FilingView {
        accession: e.accession,
        form: e.form,
        filed_at: e.filed,
        period_of_report: None,
        primary_doc: None,
        url: e.href,
        description: None,
        items: None,
    }
}

pub open spec fn with_material_form() -> spec_fn(EntryItem) -> bool {
    |e: EntryItem| material_fund_form(e.form)
}

/// The entries whose forms are material.
pub open spec fn material_entries(entries: Seq<EntryItem>) -> Seq<EntryItem> {
    entries.filter(with_material_form())
}

/// The first `n` of a sequence, or all of it.
pub open spec fn first_of<A>(s: Seq<A>, n: nat) -> Seq<A> {
    if s.len() <= n {
        s
    } else {
        s.take(n as int)
    }
}

/// The filings of a feed that are listed.
pub open spec fn fund_list(entries: Seq<EntryItem>) -> Seq<FilingView> {
    first_of(material_entries(entries), MAX_FUND_FILINGS as nat).map_values(
        |e: EntryItem| listed(e),
    )
}

/// The material filings of a feed, in its order, capped at [`MAX_FUND_FILINGS`].
pub fn material_fund_filings(entries: Vec<AtomEntry>) -> (r: Vec<FilingRecord>)
    ensures
        filings_view(r@) == fund_list(entries_view(entries@)),
{
    let ghost all = entries_view(entries@);
    let mut out: Vec<FilingRecord> = Vec::new();
    let mut i: usize = 0;
    proof {
        reveal(Seq::filter);
        assert(filings_view(out@) =~= fund_list(all.take(0)));
    }
    while i < entries.len()
        invariant
            i <= entries@.len(),
            all == entries_view(entries@),
            filings_view(out@) == fund_list(all.take(i as int)),
            out@.len() <= MAX_FUND_FILINGS,
        decreases entries.len() - i,
    {
        let e = &entries[i];
        let ghost before = filings_view(out@);
        let ghost kept = material_entries(all.take(i as int));
        proof {
            reveal(Seq::filter);
            assert(all.take(i + 1).drop_last() =~= all.take(i as int));
            assert(material_entries(all.take(i + 1)) == if material_fund_form(all[i as int].form) {
                kept.push(all[i as int])
            } else {
                kept
            });
        }
        if is_material_fund_form(e.form.as_str()) && out.len() < MAX_FUND_FILINGS {
            out.push(
                FilingRecord {
                    accession: e.accession.clone(),
                    form: e.form.clone(),
                    filed_at: e.filed.clone(),
                    period_of_report: None,
                    primary_doc: None,
                    url: e.href.clone(),
                    description: None,
                    items: None,
                },
            );
            assert(filings_view(out@) =~= before.push(listed(all[i as int])));
        }
        assert(filings_view(out@) =~= fund_list(all.take(i + 1)));
        i += 1;
    }
    assert(all.take(all.len() as int) =~= all);
    out
}

/// The first portfolio report of a feed decides a fund's shape, whatever else it
/// files.
pub proof fn law_first_report_decides(entries: Seq<EntryItem>, i: int)
    requires
        0 <= i < entries.len(),
        is_portfolio_report(entries[i]),
        forall|j: int| 0 <= j < i ==> !is_portfolio_report(#[trigger] entries[j]),
    ensures
        shape_of(entries) == (ShapeView::Portfolio { nport_href: entries[i].href }),
    decreases i,
{
    if i > 0 {
        let rest = entries.drop_first();
        assert forall|j: int| 0 <= j < i - 1 implies !is_portfolio_report(#[trigger] rest[j]) by {
            assert(rest[j] == entries[j + 1]);
        }
        law_first_report_decides(rest, i - 1);
    }
}

/// A fund that files a census is never taken for a commodity trust.
pub proof fn law_census_is_no_trust(entries: Seq<EntryItem>, i: int)
    requires
        0 <= i < entries.len(),
        begins(entries[i].form, "N-CEN"@),
    ensures
        !(shape_of(entries) is CommodityTrust),
{
}

/// Every listed filing is a material entry of the feed, and no more are listed
/// than the limit.
pub proof fn law_fund_list(entries: Seq<EntryItem>, k: int)
    requires
        0 <= k < fund_list(entries).len(),
    ensures
        fund_list(entries).len() <= MAX_FUND_FILINGS,
        material_fund_form(fund_list(entries)[k].form),
        exists|i: int|
            0 <= i < entries.len() && fund_list(entries)[k] == listed(#[trigger] entries[i]),
{
    let kept = material_entries(entries);
    assert(fund_list(entries)[k] == listed(kept[k]));
    entries.lemma_filter_pred(with_material_form(), k);
    entries.lemma_filter_contains_rev(with_material_form(), kept[k]);
    let i = choose|i: int| 0 <= i < entries.len() && entries[i] == kept[k];
    assert(fund_list(entries)[k] == listed(entries[i]));
}

} // verus!
