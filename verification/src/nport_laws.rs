//! What is read of an N-PORT report, said of the report's events.
use vstd::prelude::*;
use vstd::utf8::encode_utf8;

use crate::buckets::{asset_class, country, sector};
use crate::nport::{
    empty_holding, nport_start, nport_step, nport_walk, HoldingAccView, NportState,
    PortfolioReportView, PositionView,
};
use crate::streams::{
    amounts_below, amounts_in, closes, current_block, is_first, lemma_blocks_start,
    lemma_blocks_step, lemma_first_step, lemma_names_differ, lists_blocks, next_block, next_blocks,
    nonempty, open_elements, opens, texts_below, texts_in,
};
use crate::xml::{whole_stream, XmlItem};

verus! {

// ── the fund ───────────────────────────────────────────────────────────────

/// The fund-level fields that the first `n` events give: each is the first that
/// stands directly inside its own element, and that element inside its own parent;
/// an amount has to be a number.
pub open spec fn describes_fund(events: Seq<XmlItem>, n: int, r: PortfolioReportView) -> bool {
    &&& is_first(amounts_below(events, "fundInfo"@, "netAssets"@), 0, n, r.net_assets)
    &&& is_first(amounts_below(events, "fundInfo"@, "totAssets"@), 0, n, r.total_assets)
    &&& is_first(texts_below(events, "genInfo"@, "repPdDate"@), 0, n, r.report_date)
}

// ── a holding ──────────────────────────────────────────────────────────────

/// A text, or nothing.
pub open spec fn or_nothing(s: Option<Seq<char>>) -> Seq<char> {
    match s {
        Some(x) => x,
        None => Seq::empty(),
    }
}

/// The position that the events between `a` and `b` describe. Each field is the
/// first text of its element; an amount has to be a number. The title is shown
/// where there is one, else the name. The buckets are those of the block's own
/// category codes.
pub open spec fn describes_position(
    events: Seq<XmlItem>,
    a: int,
    b: int,
    p: PositionView,
    title: Option<Seq<char>>,
    name: Option<Seq<char>>,
    issuer: Option<Seq<char>>,
    code: Option<Seq<char>>,
) -> bool {
    &&& is_first(texts_in(events, "title"@), a + 1, b, title)
    &&& is_first(texts_in(events, "name"@), a + 1, b, name)
    &&& is_first(texts_in(events, "issuerCat"@), a + 1, b, issuer)
    &&& is_first(texts_in(events, "invCountry"@), a + 1, b, code)
    &&& is_first(amounts_in(events, "pctVal"@), a + 1, b, p.holding.pct)
    &&& is_first(amounts_in(events, "valUSD"@), a + 1, b, p.holding.value_usd)
    &&& is_first(texts_in(events, "assetCat"@), a + 1, b, p.holding.asset_cat)
    &&& p.holding.name == (if title is Some {
        or_nothing(title)
    } else {
        or_nothing(name)
    })
    &&& p.asset_class == (match p.holding.asset_cat {
        Some(cat) => asset_class(cat),
        None => "Other"@,
    })
    &&& p.sector == sector(issuer)
    &&& p.country == country(code)
}

/// The events between `a` and `b` describe the position.
pub open spec fn is_position(events: Seq<XmlItem>, a: int, b: int, p: PositionView) -> bool {
    exists|
        title: Option<Seq<char>>,
        name: Option<Seq<char>>,
        issuer: Option<Seq<char>>,
        code: Option<Seq<char>>,
    | #[trigger] describes_position(events, a, b, p, title, name, issuer, code)
}

pub open spec fn every_block() -> spec_fn((int, int)) -> bool {
    |at: (int, int)| true
}

/// `positions` are those that the blocks describe, one each.
pub open spec fn positions_of_blocks(
    events: Seq<XmlItem>,
    blocks: Seq<(int, int)>,
    positions: Seq<PositionView>,
) -> bool {
    &&& blocks.len() == positions.len()
    &&& forall|k: int|
        0 <= k < positions.len() ==> is_position(
            events,
            blocks[k].0,
            blocks[k].1,
            #[trigger] positions[k],
        )
}

// ── the walk ───────────────────────────────────────────────────────────────

spec fn holding_so_far(events: Seq<XmlItem>, a: int, n: int, h: HoldingAccView) -> bool {
    &&& is_first(texts_in(events, "name"@), a + 1, n, nonempty(h.name))
    &&& is_first(texts_in(events, "title"@), a + 1, n, nonempty(h.title))
    &&& is_first(amounts_in(events, "pctVal"@), a + 1, n, h.pct)
    &&& is_first(amounts_in(events, "valUSD"@), a + 1, n, h.value)
    &&& is_first(texts_in(events, "assetCat"@), a + 1, n, h.asset_cat)
    &&& is_first(texts_in(events, "issuerCat"@), a + 1, n, h.issuer_cat)
    &&& is_first(texts_in(events, "invCountry"@), a + 1, n, h.country)
}

spec fn state_after(events: Seq<XmlItem>, n: int) -> NportState
    decreases n,
{
    if n <= 0 {
        nport_start()
    } else {
        nport_step(state_after(events, n - 1), events[n - 1])
    }
}

proof fn lemma_walk(events: Seq<XmlItem>, n: int)
    requires
        whole_stream(events),
        0 <= n < events.len(),
    ensures
        nport_walk(nport_start(), events) == nport_walk(state_after(events, n), events.skip(n)),
    decreases n,
{
    if n > 0 {
        lemma_walk(events, n - 1);
        assert(events.skip(n - 1).drop_first() =~= events.skip(n));
        assert(events.skip(n - 1)[0] == events[n - 1]);
    } else {
        assert(events.skip(0) =~= events);
    }
}

proof fn lemma_tags()
    ensures
        encode_utf8("name"@) != encode_utf8("title"@),
        encode_utf8("name"@) != encode_utf8("pctVal"@),
        encode_utf8("name"@) != encode_utf8("valUSD"@),
        encode_utf8("name"@) != encode_utf8("assetCat"@),
        encode_utf8("name"@) != encode_utf8("issuerCat"@),
        encode_utf8("name"@) != encode_utf8("invCountry"@),
        encode_utf8("title"@) != encode_utf8("pctVal"@),
        encode_utf8("title"@) != encode_utf8("valUSD"@),
        encode_utf8("title"@) != encode_utf8("assetCat"@),
        encode_utf8("title"@) != encode_utf8("issuerCat"@),
        encode_utf8("title"@) != encode_utf8("invCountry"@),
        encode_utf8("pctVal"@) != encode_utf8("valUSD"@),
        encode_utf8("pctVal"@) != encode_utf8("assetCat"@),
        encode_utf8("pctVal"@) != encode_utf8("issuerCat"@),
        encode_utf8("pctVal"@) != encode_utf8("invCountry"@),
        encode_utf8("valUSD"@) != encode_utf8("assetCat"@),
        encode_utf8("valUSD"@) != encode_utf8("issuerCat"@),
        encode_utf8("valUSD"@) != encode_utf8("invCountry"@),
        encode_utf8("assetCat"@) != encode_utf8("issuerCat"@),
        encode_utf8("assetCat"@) != encode_utf8("invCountry"@),
        encode_utf8("issuerCat"@) != encode_utf8("invCountry"@),
        encode_utf8("netAssets"@) != encode_utf8("totAssets"@),
        encode_utf8("netAssets"@) != encode_utf8("repPdDate"@),
        encode_utf8("totAssets"@) != encode_utf8("repPdDate"@),
{
    reveal_strlit("name");
    reveal_strlit("title");
    reveal_strlit("pctVal");
    reveal_strlit("valUSD");
    reveal_strlit("assetCat");
    reveal_strlit("issuerCat");
    reveal_strlit("invCountry");
    reveal_strlit("netAssets");
    reveal_strlit("totAssets");
    reveal_strlit("repPdDate");
    assert("name"@.len() == 4 && "title"@.len() == 5 && "pctVal"@.len() == 6 && "valUSD"@.len() == 6);
    assert("assetCat"@.len() == 8 && "issuerCat"@.len() == 9 && "invCountry"@.len() == 10);
    assert("pctVal"@[0] == 'p' && "valUSD"@[0] == 'v');
    assert("netAssets"@[0] == 'n' && "totAssets"@[0] == 't' && "repPdDate"@[0] == 'r');
    lemma_names_differ("name"@, "title"@);
    lemma_names_differ("name"@, "pctVal"@);
    lemma_names_differ("name"@, "valUSD"@);
    lemma_names_differ("name"@, "assetCat"@);
    lemma_names_differ("name"@, "issuerCat"@);
    lemma_names_differ("name"@, "invCountry"@);
    lemma_names_differ("title"@, "pctVal"@);
    lemma_names_differ("title"@, "valUSD"@);
    lemma_names_differ("title"@, "assetCat"@);
    lemma_names_differ("title"@, "issuerCat"@);
    lemma_names_differ("title"@, "invCountry"@);
    lemma_names_differ("pctVal"@, "valUSD"@);
    lemma_names_differ("pctVal"@, "assetCat"@);
    lemma_names_differ("pctVal"@, "issuerCat"@);
    lemma_names_differ("pctVal"@, "invCountry"@);
    lemma_names_differ("valUSD"@, "assetCat"@);
    lemma_names_differ("valUSD"@, "issuerCat"@);
    lemma_names_differ("valUSD"@, "invCountry"@);
    lemma_names_differ("assetCat"@, "issuerCat"@);
    lemma_names_differ("assetCat"@, "invCountry"@);
    lemma_names_differ("issuerCat"@, "invCountry"@);
    lemma_names_differ("netAssets"@, "totAssets"@);
    lemma_names_differ("netAssets"@, "repPdDate"@);
    lemma_names_differ("totAssets"@, "repPdDate"@);
}

proof fn lemma_holding_fields(events: Seq<XmlItem>, a: int, n: int, h: HoldingAccView)
    requires
        a < n,
        holding_so_far(events, a, n, h),
    ensures
        ({
            let then = |r: Option<Seq<char>>, found: Option<Seq<char>>| if r is Some {
                r
            } else {
                found
            };
            &&& is_first(
                texts_in(events, "name"@),
                a + 1,
                n + 1,
                then(nonempty(h.name), texts_in(events, "name"@)(n)),
            )
            &&& is_first(
                texts_in(events, "title"@),
                a + 1,
                n + 1,
                then(nonempty(h.title), texts_in(events, "title"@)(n)),
            )
            &&& is_first(
                amounts_in(events, "pctVal"@),
                a + 1,
                n + 1,
                then(h.pct, amounts_in(events, "pctVal"@)(n)),
            )
            &&& is_first(
                amounts_in(events, "valUSD"@),
                a + 1,
                n + 1,
                then(h.value, amounts_in(events, "valUSD"@)(n)),
            )
            &&& is_first(
                texts_in(events, "assetCat"@),
                a + 1,
                n + 1,
                then(h.asset_cat, texts_in(events, "assetCat"@)(n)),
            )
            &&& is_first(
                texts_in(events, "issuerCat"@),
                a + 1,
                n + 1,
                then(h.issuer_cat, texts_in(events, "issuerCat"@)(n)),
            )
            &&& is_first(
                texts_in(events, "invCountry"@),
                a + 1,
                n + 1,
                then(h.country, texts_in(events, "invCountry"@)(n)),
            )
        }),
{
    lemma_first_step(texts_in(events, "name"@), a + 1, n, nonempty(h.name));
    lemma_first_step(texts_in(events, "title"@), a + 1, n, nonempty(h.title));
    lemma_first_step(amounts_in(events, "pctVal"@), a + 1, n, h.pct);
    lemma_first_step(amounts_in(events, "valUSD"@), a + 1, n, h.value);
    lemma_first_step(texts_in(events, "assetCat"@), a + 1, n, h.asset_cat);
    lemma_first_step(texts_in(events, "issuerCat"@), a + 1, n, h.issuer_cat);
    lemma_first_step(texts_in(events, "invCountry"@), a + 1, n, h.country);
}

/// One more event inside an open block.
proof fn lemma_holding_step(events: Seq<XmlItem>, a: int, n: int, s: NportState)
    requires
        a < n,
        s.path == open_elements(events, n),
        s.cur matches Some(h) && holding_so_far(events, a, n, h),
        !opens(events[n], "invstOrSec"@),
        !closes(events[n], "invstOrSec"@),
    ensures
        nport_step(s, events[n]).cur matches Some(h) && holding_so_far(events, a, n + 1, h),
{
    lemma_tags();
    lemma_holding_fields(events, a, n, s.cur->0);
}

proof fn lemma_fund_step(events: Seq<XmlItem>, n: int, s: NportState)
    requires
        0 <= n,
        s.path == open_elements(events, n),
        describes_fund(events, n, s.report),
    ensures
        describes_fund(events, n + 1, nport_step(s, events[n]).report),
{
    lemma_tags();
    lemma_first_step(
        amounts_below(events, "fundInfo"@, "netAssets"@),
        0,
        n,
        s.report.net_assets,
    );
    lemma_first_step(
        amounts_below(events, "fundInfo"@, "totAssets"@),
        0,
        n,
        s.report.total_assets,
    );
    lemma_first_step(texts_below(events, "genInfo"@, "repPdDate"@), 0, n, s.report.report_date);
}

spec fn so_far(events: Seq<XmlItem>, n: int, blocks: Seq<(int, int)>, cur: Option<int>) -> bool {
    let s = state_after(events, n);
    &&& lists_blocks(events, "invstOrSec"@, every_block(), blocks, n)
    &&& current_block(events, "invstOrSec"@, n, cur)
    &&& s.path == open_elements(events, n)
    &&& describes_fund(events, n, s.report)
    &&& positions_of_blocks(events, blocks, s.report.positions)
    &&& match cur {
        Some(a) => s.cur matches Some(h) && holding_so_far(events, a, n, h),
        None => s.cur is None,
    }
}

proof fn lemma_so_far(events: Seq<XmlItem>, n: int) -> (w: (Seq<(int, int)>, Option<int>))
    requires
        0 <= n <= events.len(),
    ensures
        so_far(events, n, w.0, w.1),
    decreases n,
{
    let tag = "invstOrSec"@;
    let keep = every_block();
    if n == 0 {
        lemma_blocks_start(events, tag, keep);
        (Seq::empty(), None)
    } else {
        let m = n - 1;
        let (blocks, cur) = lemma_so_far(events, m);
        let s = state_after(events, m);
        let e = events[m];
        lemma_blocks_step(events, tag, keep, blocks, m, cur);
        lemma_fund_step(events, m, s);
        let out = next_blocks(events, tag, keep, blocks, m, cur);
        let next = next_block(events, tag, m, cur);
        let positions = state_after(events, n).report.positions;
        if opens(e, tag) {
            assert(holding_so_far(events, m, n, empty_holding()));
        } else if closes(e, tag) {
            if let Some(a) = cur {
                let h = s.cur->0;
                let last = positions[positions.len() - 1];
                assert(or_nothing(nonempty(h.name)) =~= h.name);
                assert(or_nothing(nonempty(h.title)) =~= h.title);
                assert(describes_position(
                    events,
                    a,
                    m,
                    last,
                    nonempty(h.title),
                    nonempty(h.name),
                    h.issuer_cat,
                    h.country,
                ));
                assert(is_position(events, a, m, last));
                assert forall|k: int| 0 <= k < positions.len() implies is_position(
                    events,
                    out[k].0,
                    out[k].1,
                    #[trigger] positions[k],
                ) by {
                    if k < s.report.positions.len() {
                        assert(positions[k] == s.report.positions[k]);
                    }
                }
            }
        } else if let Some(a) = cur {
            lemma_holding_step(events, a, m, s);
        }
        (out, next)
    }
}

/// A report's net and total assets are the first numbers directly inside
/// `netAssets` and `totAssets`, and these inside `fundInfo`; its date is the first
/// text of `repPdDate` inside `genInfo`. No other text of the document makes a
/// difference to them.
pub proof fn law_fund_of_a_report(events: Seq<XmlItem>)
    requires
        whole_stream(events),
    ensures
        nport_walk(nport_start(), events) matches Some(r) ==> describes_fund(
            events,
            events.len() - 1,
            r,
        ),
        nport_walk(nport_start(), events) is Some <==> events.last() is Eof,
{
    let n = events.len() - 1;
    let (blocks, cur) = lemma_so_far(events, n);
    lemma_walk(events, n);
    assert(events.skip(n)[0] == events[n]);
}

/// The positions of a report are those of its `invstOrSec` blocks, in order and one
/// for each; every field of a position is the first text of its own element inside
/// that block.
pub proof fn law_positions_of_a_report(events: Seq<XmlItem>)
    requires
        whole_stream(events),
    ensures
        nport_walk(nport_start(), events) matches Some(r) ==> exists|blocks: Seq<(int, int)>|
            lists_blocks(events, "invstOrSec"@, every_block(), blocks, events.len() - 1)
                && #[trigger] positions_of_blocks(events, blocks, r.positions),
{
    let n = events.len() - 1;
    let (blocks, cur) = lemma_so_far(events, n);
    lemma_walk(events, n);
    assert(events.skip(n)[0] == events[n]);
    if let Some(r) = nport_walk(nport_start(), events) {
        assert(positions_of_blocks(events, blocks, r.positions));
    }
}

} // verus!
