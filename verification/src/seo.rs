//! Pages for crawlers: the sitemap and the robots file.
use vstd::prelude::*;
use vstd::utf8::encode_utf8;

use crate::quotes::texts;
use crate::text::{strip_trailing, without_trailing};

verus! {

// ── percent-encoding ───────────────────────────────────────────────────────

/// The bytes that stand for themselves in a URL: ASCII letters and digits, and
/// `-`, `_`, `.`, `~`.
pub open spec fn unreserved(b: u8) -> bool {
    ||| 48 <= b <= 57
    ||| 65 <= b <= 90
    ||| 97 <= b <= 122
    ||| b == 45
    ||| b == 95
    ||| b == 46
    ||| b == 126
}

/// A hexadecimal digit, in upper case.
pub open spec fn hex_digit(d: int) -> char {
    if d < 10 {
        (48 + d) as u8 as char
    } else {
        (55 + d) as u8 as char
    }
}

/// How a byte is written in a URL.
pub open spec fn encoded_byte(b: u8) -> Seq<char> {
    if unreserved(b) {
        seq![b as char]
    } else {
        seq!['%', hex_digit(b as int / 16), hex_digit(b as int % 16)]
    }
}

/// How a byte string is written in a URL.
pub open spec fn encoded_bytes(bytes: Seq<u8>) -> Seq<char>
    decreases bytes.len(),
{
    if bytes.len() == 0 {
        Seq::empty()
    } else {
        encoded_bytes(bytes.drop_last()) + encoded_byte(bytes.last())
    }
}

/// `urlencoding::encode`: every byte of the text's UTF-8 form but the unreserved
/// ones becomes a percent sign and two upper-case hexadecimal digits.
#[verifier::external_body]
fn percent_encode(s: &str) -> (r: String)
    ensures
        r@ == encoded_bytes(encode_utf8(s@)),
{
    urlencoding::encode(s).into_owned()
}

/// The characters that a URL component is written in.
pub open spec fn url_safe(c: char) -> bool {
    c == '%' || (c as u32 <= 127 && unreserved(c as u8))
}

/// An encoded text holds only characters that are safe in a URL, and so none
/// that would have to be escaped in XML.
pub proof fn law_encoded_is_safe(bytes: Seq<u8>, i: int)
    requires
        0 <= i < encoded_bytes(bytes).len(),
    ensures
        url_safe(encoded_bytes(bytes)[i]),
        encoded_bytes(bytes)[i] != '&',
        encoded_bytes(bytes)[i] != '<',
        encoded_bytes(bytes)[i] != '/',
    decreases bytes.len(),
{
    let before = encoded_bytes(bytes.drop_last());
    if i < before.len() {
        law_encoded_is_safe(bytes.drop_last(), i);
    } else {
        let b = bytes.last();
        assert(0 <= b as int / 16 < 16 && 0 <= b as int % 16 < 16);
        lemma_byte_is_safe(b, i - before.len());
        assert(encoded_bytes(bytes)[i] == encoded_byte(b)[i - before.len()]);
    }
}

proof fn lemma_byte_is_safe(b: u8, k: int)
    requires
        0 <= k < encoded_byte(b).len(),
    ensures
        url_safe(encoded_byte(b)[k]),
{
    assert(0 <= b as int / 16 < 16 && 0 <= b as int % 16 < 16);
}

// ── the sitemap ────────────────────────────────────────────────────────────

/// The prefix of every page's address: the site's origin with one slash behind
/// it, or the root where no origin is configured.
pub open spec fn site_base(base_url: Seq<char>) -> Seq<char> {
    if base_url.len() == 0 {
        "/"@
    } else {
        without_trailing(base_url, '/') + "/"@
    }
}

/// One page's line.
pub open spec fn page_line(base: Seq<char>, page: Seq<char>, today: Seq<char>) -> Seq<char> {
    "  <url><loc>"@ + base + page + "</loc><lastmod>"@ + today + "</lastmod></url>\n"@
}

/// The address of a symbol's page, below the site's.
pub open spec fn symbol_page(ticker: Seq<char>) -> Seq<char> {
    "s/"@ + encoded_bytes(encode_utf8(ticker))
}

/// The lines of the symbols' pages.
pub open spec fn symbol_lines(
    base: Seq<char>,
    tickers: Seq<Seq<char>>,
    today: Seq<char>,
) -> Seq<char>
    decreases tickers.len(),
{
    if tickers.len() == 0 {
        Seq::empty()
    } else {
        symbol_lines(base, tickers.drop_last(), today) + page_line(
            base,
            symbol_page(tickers.last()),
            today,
        )
    }
}

/// The whole sitemap: the static pages, then one entry per symbol.
pub open spec fn sitemap_text(
    base_url: Seq<char>,
    tickers: Seq<Seq<char>>,
    today: Seq<char>,
) -> Seq<char> {
    let base = site_base(base_url);
    "<?xml version=\"1.0\" encoding=\"UTF-8\"?>\n<urlset xmlns=\"http://www.sitemaps.org/schemas/sitemap/0.9\">\n"@
        + page_line(base, ""@, today) + page_line(base, "search"@, today) + symbol_lines(
        base,
        tickers,
        today,
    ) + "</urlset>\n"@
}

fn append_page(out: &mut String, base: &str, page: &str, today: &str)
    ensures
        final(out)@ == old(out)@ + page_line(base@, page@, today@),
{
    let ghost before = out@;
    out.append("  <url><loc>");
    out.append(base);
    out.append(page);
    out.append("</loc><lastmod>");
    out.append(today);
    out.append("</lastmod></url>\n");
    assert(out@ =~= before + page_line(base@, page@, today@));
}

/// The sitemap of the site at `base_url`. `today` is the date that every entry
/// carries.
pub fn sitemap(base_url: &str, tickers: &Vec<String>, today: &str) -> (r: String)
    ensures
        r@ == sitemap_text(base_url@, texts(tickers@), today@),
{
    let base = if base_url.is_empty() {
        "/".to_owned()
    } else {
        let mut b = strip_trailing(base_url, '/');
        b.append("/");
        b
    };
    let mut out =
        "<?xml version=\"1.0\" encoding=\"UTF-8\"?>\n<urlset xmlns=\"http://www.sitemaps.org/schemas/sitemap/0.9\">\n".to_owned();
    append_page(&mut out, base.as_str(), "", today);
    append_page(&mut out, base.as_str(), "search", today);
    let ghost head = out@;
    let ghost all = texts(tickers@);
    let mut i: usize = 0;
    assert(out@ =~= head + symbol_lines(base@, all.take(0), today@));
    while i < tickers.len()
        invariant
            i <= tickers@.len(),
            all == texts(tickers@),
            out@ == head + symbol_lines(base@, all.take(i as int), today@),
        decreases tickers.len() - i,
    {
        let mut page = "s/".to_owned();
        page.append(percent_encode(tickers[i].as_str()).as_str());
        append_page(&mut out, base.as_str(), page.as_str(), today);
        assert(all.take(i + 1).drop_last() =~= all.take(i as int));
        assert(out@ =~= head + symbol_lines(base@, all.take(i + 1), today@));
        i += 1;
    }
    assert(all.take(all.len() as int) =~= all);
    out.append("</urlset>\n");
    out
}

// ── the rest ───────────────────────────────────────────────────────────────

/// The robots file: crawlers stay off the JSON API and the event stream, which
/// holds a connection open per hit.
pub fn robots() -> (r: &'static str)
    ensures
        r@ == "User-agent: *\nAllow: /\nDisallow: /api/\nDisallow: /stream\n"@,
{
    "User-agent: *\nAllow: /\nDisallow: /api/\nDisallow: /stream\n"
}

} // verus!
