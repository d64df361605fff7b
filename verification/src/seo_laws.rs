//! What stands in the sitemap, page by page.
use vstd::prelude::*;
use vstd::utf8::encode_utf8;

use crate::seo::{
    encoded_byte, encoded_bytes, hex_digit, site_base, sitemap_text, symbol_lines, unreserved,
};
use crate::text_laws::law_strip_trailing;

verus! {

/// Every page's address begins with the site's origin and one slash, however many
/// the origin was written with; without an origin it begins at the root.
pub proof fn law_site_base(origin: Seq<char>)
    ensures
        site_base(Seq::empty()) == "/"@,
        origin.len() > 0 && origin.last() != '/' ==> site_base(origin) == origin + "/"@,
        origin.len() > 0 ==> site_base(origin.push('/')) == site_base(origin),
{
    if origin.len() > 0 {
        let n = law_strip_trailing(origin, '/');
        let m = law_strip_trailing(origin.push('/'), '/');
        assert(origin.push('/').drop_last() =~= origin);
        if origin.last() != '/' {
            if n < origin.len() {
                assert(origin[origin.len() - 1] == '/');
            }
            assert(origin.take(n) =~= origin);
        }
    }
}

/// The line of a page.
pub open spec fn url_line(base: Seq<char>, page: Seq<char>, today: Seq<char>) -> Seq<char> {
    "  <url><loc>"@ + base + page + "</loc><lastmod>"@ + today + "</lastmod></url>\n"@
}

proof fn lemma_add(a: Seq<char>, b: Seq<char>, c: Seq<char>)
    ensures
        a + (b + c) == (a + b) + c,
        a + Seq::<char>::empty() == a,
{
    assert(a + (b + c) =~= (a + b) + c);
    assert(a + Seq::<char>::empty() =~= a);
}

/// A sitemap without symbols lists the home page and the search page. Each symbol
/// adds one line at the end of the list: its page below `s/`, its name encoded, and
/// the date.
pub proof fn law_sitemap(
    origin: Seq<char>,
    tickers: Seq<Seq<char>>,
    ticker: Seq<char>,
    today: Seq<char>,
) -> (list: Seq<char>)
    ensures
        sitemap_text(origin, tickers, today) == list + "</urlset>\n"@,
        sitemap_text(origin, tickers.push(ticker), today) == list + url_line(
            site_base(origin),
            "s/"@ + encoded_bytes(encode_utf8(ticker)),
            today,
        ) + "</urlset>\n"@,
        tickers.len() == 0 ==> list
            == "<?xml version=\"1.0\" encoding=\"UTF-8\"?>\n<urlset xmlns=\"http://www.sitemaps.org/schemas/sitemap/0.9\">\n"@
            + url_line(site_base(origin), ""@, today) + url_line(
            site_base(origin),
            "search"@,
            today,
        ),
{
    let base = site_base(origin);
    let pages =
        "<?xml version=\"1.0\" encoding=\"UTF-8\"?>\n<urlset xmlns=\"http://www.sitemaps.org/schemas/sitemap/0.9\">\n"@
        + url_line(base, ""@, today) + url_line(base, "search"@, today);
    let lines = symbol_lines(base, tickers, today);
    let line = url_line(base, "s/"@ + encoded_bytes(encode_utf8(ticker)), today);
    let more = tickers.push(ticker);
    assert(more.drop_last() =~= tickers);
    assert(symbol_lines(base, more, today) == lines + line);
    lemma_add(pages, lines, line);
    if tickers.len() == 0 {
        assert(lines == Seq::<char>::empty());
    }
    pages + lines
}

// ── reading an encoded name back ───────────────────────────────────────────

/// The value of a hexadecimal digit.
pub open spec fn hex_value(c: char) -> int {
    if 48 <= c as u32 <= 57 {
        c as u32 - 48
    } else {
        c as u32 - 55
    }
}

/// The bytes that an encoded text stands for.
pub open spec fn decoded(s: Seq<char>) -> Seq<u8>
    decreases s.len(),
{
    if s.len() == 0 {
        Seq::empty()
    } else if s[0] == '%' && s.len() >= 3 {
        seq![(hex_value(s[1]) * 16 + hex_value(s[2])) as u8] + decoded(s.skip(3))
    } else {
        seq![s[0] as u8] + decoded(s.skip(1))
    }
}

proof fn lemma_hex(d: int)
    requires
        0 <= d < 16,
    ensures
        hex_value(hex_digit(d)) == d,
{
    assert(hex_digit(0) == '0' && hex_digit(1) == '1' && hex_digit(2) == '2' && hex_digit(3) == '3'
        && hex_digit(4) == '4' && hex_digit(5) == '5' && hex_digit(6) == '6' && hex_digit(7)
        == '7' && hex_digit(8) == '8' && hex_digit(9) == '9' && hex_digit(10) == 'A' && hex_digit(11)
        == 'B' && hex_digit(12) == 'C' && hex_digit(13) == 'D' && hex_digit(14) == 'E' && hex_digit(
        15,
    ) == 'F');
}

proof fn lemma_decode_byte(b: u8, rest: Seq<char>)
    ensures
        decoded(encoded_byte(b) + rest) == seq![b] + decoded(rest),
{
    let s = encoded_byte(b) + rest;
    if unreserved(b) {
        assert(s.skip(1) =~= rest);
        assert(s[0] == b as char);
        assert(b as char as u8 == b);
        assert(b as char != '%');
    } else {
        let hi = b as int / 16;
        let lo = b as int % 16;
        assert(0 <= hi < 16 && 0 <= lo < 16 && hi * 16 + lo == b);
        lemma_hex(hi);
        lemma_hex(lo);
        assert(s.skip(3) =~= rest);
        assert(s[0] == '%' && s[1] == hex_digit(hi) && s[2] == hex_digit(lo));
    }
}

proof fn lemma_decode_bytes(bytes: Seq<u8>, rest: Seq<char>)
    ensures
        decoded(encoded_bytes(bytes) + rest) == bytes + decoded(rest),
    decreases bytes.len(),
{
    if bytes.len() > 0 {
        let head = bytes.drop_last();
        let b = bytes.last();
        lemma_decode_byte(b, rest);
        lemma_decode_bytes(head, encoded_byte(b) + rest);
        assert(encoded_bytes(bytes) + rest =~= encoded_bytes(head) + (encoded_byte(b) + rest));
        assert(bytes + decoded(rest) =~= head + (seq![b] + decoded(rest)));
    } else {
        assert(encoded_bytes(bytes) + rest =~= rest);
        assert(bytes + decoded(rest) =~= decoded(rest));
    }
}

/// An encoded name reads back as itself: no two symbols share a page.
pub proof fn law_encoding_reads_back(bytes: Seq<u8>)
    ensures
        decoded(encoded_bytes(bytes)) == bytes,
{
    lemma_decode_bytes(bytes, Seq::empty());
    assert(encoded_bytes(bytes) + Seq::<char>::empty() =~= encoded_bytes(bytes));
    assert(bytes + decoded(Seq::<char>::empty()) =~= bytes);
}

} // verus!
