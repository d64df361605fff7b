use finance::seo::{robots, sitemap};

#[test]
fn sitemap_lists_pages_and_symbols() {
    let tickers: Vec<String> = ["AAPL", "ES=F", "^GSPC", "caf\u{e9} ~x"]
        .iter()
        .map(|s| s.to_string())
        .collect();
    let want = "<?xml version=\"1.0\" encoding=\"UTF-8\"?>\n\
        <urlset xmlns=\"http://www.sitemaps.org/schemas/sitemap/0.9\">\n\
        \u{20} <url><loc>https://x.org/</loc><lastmod>2024-05-06</lastmod></url>\n\
        \u{20} <url><loc>https://x.org/search</loc><lastmod>2024-05-06</lastmod></url>\n\
        \u{20} <url><loc>https://x.org/s/AAPL</loc><lastmod>2024-05-06</lastmod></url>\n\
        \u{20} <url><loc>https://x.org/s/ES%3DF</loc><lastmod>2024-05-06</lastmod></url>\n\
        \u{20} <url><loc>https://x.org/s/%5EGSPC</loc><lastmod>2024-05-06</lastmod></url>\n\
        \u{20} <url><loc>https://x.org/s/caf%C3%A9%20~x</loc><lastmod>2024-05-06</lastmod></url>\n\
        </urlset>\n";
    assert_eq!(sitemap("https://x.org//", &tickers, "2024-05-06"), want);
}

#[test]
fn sitemap_without_an_origin() {
    let out = sitemap("", &vec![], "2024-05-06");
    assert!(out.contains("<loc>/</loc>"));
    assert!(out.contains("<loc>/search</loc>"));
    assert!(sitemap("/", &vec![], "d").contains("<loc>/search</loc>"));
}

#[test]
fn robots_file() {
    assert_eq!(
        robots(),
        "User-agent: *\nAllow: /\nDisallow: /api/\nDisallow: /stream\n"
    );
}
