use finance::tickers::{ascii_uppercase, normalize_ticker};

#[test]
fn normalize_ticker_strips_punctuation() {
    assert_eq!(normalize_ticker("BRK.B"), "BRKB");
    assert_eq!(normalize_ticker("BF-B"), "BFB");
    assert_eq!(normalize_ticker("aapl"), "AAPL");
}

#[test]
fn normalizing_twice_changes_nothing() {
    for t in ["BRK.B", "brk-b", "^GSPC", "ES=F", "\u{df}x\u{e9}1", ""] {
        let once = normalize_ticker(t);
        assert_eq!(normalize_ticker(&once), once);
        assert!(once
            .chars()
            .all(|c| c.is_ascii_uppercase() || c.is_ascii_digit()));
    }
    assert_eq!(normalize_ticker("\u{df}x\u{e9}1"), "X1");
    assert_eq!(ascii_uppercase("\u{df}x\u{e9}1"), "\u{df}X\u{e9}1");
}
