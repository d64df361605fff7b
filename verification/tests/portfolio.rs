use finance::buckets::{asset_bucket, country_bucket, issuer_bucket};
use finance::nport::{parse_nport, PortfolioReport};
use finance::portfolio::{
    group_positions, mix_order, rank_descending, top_holdings, total_order_key, INFINITY_KEY,
    MIX_FLOOR_KEY,
};

fn key(x: f64) -> i64 {
    total_order_key(x.to_bits())
}

const REPORT: &str = r#"<?xml version="1.0" encoding="UTF-8"?>
<edgarSubmission xmlns="http://www.sec.gov/edgar/nport">
  <formData>
    <genInfo><repPdDate>2024-09-30</repPdDate><netAssets>1</netAssets></genInfo>
    <fundInfo>
      <totAssets>n/a</totAssets><totAssets>2000.5</totAssets><netAssets> 1900.25 </netAssets><netAssets>7</netAssets>
    </fundInfo>
    <invstOrSecs>
      <invstOrSec>
        <name>APPLE INC</name><title>Apple Inc. &amp; Co</title><balance>3</balance>
        <valUSD>100.0</valUSD><pctVal>5.2</pctVal>
        <assetCat>EC</assetCat><issuerCat>CORP</issuerCat><invCountry>US</invCountry>
        <nested><name>OTHER</name><pctVal>99</pctVal></nested>
      </invstOrSec>
      <n:invstOrSec xmlns:n="x">
        <name>UST 2030</name><pctVal>bad</pctVal><pctVal>1e1</pctVal>
        <assetCat>DBT</assetCat><issuerCat>UST</issuerCat><invCountry>us</invCountry>
      </n:invstOrSec>
      <invstOrSec><title>Mystery</title></invstOrSec>
    </invstOrSecs>
  </formData>
</edgarSubmission>"#;

fn report() -> PortfolioReport {
    match parse_nport(REPORT.as_bytes()) {
        Ok(r) => r,
        Err(_) => panic!("well-formed"),
    }
}

#[test]
fn fund_level_fields() {
    let r = report();
    assert_eq!(r.report_date.as_deref(), Some("2024-09-30"));
    assert_eq!(r.net_assets.as_deref(), Some("1900.25"));
    assert_eq!(r.total_assets.as_deref(), Some("2000.5"));
}

#[test]
fn positions_of_a_report() {
    let r = report();
    assert_eq!(r.positions.len(), 3);
    let a = &r.positions[0];
    assert_eq!(a.holding.name, "Apple Inc. & Co");
    assert_eq!(a.holding.pct.as_deref(), Some("5.2"));
    assert_eq!(a.holding.value_usd.as_deref(), Some("100.0"));
    assert_eq!(
        (a.asset_class.as_str(), a.sector.as_str(), a.country.as_str()),
        ("Equity", "Corporate", "United States")
    );
    let b = &r.positions[1];
    assert_eq!(b.holding.name, "UST 2030");
    assert_eq!(b.holding.pct.as_deref(), Some("1e1"));
    assert_eq!(
        (b.asset_class.as_str(), b.sector.as_str(), b.country.as_str()),
        ("Bonds", "US Treasury", "United States")
    );
    let c = &r.positions[2];
    assert_eq!(c.holding.name, "Mystery");
    assert_eq!(c.holding.pct, None);
    assert_eq!(
        (c.asset_class.as_str(), c.sector.as_str(), c.country.as_str()),
        ("Other", "Unknown", "Unknown")
    );
}

#[test]
fn malformed_report_is_an_error() {
    assert!(parse_nport(b"<a></b>").is_err());
    match parse_nport(b"") {
        Ok(r) => assert!(r.positions.is_empty()),
        Err(_) => panic!("an empty document is read to its end"),
    }
}

#[test]
fn asset_classes() {
    for (code, name) in [
        ("EC", "Equity"),
        ("EP", "Equity"),
        ("DBT", "Bonds"),
        ("SF", "Bonds"),
        ("ABS-MBS", "Bonds"),
        ("STIV", "Cash & equivalents"),
        ("RA", "Cash & equivalents"),
        ("COMM", "Commodities"),
        ("RE", "Real estate"),
        ("LON", "Loans"),
        ("DFE", "Derivatives"),
        ("XYZ", "Other"),
        ("", "Other"),
    ] {
        assert_eq!(asset_bucket(code), name);
    }
}

#[test]
fn sectors_and_countries() {
    for (code, name) in [
        ("CORP", "Corporate"),
        ("USGSE", "US gov't-sponsored"),
        ("USGA", "US government agency"),
        ("UST", "US Treasury"),
        ("MUN", "Municipal"),
        ("PF", "Private fund"),
        ("RF", "Registered fund"),
        ("ABS", "Asset-backed"),
        ("", "Unknown"),
        ("corp", "Other"),
    ] {
        assert_eq!(issuer_bucket(Some(code)), name);
    }
    assert_eq!(issuer_bucket(None), "Unknown");
    for (code, name) in [
        ("us", "United States"),
        ("Kr", "South Korea"),
        ("AE", "United Arab Emirates"),
        ("KY", "Cayman Islands"),
        ("", "Unknown"),
        ("pl", "PL"),
    ] {
        assert_eq!(country_bucket(Some(code)), name);
    }
    assert_eq!(country_bucket(None), "Unknown");
}

#[test]
fn keys_order_as_the_numbers_do() {
    let sorted = [
        f64::NEG_INFINITY,
        -2.5,
        -1.0,
        -0.0,
        0.0,
        f64::MIN_POSITIVE,
        0.05,
        1.0,
        1e300,
        f64::INFINITY,
        f64::NAN,
    ];
    for i in 1..sorted.len() {
        assert!(key(sorted[i - 1]) < key(sorted[i]));
    }
    assert_eq!(key(0.05), MIX_FLOOR_KEY);
    assert_eq!(key(f64::INFINITY), INFINITY_KEY);
}

#[test]
fn ranking_is_stable_and_descending() {
    let keys: Vec<i64> = [1.0, 3.0, 2.0, 3.0, -1.0].iter().map(|x| key(*x)).collect();
    assert_eq!(rank_descending(&keys), vec![1, 3, 2, 0, 4]);
    let many: Vec<i64> = (0..30).collect();
    let top = top_holdings(&many);
    assert_eq!(top.len(), 25);
    assert_eq!((top[0], top[24]), (29, 5));
}

#[test]
fn mixes_drop_the_residue() {
    let keys: Vec<i64> = [0.04999, 0.05, 60.0, f64::NAN, -3.0, 39.9]
        .iter()
        .map(|x| key(*x))
        .collect();
    assert_eq!(mix_order(&keys), vec![2, 5, 1]);
}

#[test]
fn positions_by_bucket() {
    let labels: Vec<String> = ["Equity", "Bonds", "Equity", "Other", "Bonds"]
        .iter()
        .map(|s| s.to_string())
        .collect();
    let buckets = group_positions(&labels);
    let got: Vec<(&str, Vec<usize>)> = buckets
        .iter()
        .map(|b| (b.label.as_str(), b.members.clone()))
        .collect();
    assert_eq!(
        got,
        vec![("Equity", vec![0, 2]), ("Bonds", vec![1, 4]), ("Other", vec![3])]
    );
}
