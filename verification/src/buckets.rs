//! Human-readable buckets for the category codes of fund portfolios.
use vstd::prelude::*;

use crate::text::{begins, same, starts_with};
use crate::tickers::{ascii_uppercase, uppercased};

verus! {

/// The name that a code table gives for `code`: that of its first row.
pub open spec fn named_in(table: Seq<(Seq<char>, Seq<char>)>, code: Seq<char>) -> Option<Seq<char>>
    decreases table.len(),
{
    if table.len() == 0 {
        None
    } else if table[0].0 == code {
        Some(table[0].1)
    } else {
        named_in(table.drop_first(), code)
    }
}

pub open spec fn code_table(v: Seq<(&str, &str)>) -> Seq<(Seq<char>, Seq<char>)> {
    v.map_values(|row: (&str, &str)| (row.0@, row.1@))
}

fn find_name(table: &Vec<(&'static str, &'static str)>, code: &str) -> (r: Option<&'static str>)
    ensures
        (match r {
            Some(s) => Some(s@),
            None => None,
        }) == named_in(code_table(table@), code@),
{
    let ghost views = code_table(table@);
    let mut i: usize = 0;
    assert(views.skip(0) =~= views);
    while i < table.len()
        invariant
            views == code_table(table@),
            i <= views.len(),
            named_in(views, code@) == named_in(views.skip(i as int), code@),
        decreases table.len() - i,
    {
        assert(views.skip(i as int).drop_first() =~= views.skip(i + 1));
        if same(table[i].0, code) {
            return Some(table[i].1);
        }
        i += 1;
    }
    None
}

// ── asset classes ──────────────────────────────────────────────────────────

/// The asset classes of the N-PORT `assetCat` codes that name one.
pub open spec fn asset_codes() -> Seq<(Seq<char>, Seq<char>)> {
    seq![
        ("EC"@, "Equity"@),
        ("EP"@, "Equity"@),
        ("DBT"@, "Bonds"@),
        ("SF"@, "Bonds"@),
        ("STIV"@, "Cash & equivalents"@),
        ("RA"@, "Cash & equivalents"@),
        ("COMM"@, "Commodities"@),
        ("RE"@, "Real estate"@),
        ("LON"@, "Loans"@),
    ]
}

/// The asset class of a code. Asset-backed codes are bonds, and every other code
/// that begins with `D` is a derivative.
pub open spec fn asset_class(cat: Seq<char>) -> Seq<char> {
    match named_in(asset_codes(), cat) {
        Some(name) => name,
        None => if begins(cat, "ABS"@) {
            "Bonds"@
        } else if begins(cat, "D"@) {
            "Derivatives"@
        } else {
            "Other"@
        },
    }
}

/// Maps an N-PORT `assetCat` code to a human asset-class bucket.
pub fn asset_bucket(cat: &str) -> (r: &'static str)
    ensures
        r@ == asset_class(cat@),
{
    let table: Vec<(&'static str, &'static str)> = vec![
        ("EC", "Equity"),
        ("EP", "Equity"),
        ("DBT", "Bonds"),
        ("SF", "Bonds"),
        ("STIV", "Cash & equivalents"),
        ("RA", "Cash & equivalents"),
        ("COMM", "Commodities"),
        ("RE", "Real estate"),
        ("LON", "Loans"),
    ];
    assert(code_table(table@) =~= asset_codes());
    match find_name(&table, cat) {
        Some(name) => name,
        None => if starts_with(cat, "ABS") {
            "Bonds"
        } else if starts_with(cat, "D") {
            "Derivatives"
        } else {
            "Other"
        },
    }
}

// ── sectors ────────────────────────────────────────────────────────────────

/// The sectors of the N-PORT `issuerCat` codes.
pub open spec fn issuer_codes() -> Seq<(Seq<char>, Seq<char>)> {
    seq![
        ("CORP"@, "Corporate"@),
        ("USGSE"@, "US gov't-sponsored"@),
        ("USGA"@, "US government agency"@),
        ("UST"@, "US Treasury"@),
        ("MUN"@, "Municipal"@),
        ("PF"@, "Private fund"@),
        ("RF"@, "Registered fund"@),
        ("ABS"@, "Asset-backed"@),
        (""@, "Unknown"@),
    ]
}

/// The sector of an issuer category.
pub open spec fn sector(cat: Option<Seq<char>>) -> Seq<char> {
    let code = match cat {
        Some(c) => c,
        None => ""@,
    };
    match named_in(issuer_codes(), code) {
        Some(name) => name,
        None => "Other"@,
    }
}

pub open spec fn str_view(o: Option<&str>) -> Option<Seq<char>> {
    match o {
        Some(s) => Some(s@),
        None => None,
    }
}

/// Maps an N-PORT `issuerCat` code to a human-readable sector bucket.
pub fn issuer_bucket(cat: Option<&str>) -> (r: &'static str)
    ensures
        r@ == sector(str_view(cat)),
{
    let table: Vec<(&'static str, &'static str)> = vec![
        ("CORP", "Corporate"),
        ("USGSE", "US gov't-sponsored"),
        ("USGA", "US government agency"),
        ("UST", "US Treasury"),
        ("MUN", "Municipal"),
        ("PF", "Private fund"),
        ("RF", "Registered fund"),
        ("ABS", "Asset-backed"),
        ("", "Unknown"),
    ];
    assert(code_table(table@) =~= issuer_codes());
    let code = match cat {
        Some(c) => c,
        None => "",
    };
    match find_name(&table, code) {
        Some(name) => name,
        None => "Other",
    }
}

// ── countries ──────────────────────────────────────────────────────────────

/// The names of the countries most seen in US-listed portfolios, by their
/// ISO-3166-1 alpha-2 codes.
pub open spec fn country_codes() -> Seq<(Seq<char>, Seq<char>)> {
    seq![
        ("US"@, "United States"@),
        ("CA"@, "Canada"@),
        ("GB"@, "United Kingdom"@),
        ("DE"@, "Germany"@),
        ("FR"@, "France"@),
        ("CH"@, "Switzerland"@),
        ("NL"@, "Netherlands"@),
        ("IE"@, "Ireland"@),
        ("LU"@, "Luxembourg"@),
        ("IT"@, "Italy"@),
        ("ES"@, "Spain"@),
        ("SE"@, "Sweden"@),
        ("NO"@, "Norway"@),
        ("DK"@, "Denmark"@),
        ("FI"@, "Finland"@),
        ("BE"@, "Belgium"@),
        ("AT"@, "Austria"@),
        ("JP"@, "Japan"@),
        ("CN"@, "China"@),
        ("HK"@, "Hong Kong"@),
        ("TW"@, "Taiwan"@),
        ("KR"@, "South Korea"@),
        ("IN"@, "India"@),
        ("SG"@, "Singapore"@),
        ("AU"@, "Australia"@),
        ("NZ"@, "New Zealand"@),
        ("BR"@, "Brazil"@),
        ("MX"@, "Mexico"@),
        ("ZA"@, "South Africa"@),
        ("IL"@, "Israel"@),
        ("AE"@, "United Arab Emirates"@),
        ("BM"@, "Bermuda"@),
        ("KY"@, "Cayman Islands"@),
        (""@, "Unknown"@),
    ]
}

/// The display name of a country code in any case; a code without one stands
/// for itself, in upper case.
pub open spec fn country(code: Option<Seq<char>>) -> Seq<char> {
    let upper = uppercased(
        match code {
            Some(c) => c,
            None => ""@,
        },
    );
    match named_in(country_codes(), upper) {
        Some(name) => name,
        None => upper,
    }
}

/// Maps an issuer country's ISO-3166-1 alpha-2 code to a display name. The long
/// tail falls through to the code itself, in upper case.
pub fn country_bucket(code: Option<&str>) -> (r: String)
    ensures
        r@ == country(str_view(code)),
{
    let table: Vec<(&'static str, &'static str)> = vec![
        ("US", "United States"),
        ("CA", "Canada"),
        ("GB", "United Kingdom"),
        ("DE", "Germany"),
        ("FR", "France"),
        ("CH", "Switzerland"),
        ("NL", "Netherlands"),
        ("IE", "Ireland"),
        ("LU", "Luxembourg"),
        ("IT", "Italy"),
        ("ES", "Spain"),
        ("SE", "Sweden"),
        ("NO", "Norway"),
        ("DK", "Denmark"),
        ("FI", "Finland"),
        ("BE", "Belgium"),
        ("AT", "Austria"),
        ("JP", "Japan"),
        ("CN", "China"),
        ("HK", "Hong Kong"),
        ("TW", "Taiwan"),
        ("KR", "South Korea"),
        ("IN", "India"),
        ("SG", "Singapore"),
        ("AU", "Australia"),
        ("NZ", "New Zealand"),
        ("BR", "Brazil"),
        ("MX", "Mexico"),
        ("ZA", "South Africa"),
        ("IL", "Israel"),
        ("AE", "United Arab Emirates"),
        ("BM", "Bermuda"),
        ("KY", "Cayman Islands"),
        ("", "Unknown"),
    ];
    assert(code_table(table@) =~= country_codes());
    let raw = match code {
        Some(c) => c,
        None => "",
    };
    let upper = ascii_uppercase(raw);
    match find_name(&table, upper.as_str()) {
        Some(name) => name.to_owned(),
        None => upper,
    }
}

} // verus!
