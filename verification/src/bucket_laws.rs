//! What the buckets of a fund's mixes hold, said of the codes.
use vstd::prelude::*;

use crate::buckets::{
    asset_class, asset_codes, country, country_codes, named_in, sector,
};
use crate::text::begins;
use crate::tickers::uppercased;

verus! {

/// The codes of each asset class: those of shares, of debt (asset-backed codes too),
/// of cash, and so on; every code that begins with `D`, but for plain debt, is a
/// derivative; any other code is in no class.
pub proof fn law_asset_classes(cat: Seq<char>)
    ensures
        asset_class(cat) == "Equity"@ <==> cat == "EC"@ || cat == "EP"@,
        asset_class(cat) == "Bonds"@ <==> cat == "DBT"@ || cat == "SF"@ || begins(cat, "ABS"@),
        asset_class(cat) == "Cash & equivalents"@ <==> cat == "STIV"@ || cat == "RA"@,
        asset_class(cat) == "Commodities"@ <==> cat == "COMM"@,
        asset_class(cat) == "Real estate"@ <==> cat == "RE"@,
        asset_class(cat) == "Loans"@ <==> cat == "LON"@,
        asset_class(cat) == "Derivatives"@ <==> cat.len() > 0 && cat[0] == 'D' && cat != "DBT"@,
{
    reveal_strlit("EC");
    reveal_strlit("EP");
    reveal_strlit("DBT");
    reveal_strlit("SF");
    reveal_strlit("STIV");
    reveal_strlit("RA");
    reveal_strlit("COMM");
    reveal_strlit("RE");
    reveal_strlit("LON");
    reveal_strlit("ABS");
    reveal_strlit("D");
    reveal_strlit("Equity");
    reveal_strlit("Bonds");
    reveal_strlit("Cash & equivalents");
    reveal_strlit("Commodities");
    reveal_strlit("Real estate");
    reveal_strlit("Loans");
    reveal_strlit("Derivatives");
    reveal_strlit("Other");
    assert("Equity"@[0] == 'E' && "Bonds"@[0] == 'B' && "Cash & equivalents"@[1] == 'a'
        && "Commodities"@[1] == 'o' && "Cash & equivalents"@[0] == 'C' && "Commodities"@[0] == 'C'
        && "Real estate"@[0] == 'R' && "Loans"@[0] == 'L' && "Derivatives"@[0] == 'D'
        && "Other"@[0] == 'O');
    assert("EC"@[0] == 'E' && "EP"@[0] == 'E' && "DBT"@[0] == 'D' && "SF"@[0] == 'S' && "STIV"@[0]
        == 'S' && "RA"@[0] == 'R' && "COMM"@[0] == 'C' && "RE"@[0] == 'R' && "LON"@[0] == 'L');
    assert("EC"@[1] == 'C' && "EP"@[1] == 'P' && "SF"@[1] == 'F' && "STIV"@[1] == 'T' && "RA"@[1]
        == 'A' && "RE"@[1] == 'E');
    if begins(cat, "ABS"@) {
        assert(cat.take(3)[0] == 'A');
        assert(cat[0] == 'A');
    }
    if cat.len() > 0 && cat[0] == 'D' {
        assert(cat.take(1) =~= "D"@);
    }
    if begins(cat, "D"@) {
        assert(cat.take(1)[0] == 'D');
    }
    lemma_asset_rows(cat);
}

proof fn lemma_asset_rows(cat: Seq<char>)
    ensures
        named_in(asset_codes(), cat) == (if cat == "EC"@ || cat == "EP"@ {
            Some("Equity"@)
        } else if cat == "DBT"@ || cat == "SF"@ {
            Some("Bonds"@)
        } else if cat == "STIV"@ || cat == "RA"@ {
            Some("Cash & equivalents"@)
        } else if cat == "COMM"@ {
            Some("Commodities"@)
        } else if cat == "RE"@ {
            Some("Real estate"@)
        } else if cat == "LON"@ {
            Some("Loans"@)
        } else {
            None
        }),
{
    reveal_with_fuel(named_in, 10);
}

/// The codes of each sector; a missing or empty code is unknown, and a code of no
/// sector is another one.
pub proof fn law_sectors(code: Seq<char>)
    ensures
        sector(None) == "Unknown"@,
        sector(Some(code)) == "Unknown"@ <==> code.len() == 0,
        sector(Some(code)) == "Corporate"@ <==> code == "CORP"@,
        sector(Some(code)) == "US gov't-sponsored"@ <==> code == "USGSE"@,
        sector(Some(code)) == "US government agency"@ <==> code == "USGA"@,
        sector(Some(code)) == "US Treasury"@ <==> code == "UST"@,
        sector(Some(code)) == "Municipal"@ <==> code == "MUN"@,
        sector(Some(code)) == "Private fund"@ <==> code == "PF"@,
        sector(Some(code)) == "Registered fund"@ <==> code == "RF"@,
        sector(Some(code)) == "Asset-backed"@ <==> code == "ABS"@,
{
    reveal_strlit("CORP");
    reveal_strlit("USGSE");
    reveal_strlit("USGA");
    reveal_strlit("UST");
    reveal_strlit("MUN");
    reveal_strlit("PF");
    reveal_strlit("RF");
    reveal_strlit("ABS");
    reveal_strlit("");
    reveal_strlit("Corporate");
    reveal_strlit("US gov't-sponsored");
    reveal_strlit("US government agency");
    reveal_strlit("US Treasury");
    reveal_strlit("Municipal");
    reveal_strlit("Private fund");
    reveal_strlit("Registered fund");
    reveal_strlit("Asset-backed");
    reveal_strlit("Unknown");
    reveal_strlit("Other");
    assert("Corporate"@.len() == 9 && "US gov't-sponsored"@.len() == 18
        && "US government agency"@.len() == 20 && "US Treasury"@.len() == 11 && "Municipal"@.len()
        == 9 && "Private fund"@.len() == 12 && "Registered fund"@.len() == 15
        && "Asset-backed"@.len() == 12 && "Unknown"@.len() == 7 && "Other"@.len() == 5);
    assert("Corporate"@[0] == 'C' && "Municipal"@[0] == 'M' && "Private fund"@[0] == 'P'
        && "Asset-backed"@[0] == 'A');
    assert("CORP"@.len() == 4 && "USGSE"@.len() == 5 && "USGA"@.len() == 4 && "UST"@.len() == 3
        && "MUN"@.len() == 3 && "PF"@.len() == 2 && "RF"@.len() == 2 && "ABS"@.len() == 3 && ""@.len()
        == 0);
    assert("CORP"@[0] == 'C' && "USGA"@[0] == 'U' && "UST"@[0] == 'U' && "MUN"@[0] == 'M' && "PF"@[0]
        == 'P' && "RF"@[0] == 'R' && "ABS"@[0] == 'A');
    if code.len() == 0 {
        assert(code =~= ""@);
    }
    reveal_with_fuel(named_in, 10);
}

/// The two letters of a code.
pub open spec fn letters(code: Seq<char>, a: char, b: char) -> bool {
    code.len() == 2 && code[0] == a && code[1] == b
}

/// The country that the two letters of an upper-case code stand for.
pub open spec fn country_of_letters(code: Seq<char>) -> Option<Seq<char>> {
    if code.len() == 0 {
        Some("Unknown"@)
    } else if letters(code, 'U', 'S') {
        Some("United States"@)
    } else if letters(code, 'C', 'A') {
        Some("Canada"@)
    } else if letters(code, 'G', 'B') {
        Some("United Kingdom"@)
    } else if letters(code, 'D', 'E') {
        Some("Germany"@)
    } else if letters(code, 'F', 'R') {
        Some("France"@)
    } else if letters(code, 'C', 'H') {
        Some("Switzerland"@)
    } else if letters(code, 'N', 'L') {
        Some("Netherlands"@)
    } else if letters(code, 'I', 'E') {
        Some("Ireland"@)
    } else if letters(code, 'L', 'U') {
        Some("Luxembourg"@)
    } else if letters(code, 'I', 'T') {
        Some("Italy"@)
    } else if letters(code, 'E', 'S') {
        Some("Spain"@)
    } else if letters(code, 'S', 'E') {
        Some("Sweden"@)
    } else if letters(code, 'N', 'O') {
        Some("Norway"@)
    } else if letters(code, 'D', 'K') {
        Some("Denmark"@)
    } else if letters(code, 'F', 'I') {
        Some("Finland"@)
    } else if letters(code, 'B', 'E') {
        Some("Belgium"@)
    } else if letters(code, 'A', 'T') {
        Some("Austria"@)
    } else if letters(code, 'J', 'P') {
        Some("Japan"@)
    } else if letters(code, 'C', 'N') {
        Some("China"@)
    } else if letters(code, 'H', 'K') {
        Some("Hong Kong"@)
    } else if letters(code, 'T', 'W') {
        Some("Taiwan"@)
    } else if letters(code, 'K', 'R') {
        Some("South Korea"@)
    } else if letters(code, 'I', 'N') {
        Some("India"@)
    } else if letters(code, 'S', 'G') {
        Some("Singapore"@)
    } else if letters(code, 'A', 'U') {
        Some("Australia"@)
    } else if letters(code, 'N', 'Z') {
        Some("New Zealand"@)
    } else if letters(code, 'B', 'R') {
        Some("Brazil"@)
    } else if letters(code, 'M', 'X') {
        Some("Mexico"@)
    } else if letters(code, 'Z', 'A') {
        Some("South Africa"@)
    } else if letters(code, 'I', 'L') {
        Some("Israel"@)
    } else if letters(code, 'A', 'E') {
        Some("United Arab Emirates"@)
    } else if letters(code, 'B', 'M') {
        Some("Bermuda"@)
    } else if letters(code, 'K', 'Y') {
        Some("Cayman Islands"@)
    } else {
        None
    }
}

proof fn lemma_letters(code: Seq<char>, listed: Seq<char>, a: char, b: char)
    requires
        letters(listed, a, b),
    ensures
        code == listed <==> letters(code, a, b),
{
    if letters(code, a, b) {
        assert(code =~= listed);
    }
}

#[verifier::rlimit(60)]
proof fn lemma_country_rows(code: Seq<char>)
    ensures
        named_in(country_codes(), code) == country_of_letters(code),
{
    reveal_strlit("US");
    reveal_strlit("CA");
    reveal_strlit("GB");
    reveal_strlit("DE");
    reveal_strlit("FR");
    reveal_strlit("CH");
    reveal_strlit("NL");
    reveal_strlit("IE");
    reveal_strlit("LU");
    reveal_strlit("IT");
    reveal_strlit("ES");
    reveal_strlit("SE");
    reveal_strlit("NO");
    reveal_strlit("DK");
    reveal_strlit("FI");
    reveal_strlit("BE");
    reveal_strlit("AT");
    reveal_strlit("JP");
    reveal_strlit("CN");
    reveal_strlit("HK");
    reveal_strlit("TW");
    reveal_strlit("KR");
    reveal_strlit("IN");
    reveal_strlit("SG");
    reveal_strlit("AU");
    reveal_strlit("NZ");
    reveal_strlit("BR");
    reveal_strlit("MX");
    reveal_strlit("ZA");
    reveal_strlit("IL");
    reveal_strlit("AE");
    reveal_strlit("BM");
    reveal_strlit("KY");
    reveal_strlit("");
    assert(code == ""@ <==> code.len() == 0) by {
        if code.len() == 0 {
            assert(code =~= ""@);
        }
    }
    lemma_letters(code, "US"@, 'U', 'S');
    lemma_letters(code, "CA"@, 'C', 'A');
    lemma_letters(code, "GB"@, 'G', 'B');
    lemma_letters(code, "DE"@, 'D', 'E');
    lemma_letters(code, "FR"@, 'F', 'R');
    lemma_letters(code, "CH"@, 'C', 'H');
    lemma_letters(code, "NL"@, 'N', 'L');
    lemma_letters(code, "IE"@, 'I', 'E');
    lemma_letters(code, "LU"@, 'L', 'U');
    lemma_letters(code, "IT"@, 'I', 'T');
    lemma_letters(code, "ES"@, 'E', 'S');
    lemma_letters(code, "SE"@, 'S', 'E');
    lemma_letters(code, "NO"@, 'N', 'O');
    lemma_letters(code, "DK"@, 'D', 'K');
    lemma_letters(code, "FI"@, 'F', 'I');
    lemma_letters(code, "BE"@, 'B', 'E');
    lemma_letters(code, "AT"@, 'A', 'T');
    lemma_letters(code, "JP"@, 'J', 'P');
    lemma_letters(code, "CN"@, 'C', 'N');
    lemma_letters(code, "HK"@, 'H', 'K');
    lemma_letters(code, "TW"@, 'T', 'W');
    lemma_letters(code, "KR"@, 'K', 'R');
    lemma_letters(code, "IN"@, 'I', 'N');
    lemma_letters(code, "SG"@, 'S', 'G');
    lemma_letters(code, "AU"@, 'A', 'U');
    lemma_letters(code, "NZ"@, 'N', 'Z');
    lemma_letters(code, "BR"@, 'B', 'R');
    lemma_letters(code, "MX"@, 'M', 'X');
    lemma_letters(code, "ZA"@, 'Z', 'A');
    lemma_letters(code, "IL"@, 'I', 'L');
    lemma_letters(code, "AE"@, 'A', 'E');
    lemma_letters(code, "BM"@, 'B', 'M');
    lemma_letters(code, "KY"@, 'K', 'Y');
    reveal_with_fuel(named_in, 35);
}

/// A country is named by the two letters of its code, in upper or lower case; a
/// missing or empty code is unknown, and a code without a name stands for itself in
/// upper case.
pub proof fn law_countries(code: Seq<char>)
    ensures
        country(None) == "Unknown"@,
        country(Some(code)) == (match country_of_letters(uppercased(code)) {
            Some(name) => name,
            None => uppercased(code),
        }),
{
    lemma_country_rows(uppercased(code));
    reveal_strlit("");
    assert(uppercased(""@) =~= Seq::<char>::empty());
    lemma_country_rows(uppercased(""@));
}

} // verus!
