use finance::atom::parse_edgar_atom;
use finance::directory::{CikMap, FundId, FundMap, FundRow, TickerEntry};
use finance::facts::CompanyFacts;
use finance::filings::{
    is_material_form, is_material_fund_form, ownership_doc_url, portfolio_doc_url, select_filings,
    RecentFilings,
};
use finance::funds::FundShape;
use finance::ownership::{is_ownership_form, ownership_flag, parse_ownership};
use finance::sec::{
    company_facts_url, company_tickers_url, fund_filings_url, fund_tickers_url, read_reply,
    submissions_url, RateLimited, Reply, SecError, SecProvider,
};

fn column(v: &[&str]) -> Vec<String> {
    v.iter().map(|s| s.to_string()).collect()
}

#[test]
fn replies_by_status() {
    let limited = |status, retry_after_secs| {
        Reply::Limited(RateLimited {
            status,
            retry_after_secs,
        })
    };
    assert_eq!(read_reply(429, Some(" 120 ")), limited(429, Some(120)));
    assert_eq!(read_reply(503, Some("Wed, 21 Oct 2015")), limited(503, None));
    assert_eq!(read_reply(503, None), limited(503, None));
    assert_eq!(read_reply(404, Some("5")), Reply::Absent);
    assert_eq!(read_reply(200, None), Reply::Other);
    assert_eq!(read_reply(500, None), Reply::Other);
}

#[test]
fn request_urls() {
    assert_eq!(
        company_tickers_url(),
        "https://www.sec.gov/files/company_tickers.json"
    );
    assert_eq!(
        fund_tickers_url(),
        "https://www.sec.gov/files/company_tickers_mf.json"
    );
    assert_eq!(
        company_facts_url("0000320193"),
        "https://data.sec.gov/api/xbrl/companyfacts/CIK0000320193.json"
    );
    assert_eq!(
        submissions_url("0000320193"),
        "https://data.sec.gov/submissions/CIK0000320193.json"
    );
    let id = FundId {
        cik: "0000884394".to_string(),
        series_id: Some("S000004310".to_string()),
    };
    assert_eq!(
        fund_filings_url(&id),
        "https://www.sec.gov/cgi-bin/browse-edgar?action=getcompany&CIK=S000004310\
         &type=&dateb=&owner=include&count=100&output=atom"
    );
}

#[test]
fn company_directory() {
    let rows = vec![
        TickerEntry {
            cik_str: 1067983,
            ticker: "BRK-B".to_string(),
        },
        TickerEntry {
            cik_str: 320193,
            ticker: "AAPL".to_string(),
        },
    ];
    let map = CikMap::of(&rows);
    assert_eq!(map.get("BRK.B").as_deref(), Some("0001067983"));
    assert_eq!(map.get("aapl").as_deref(), Some("0000320193"));
    assert_eq!(map.get("MSFT"), None);
    let sec = SecProvider::new();
    assert_eq!(sec.name(), "sec");
    assert!(sec.cik_map(Some(&rows)).is_ok());
    match sec.cik_map(None) {
        Err(SecError::Missing(why)) => assert_eq!(why, "sec company_tickers.json not found"),
        _ => panic!("no file, no directory"),
    }
}

#[test]
fn fund_directory_keeps_the_first_row_and_adds_the_trusts() {
    let row = |cik, series: &str, symbol: &str| FundRow {
        cik,
        series_id: series.to_string(),
        class_id: "C1".to_string(),
        symbol: symbol.to_string(),
    };
    let rows = vec![
        row(36405, "S1", "VTI"),
        row(1, "S2", "VTI"),
        row(2, "S3", "GLD"),
    ];
    let map = FundMap::of(&rows);
    let vti = map.get("vti").unwrap();
    assert_eq!(vti.cik, "0000036405");
    assert_eq!(vti.series_id.as_deref(), Some("S1"));
    let gld = map.get("GLD").unwrap();
    assert_eq!(gld.cik, "0000000002");
    for (ticker, cik) in [
        ("SPY", "0000884394"),
        ("DIA", "0001041130"),
        ("SLV", "0001330568"),
    ] {
        let id = map.get(ticker).unwrap();
        assert_eq!(id.cik, cik);
        assert_eq!(id.series_id, None);
    }
    assert!(map.get("QQQ").is_none());
    match SecProvider::new().fund_ticker_map(None) {
        Err(SecError::Missing(why)) => assert_eq!(why, "sec company_tickers_mf.json not found"),
        _ => panic!("no file, no directory"),
    }
}

fn history() -> RecentFilings {
    RecentFilings {
        accession_number: column(&[
            "0000320193-24-000123",
            "0000320193-24-000122",
            "0000320193-24-000121",
            "",
            "0000320193-24-000119",
            "0000320193-24-000118",
        ]),
        filing_date: column(&[
            "2024-11-01",
            "2024-10-15",
            "2024-09-01",
            "2024-08-01",
            "2024-07-01",
        ]),
        report_date: column(&["2024-09-28", "", "2024-08-30"]),
        form: column(&["10-K", "4", "8-K", "10-Q", "3/A", "10-Q"]),
        primary_document: column(&[
            "aapl-20240928.htm",
            "xslF345X05/form4.xml",
            "",
            "d.htm",
            "form3.pdf",
            "q.htm",
        ]),
        primary_doc_description: column(&["10-K"]),
        items: column(&["", "", "2.02,9.01"]),
    }
}

#[test]
fn material_filings_of_a_company() {
    let f = select_filings(&history(), "0000320193");
    // The fourth row has no accession number, the last one no date.
    assert_eq!(f.len(), 2);
    assert_eq!(f[0].form, "10-K");
    assert_eq!(
        f[0].url,
        "https://www.sec.gov/Archives/edgar/data/320193/000032019324000123/aapl-20240928.htm"
    );
    assert_eq!(f[0].period_of_report.as_deref(), Some("2024-09-28"));
    assert_eq!(f[0].description.as_deref(), Some("10-K"));
    assert_eq!(f[0].items, None);
    assert_eq!(f[1].form, "8-K");
    assert_eq!(f[1].primary_doc, None);
    assert_eq!(
        f[1].url,
        "https://www.sec.gov/Archives/edgar/data/320193/000032019324000121/\
         0000320193-24-000121-index.htm"
    );
    assert_eq!(f[1].items.as_deref(), Some("2.02,9.01"));
}

#[test]
fn at_most_forty_filings_are_kept() {
    let many = |form: &str| RecentFilings {
        accession_number: (0..50).map(|i| format!("a-{i}")).collect(),
        filing_date: (0..50).map(|_| "2024-01-01".to_string()).collect(),
        report_date: vec![],
        form: (0..50).map(|_| form.to_string()).collect(),
        primary_document: vec![],
        primary_doc_description: vec![],
        items: vec![],
    };
    let f = select_filings(&many("6-K"), "1");
    assert_eq!(f.len(), 40);
    assert_eq!(f[39].accession, "a-39");
    assert!(select_filings(&many("SC 13G"), "1").is_empty());
}

#[test]
fn forms_worth_showing() {
    for form in ["10-K", "10-K/A", "10-Q", "8-K", "20-F", "40-F", "6-K", "DEF 14A"] {
        assert!(is_material_form(form));
    }
    for form in ["4", "SC 13G", "S-8", "DEFA14A", ""] {
        assert!(!is_material_form(form));
    }
    for form in [
        "NPORT-P", "NPORT-EX", "N-CEN", "N-CSR", "N-CSRS", "485BPOS", "485APOS", "10-K", "10-Q",
        "8-K",
    ] {
        assert!(is_material_fund_form(form));
    }
    assert!(!is_material_fund_form("497"));
    assert!(is_ownership_form("3"));
    assert!(is_ownership_form("4/A"));
    assert!(is_ownership_form("5/A/A"));
    assert!(!is_ownership_form("144"));
    assert!(!is_ownership_form("4/B"));
}

#[test]
fn ownership_filings_with_xml() {
    let sec = SecProvider::new();
    let index = sec.ownership_index(Some(&history()));
    assert_eq!(index.len(), 1);
    assert_eq!(index[0].accession, "0000320193-24-000122");
    assert_eq!(index[0].filed_at, "2024-10-15");
    assert_eq!(
        ownership_doc_url("0000320193", &index[0].accession, &index[0].primary_doc),
        "https://www.sec.gov/Archives/edgar/data/320193/000032019324000122/form4.xml"
    );
    assert!(sec.ownership_index(None).is_empty());
    assert!(sec.filings("1", None).is_empty());
    assert!(sec.ownership_doc(None).is_empty());
    assert!(sec.facts::<f64>(None, 2025).is_empty());
    let none: Option<&CompanyFacts<f64>> = None;
    assert_eq!(sec.fund_aum(none), None);
}

const FEED: &str = r#"<?xml version="1.0" encoding="ISO-8859-1" ?>
<feed xmlns="http://www.w3.org/2005/Atom">
  <title>ignored</title>
  <entry>
    <category label="form type" scheme="x" term="NPORT-P" />
    <content type="text/xml">
      <accession-number>0001-24-1</accession-number>
      <filing-date>2024-11-26</filing-date>
      <filing-href>https://www.sec.gov/Archives/edgar/data/36405/000124/0001-24-1-index.htm</filing-href>
      <filing-type>ignored</filing-type>
    </content>
  </entry>
  <entry>
    <content>
      <accession-number>0001-24-2</accession-number>
      <filing-date> 2024-10-01 </filing-date>
      <filing-type>497</filing-type>
    </content>
  </entry>
  <entry>
    <category term="N-CEN"></category>
    <accession-number></accession-number>
  </entry>
  <entry>
    <category term="485BPOS"/>
    <accession-number>0001-24-3</accession-number>
    <accession-number>second</accession-number>
  </entry>
</feed>"#;

#[test]
fn feed_entries() {
    let e = match parse_edgar_atom(FEED.as_bytes()) {
        Ok(e) => e,
        Err(_) => panic!("well-formed"),
    };
    assert_eq!(e.len(), 3);
    assert_eq!(e[0].form, "NPORT-P");
    assert_eq!(e[0].accession, "0001-24-1");
    assert_eq!(e[0].filed, "2024-11-26");
    assert_eq!(e[1].form, "497");
    assert_eq!(e[1].filed, "2024-10-01");
    assert_eq!(e[1].href, "");
    assert_eq!(e[2].form, "485BPOS");
    assert_eq!(e[2].accession, "0001-24-3");
}

fn any_fund() -> FundId {
    FundId {
        cik: "0000036405".to_string(),
        series_id: None,
    }
}

#[test]
fn fund_filings_and_shape() {
    let sec = SecProvider::new();
    let f = match sec.fund_filings(&any_fund(), Some(FEED.as_bytes())) {
        Ok(f) => f,
        Err(_) => panic!("well-formed"),
    };
    let forms: Vec<&str> = f.filings.iter().map(|r| r.form.as_str()).collect();
    assert_eq!(forms, vec!["NPORT-P", "485BPOS"]);
    match f.shape {
        FundShape::Portfolio { nport_href } => {
            assert_eq!(
                portfolio_doc_url(&nport_href).as_deref(),
                Some("https://www.sec.gov/Archives/edgar/data/36405/000124/primary_doc.xml")
            );
        }
        _ => panic!("a portfolio"),
    }
    match sec.fund_filings(&any_fund(), None) {
        Err(SecError::Missing(why)) => {
            assert_eq!(why, "edgar filing index for 0000036405 not found");
        }
        _ => panic!("no feed"),
    }
    assert!(matches!(
        sec.fund_filings(&any_fund(), Some(b"<feed></entry>")),
        Err(SecError::Xml(_))
    ));
}

fn shape(forms: &[&str]) -> FundShape {
    let mut feed = "<feed>".to_string();
    for (i, form) in forms.iter().enumerate() {
        feed.push_str(&format!(
            "<entry><category term=\"{form}\"/><accession-number>{i}</accession-number></entry>"
        ));
    }
    feed.push_str("</feed>");
    match SecProvider::new().fund_filings(&any_fund(), Some(feed.as_bytes())) {
        Ok(f) => f.shape,
        Err(_) => panic!("well-formed"),
    }
}

#[test]
fn shapes_without_a_portfolio_report() {
    assert!(matches!(shape(&["10-K", "8-K"]), FundShape::CommodityTrust));
    assert!(matches!(shape(&["10-K", "N-CEN"]), FundShape::Unknown));
    assert!(matches!(shape(&["8-K"]), FundShape::Unknown));
    // A portfolio report whose page is unknown shows nothing.
    assert!(matches!(shape(&["NPORT-P"]), FundShape::Unknown));
}

#[test]
fn category_overrides_an_earlier_form() {
    let feed = "<entry><filing-type>old</filing-type><category term=\"a&amp;b\"/>\
                <accession-number>1</accession-number></entry>";
    match parse_edgar_atom(feed.as_bytes()) {
        // Attribute values are taken as they are written.
        Ok(e) => assert_eq!(e[0].form, "a&amp;b"),
        Err(_) => panic!("well-formed"),
    }
}

#[test]
fn portfolio_needs_a_directory_and_a_document() {
    let sec = SecProvider::new();
    match sec.fund_portfolio("nowhere", Some(b"<x/>")) {
        Err(SecError::Href(why)) => assert_eq!(why, "malformed filing href nowhere"),
        _ => panic!("no directory"),
    }
    match sec.fund_portfolio("https://x/y-index.htm", None) {
        Err(SecError::Missing(why)) => {
            assert_eq!(why, "N-PORT not found at https://x/primary_doc.xml");
        }
        _ => panic!("no document"),
    }
    assert!(matches!(
        sec.fund_portfolio("a/b", Some(b"<a></b>")),
        Err(SecError::Xml(_))
    ));
}

const FORM4: &str = r#"<?xml version="1.0"?>
<ownershipDocument>
  <reportingOwner>
    <reportingOwnerId><rptOwnerCik>1</rptOwnerCik><rptOwnerName>COOK TIMOTHY D</rptOwnerName></reportingOwnerId>
    <reportingOwnerRelationship>
      <isDirector>true</isDirector><isOfficer> 1 </isOfficer>
      <officerTitle>Chief Executive &amp; Officer</officerTitle>
    </reportingOwnerRelationship>
  </reportingOwner>
  <reportingOwner>
    <isDirector>1</isDirector>
  </reportingOwner>
  <reportingOwner>
    <rptOwnerName>BELL JAMES</rptOwnerName><isDirector>0</isDirector>
  </reportingOwner>
  <broken></ownershipDocument>
  <reportingOwner><rptOwnerName>LATE</rptOwnerName></reportingOwner>"#;

#[test]
fn people_of_an_ownership_document() {
    let p = parse_ownership(FORM4.as_bytes());
    // The second person has no name; the document breaks before the last one.
    assert_eq!(p.len(), 2);
    assert_eq!(p[0].name, "COOK TIMOTHY D");
    assert!(p[0].is_director && p[0].is_officer);
    assert_eq!(p[0].officer_title.as_deref(), Some("Chief Executive & Officer"));
    assert_eq!(p[1].name, "BELL JAMES");
    assert!(!p[1].is_director && !p[1].is_officer);
    assert_eq!(p[1].officer_title, None);
}

#[test]
fn ownership_flags() {
    for yes in ["1", " 1", "true", "TRUE", "Y"] {
        assert!(ownership_flag(yes));
    }
    for no in ["0", "false", "True", "y", "", "11"] {
        assert!(!ownership_flag(no));
    }
}

#[test]
fn newest_portfolio_report_decides() {
    let entry = |form: &str, n: i32| {
        format!(
            "<entry><category term=\"{form}\"/><accession-number>{n}</accession-number>\
             <filing-href>https://x/{n}/i.htm</filing-href></entry>"
        )
    };
    let feed = format!(
        "<feed>{}{}{}</feed>",
        entry("10-K", 1),
        entry("NPORT-P", 2),
        entry("NPORT-P/A", 3)
    );
    match SecProvider::new().fund_filings(&any_fund(), Some(feed.as_bytes())) {
        Ok(f) => match f.shape {
            FundShape::Portfolio { nport_href } => assert_eq!(nport_href, "https://x/2/i.htm"),
            _ => panic!("a portfolio"),
        },
        Err(_) => panic!("well-formed"),
    }
}
