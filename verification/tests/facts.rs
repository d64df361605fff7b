use chrono::{Datelike, NaiveDate};
use finance::calendar::Date;
use finance::facts::{
    classify, fiscal_year_end_month, fiscal_year_of, latest_assets, quarter_num, select_facts,
    CompanyFacts, Concept, UnitEntry,
};
use serde_json::Value;

fn d(s: &str) -> Date {
    let date = NaiveDate::parse_from_str(s, "%Y-%m-%d").unwrap();
    Date {
        year: date.year(),
        month: date.month(),
        day: date.day(),
    }
}

#[test]
fn fiscal_year_of_handles_non_calendar_year_end() {
    // September fiscal-year end: an Oct-Dec quarter is Q1 of the NEXT FY.
    assert_eq!(fiscal_year_of(d("2024-11-30"), 9), 2025);
    assert_eq!(fiscal_year_of(d("2024-08-31"), 9), 2024);
    // Calendar fiscal year: the period's calendar year is its fiscal year.
    assert_eq!(fiscal_year_of(d("2024-12-31"), 12), 2024);
}

/// A duration entry (an income-statement fact).
fn dur(start: &str, end: &str, val: f64, fp: &str, form: Option<&str>) -> UnitEntry<f64> {
    UnitEntry {
        start: Some(start.to_string()),
        end: end.to_string(),
        val,
        fp: Some(fp.to_string()),
        form: form.map(str::to_string),
        filed: Some("2025-02-01".to_string()),
    }
}

/// An instantaneous entry (a balance-sheet snapshot).
fn inst(end: &str, val: f64, fp: &str, form: Option<&str>) -> UnitEntry<f64> {
    UnitEntry {
        start: None,
        end: end.to_string(),
        val,
        fp: Some(fp.to_string()),
        form: form.map(str::to_string),
        filed: Some("2025-02-01".to_string()),
    }
}

#[test]
fn classify_keeps_full_years_and_discrete_quarters() {
    // Full fiscal year (about 365 days, fp FY).
    assert_eq!(
        classify(&dur("2024-01-01", "2024-12-31", 100.0, "FY", Some("10-K")), 12),
        Some(("FY2024".to_string(), 2024, None))
    );
    // Discrete quarter (about 90 days).
    assert_eq!(
        classify(&dur("2024-01-01", "2024-03-31", 25.0, "Q1", Some("10-Q")), 12),
        Some(("Q1-2024".to_string(), 2024, Some(1)))
    );
    // Year-end balance from an annual report (instantaneous, fp FY, 10-K).
    assert_eq!(
        classify(&inst("2024-12-31", 500.0, "FY", Some("10-K")), 12),
        Some(("FY2024".to_string(), 2024, None))
    );
}

#[test]
fn classify_drops_ytd_rollups_and_quarterly_balances() {
    // A 6-month year-to-date roll-up is neither a quarter nor a full year.
    assert_eq!(
        classify(&dur("2024-01-01", "2024-06-30", 50.0, "Q2", Some("10-Q")), 12),
        None
    );
    // A balance-sheet snapshot from a 10-Q is dropped (it would mislabel a
    // prior year-end comparative as the filing's own quarter).
    assert_eq!(
        classify(&inst("2024-03-31", 480.0, "Q1", Some("10-Q")), 12),
        None
    );
}

fn text(v: &Value, key: &str) -> Option<String> {
    v.get(key).and_then(|t| t.as_str()).map(str::to_string)
}

/// Reads a `companyfacts`-shaped JSON body.
fn body(json: &str) -> CompanyFacts<f64> {
    let v: Value = serde_json::from_str(json).expect("valid companyfacts json");
    let mut us_gaap = Vec::new();
    for (name, concept) in v["facts"]["us-gaap"].as_object().unwrap() {
        let mut units = Vec::new();
        for (unit, entries) in concept["units"].as_object().unwrap() {
            let mut list = Vec::new();
            for e in entries.as_array().unwrap() {
                list.push(UnitEntry {
                    start: text(e, "start"),
                    end: text(e, "end").unwrap(),
                    val: e["val"].as_f64().unwrap(),
                    fp: text(e, "fp"),
                    form: text(e, "form"),
                    filed: text(e, "filed"),
                });
            }
            units.push((unit.clone(), list));
        }
        us_gaap.push((name.clone(), Concept { units }));
    }
    CompanyFacts { us_gaap }
}

#[test]
fn select_facts_pins_one_concept_per_metric() {
    // Revenue is reported under TWO non-interchangeable concepts. The newer
    // concept (RevenueFromContract...) covers FY2023 AND FY2024; the legacy
    // `Revenues` covers FY2023 only, with a DIFFERENT value. The pinned
    // concept must be the one reaching the most recent period, and BOTH its
    // years must come from it, so FY2023 is 1000 (its value), never 999.
    let b = body(
        r#"{
          "facts": { "us-gaap": {
            "RevenueFromContractWithCustomerExcludingAssessedTax": { "units": { "USD": [
              {"start":"2023-01-01","end":"2023-12-31","val":1000,"fp":"FY","form":"10-K","filed":"2024-02-01"},
              {"start":"2024-01-01","end":"2024-12-31","val":1200,"fp":"FY","form":"10-K","filed":"2025-02-01"}
            ] } },
            "Revenues": { "units": { "USD": [
              {"start":"2023-01-01","end":"2023-12-31","val":999,"fp":"FY","form":"10-K","filed":"2024-02-01"}
            ] } }
          } }
        }"#,
    );
    let facts = select_facts(&b, 2025);
    let rev: std::collections::HashMap<i64, f64> = facts
        .iter()
        .filter(|f| f.metric == "revenue" && f.fiscal_qtr.is_none())
        .map(|f| (f.fiscal_year, f.value))
        .collect();
    assert_eq!(rev.get(&2024), Some(&1200.0));
    assert_eq!(
        rev.get(&2023),
        Some(&1000.0),
        "FY2023 must come from the SAME pinned concept, not the mismatched 999"
    );
    // Year-over-year growth is then a like-for-like comparison.
    let growth: f64 = (1200.0 - 1000.0) / 1000.0 * 100.0;
    assert!((growth - 20.0).abs() < 1e-9);
}

#[test]
fn select_facts_takes_latest_restatement_within_a_concept() {
    // The same period reported twice; the later `filed` wins.
    let b = body(
        r#"{
          "facts": { "us-gaap": {
            "NetIncomeLoss": { "units": { "USD": [
              {"start":"2024-01-01","end":"2024-12-31","val":300,"fp":"FY","form":"10-K","filed":"2025-02-01"},
              {"start":"2024-01-01","end":"2024-12-31","val":280,"fp":"FY","form":"10-K","filed":"2025-06-01"}
            ] } }
          } }
        }"#,
    );
    let facts = select_facts(&b, 2025);
    let ni = facts.iter().find(|f| f.metric == "net_income" && f.fiscal_year == 2024);
    assert_eq!(
        ni.map(|f| f.value),
        Some(280.0),
        "the later-filed restatement (280) wins over 300"
    );
}

#[test]
fn quarter_labels() {
    assert_eq!(quarter_num("Q1"), Some(1));
    assert_eq!(quarter_num("Q2"), Some(2));
    assert_eq!(quarter_num("Q3"), Some(3));
    assert_eq!(quarter_num("Q4"), Some(4));
    assert_eq!(quarter_num("FY"), None);
    assert_eq!(quarter_num("q1"), None);
}

#[test]
fn classify_by_duration_and_form() {
    // 330 and 400 days are still a year, 329 and 401 are not.
    assert!(classify(&dur("2023-02-05", "2024-01-01", 1.0, "FY", None), 12).is_some());
    assert!(classify(&dur("2023-02-06", "2024-01-01", 1.0, "FY", None), 12).is_none());
    assert!(classify(&dur("2022-11-27", "2024-01-01", 1.0, "FY", None), 12).is_some());
    assert!(classify(&dur("2022-11-26", "2024-01-01", 1.0, "FY", None), 12).is_none());
    // A full year whose period is not FY is dropped.
    assert_eq!(classify(&dur("2024-01-01", "2024-12-31", 1.0, "Q4", None), 12), None);
    // A quarter of a September fiscal year falls in the next one.
    assert_eq!(
        classify(&dur("2024-10-01", "2024-12-31", 1.0, "Q1", None), 9),
        Some(("Q1-2025".to_string(), 2025, Some(1)))
    );
    // A snapshot without a form counts as annual; one from a 10-Q does not.
    assert_eq!(
        classify(&inst("2024-12-31", 1.0, "FY", None), 12),
        Some(("FY2024".to_string(), 2024, None))
    );
    assert_eq!(classify(&inst("2024-12-31", 1.0, "FY", Some("10-Q")), 12), None);
    // Dates that do not exist are dropped.
    assert_eq!(classify(&inst("2023-02-29", 1.0, "FY", None), 12), None);
    assert_eq!(classify(&dur("soon", "2024-12-31", 1.0, "FY", None), 12), None);
}

#[test]
fn fiscal_month_is_the_most_common_one() {
    let year = |start: &str, end: &str| dur(start, end, 1.0, "FY", Some("10-K"));
    let facts = |entries: Vec<UnitEntry<f64>>| CompanyFacts {
        us_gaap: vec![(
            "Revenues".to_string(),
            Concept {
                units: vec![("USD".to_string(), entries)],
            },
        )],
    };
    assert_eq!(fiscal_year_end_month(&facts(vec![])), 12);
    assert_eq!(
        fiscal_year_end_month(&facts(vec![
            year("2021-10-01", "2022-09-30"),
            year("2022-10-01", "2023-09-30"),
            year("2023-01-01", "2023-12-31"),
        ])),
        9
    );
    // Of two months that are as common, the later one is taken.
    assert_eq!(
        fiscal_year_end_month(&facts(vec![
            year("2022-07-01", "2023-06-30"),
            year("2021-10-01", "2022-09-30"),
        ])),
        9
    );
}

#[test]
fn facts_outside_the_window_are_dropped() {
    let b = CompanyFacts {
        us_gaap: vec![(
            "NetIncomeLoss".to_string(),
            Concept {
                units: vec![(
                    "USD".to_string(),
                    vec![
                        dur("2018-01-01", "2018-12-31", 18.0, "FY", None),
                        dur("2019-01-01", "2019-12-31", 19.0, "FY", None),
                        dur("2021-07-01", "2021-09-30", 21.0, "Q3", None),
                        dur("2022-07-01", "2022-09-30", 22.0, "Q3", None),
                    ],
                )],
            },
        )],
    };
    let mut kept: Vec<String> = select_facts(&b, 2025).into_iter().map(|f| f.period).collect();
    kept.sort();
    assert_eq!(kept, vec!["FY2019".to_string(), "Q3-2022".to_string()]);
}

#[test]
fn tie_between_concepts_goes_to_the_preferred_one() {
    let concept = |val: f64| Concept {
        units: vec![(
            "USD".to_string(),
            vec![dur("2024-01-01", "2024-12-31", val, "FY", None)],
        )],
    };
    let b = CompanyFacts {
        us_gaap: vec![
            ("ProfitLoss".to_string(), concept(2.0)),
            ("NetIncomeLoss".to_string(), concept(1.0)),
        ],
    };
    let facts = select_facts(&b, 2025);
    assert_eq!(facts.len(), 1);
    assert_eq!(facts[0].value, 1.0);
    assert_eq!(facts[0].metric, "net_income");
    assert_eq!(facts[0].unit.as_deref(), Some("USD"));
    assert_eq!(facts[0].period_end, "2024-12-31");
}

#[test]
fn latest_assets_are_the_newest_by_end_then_filing() {
    let with = |end: &str, filed: &str, val: f64| UnitEntry {
        filed: Some(filed.to_string()),
        ..inst(end, val, "Q1", Some("10-Q"))
    };
    let b = CompanyFacts {
        us_gaap: vec![(
            "Assets".to_string(),
            Concept {
                units: vec![(
                    "USD".to_string(),
                    vec![
                        with("2024-12-31", "2025-02-01", 1.0),
                        with("2025-03-31", "2025-05-01", 2.0),
                        with("2025-03-31", "2025-06-01", 3.0),
                        with("2025-03-31", "2025-04-01", 4.0),
                    ],
                )],
            },
        )],
    };
    assert_eq!(latest_assets(&b), Some(3.0));
    let none: CompanyFacts<f64> = CompanyFacts { us_gaap: vec![] };
    assert_eq!(latest_assets(&none), None);
}
