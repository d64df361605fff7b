//! The logic of a market watcher: fundamentals and filings from SEC EDGAR, the
//! guard over outbound requests, and the schedule of what is pulled when.
use vstd::prelude::*;

pub mod atom;
pub mod atom_laws;
pub mod backfill;
pub mod backfill_laws;
pub mod bucket_laws;
pub mod buckets;
pub mod calendar;
pub mod directory;
pub mod directory_laws;
pub mod fact_laws;
pub mod facts;
pub mod filing_laws;
pub mod filings;
pub mod funds;
pub mod guard;
pub mod guard_laws;
pub mod jobs;
pub mod leadership;
pub mod nport;
pub mod nport_laws;
pub mod number_laws;
pub mod numbers;
pub mod ownership;
pub mod ownership_laws;
pub mod period_laws;
pub mod portfolio;
pub mod quote_laws;
pub mod quotes;
pub mod refresh;
pub mod refresh_laws;
pub mod sec;
pub mod seo;
pub mod seo_laws;
pub mod streams;
pub mod text;
pub mod text_laws;
pub mod tickers;
pub mod xml;

verus! {

} // verus!
