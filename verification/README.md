# finance

The logic of a self-hosted market watcher, written in Rust and verified with
Verus: what is fetched and when, how a data endpoint is protected from too many
requests, and how SEC EDGAR's documents become fundamentals, filings, fund
profiles and rosters.

`src/` is the library. Each function states what it returns in its `ensures`, over
plain mathematical models (`Seq<char>` for texts, `int` for times and counts, a
`...View` type for each record). Functions named `law_...` state what holds across
calls.

| Modules | What they hold |
|---|---|
| `guard`, `guard_laws` | The per-endpoint guard: circuit breaker, hourly budget, pacing |
| `sec`, `directory`, `filings`, `funds`, `atom`, `ownership`, `nport` | EDGAR: requests, answers, documents |
| `facts`, `fact_laws`, `calendar` | XBRL facts brought to one clean series per metric |
| `portfolio`, `buckets` | Largest holdings and mixes |
| `quotes`, `refresh`, `backfill`, `leadership`, `jobs` | What the background task and the pages pull, and what becomes of it |
| `seo` | Sitemap and robots file |
| `text`, `numbers`, `tickers`, `xml` | The primitives below them |

What is trusted rather than proved stands behind small wrappers: reading XML events
with `quick_xml` (`xml`), reading and subtracting dates with `chrono` (`calendar`),
percent-encoding with `urlencoding` (`seo`), and two functions of the standard
library (`text`, `xml`).

`app/` is the service around it: HTTP, SQLite, the axum routes and the tokio task.
Amounts are floating-point numbers there and texts in the library; the library
orders weights by an integer key and the service adds them up.

`tests/` runs the library on concrete values.
