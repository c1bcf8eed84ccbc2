//! Fee analysis for an account's recent on-chain transactions.
//!
//! The library holds the algorithmic core of a one-shot analysis tool: it
//! decides how a reverse-chronological, cursor-paginated signature listing is
//! walked and trimmed to a trailing time window, how the retained signatures
//! are partitioned into rate-limited fetch batches, and how the fetched
//! records are folded into summary totals, an hourly time series, and
//! per-transaction CSV rows.  All network traffic, pacing sleeps and file
//! writes live outside the library; callers hand in plain values (pages of
//! signature entries, fetched transaction fields, the clock reading at run
//! start) and get plain values back.

pub mod aggregate;
pub mod collector;
pub mod csv;
pub mod fetcher;
pub mod hourly;
pub mod text;
pub mod types;
