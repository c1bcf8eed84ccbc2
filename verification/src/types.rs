//! The data the analysis works on: signature listing entries, fetched
//! transaction records, the trailing time window, and the terminal aggregate.

use vstd::prelude::*;

verus! {

/// Latest timestamp the library accepts: 23:59:59 on the last day of year
/// 9999, in seconds since the epoch.  Chain timestamps are non-negative, and
/// keeping them below this bound keeps every hour computation inside `i64`.
pub const MAX_TIMESTAMP: i64 = 253402300799;

/// The timestamps this library handles: seconds since the epoch, from the
/// epoch itself (the fallback for a missing block time) through year 9999.
pub open spec fn ts_in_range(t: i64) -> bool {
    0 <= t <= MAX_TIMESTAMP
}

/// One entry of the paginated signature listing: an opaque signature string,
/// the block timestamp when the chain confirmed it (absent for unconfirmed
/// entries), and whether the ledger recorded the transaction as failed.
#[derive(Debug)]
pub struct SignatureEntry {
    pub signature: String,
    pub block_time: Option<i64>,
    pub failed: bool,
}

/// The enriched result of fetching one signature's full detail.  The
/// timestamp is always present here: a missing block time on the underlying
/// transaction is recorded as the epoch.
#[derive(Debug)]
pub struct TransactionRecord {
    pub signature: String,
    pub timestamp: i64,
    pub success: bool,
    pub fee_lamports: u64,
    pub compute_units: Option<u64>,
}

/// The trailing window `[from, to]`: `to` is the clock reading at run start
/// and `from` lies `lookback_hours` hours earlier.
#[derive(Clone, Copy, Debug, PartialEq, Eq, Structural)]
pub struct TimeWindow {
    pub from: i64,
    pub to: i64,
}

/// `v` clamped to the values an `i64` can hold.
pub open spec fn clamp_to_i64(v: int) -> int {
    if v < i64::MIN as int {
        i64::MIN as int
    } else if v > i64::MAX as int {
        i64::MAX as int
    } else {
        v
    }
}

impl TimeWindow {
    /// Whether a block timestamp is admitted by the window.
    pub open spec fn admits(self, t: i64) -> bool {
        self.from <= t <= self.to
    }

    /// Builds the window ending at `now` and reaching `lookback_hours` hours
    /// back.  A non-positive lookback yields an inverted or empty window,
    /// which admits little or nothing; an extreme lookback clamps instead of
    /// overflowing.
    pub fn new(now: i64, lookback_hours: i64) -> (w: TimeWindow)
        ensures
            w.to == now,
            w.from == clamp_to_i64(now as int - lookback_hours as int * 3600),
    {
        let span: i128 = (lookback_hours as i128) * 3600;
        let start: i128 = (now as i128) - span;
        let from: i64 = if start < (i64::MIN as i128) {
            i64::MIN
        } else if start > (i64::MAX as i128) {
            i64::MAX
        } else {
            start as i64
        };
        TimeWindow { from, to: now }
    }
}

/// One step of the hourly time series: the hour's start, and how many of the
/// records in `[hour_start, hour_start + 3600)` there were, in total and
/// successful.
#[derive(Clone, Copy, Debug, PartialEq, Eq, Structural)]
pub struct HourlyBucket {
    pub hour_start: i64,
    pub successful_count: usize,
    pub total_count: usize,
}

/// The terminal aggregate of a run: counts, the exact fee sum, the window the
/// run covered, and the records sorted by timestamp.  The derived
/// floating-point figures (fee sum in whole tokens, mean fee) are left to the
/// caller, which computes them from `total_fees_lamports` and
/// `total_transactions`.
#[derive(Debug)]
pub struct FeeAnalysis {
    pub total_transactions: usize,
    pub successful_transactions: usize,
    pub failed_transactions: usize,
    pub total_fees_lamports: u64,
    pub time_period: TimeWindow,
    pub transactions: Vec<TransactionRecord>,
}

} // verus!
