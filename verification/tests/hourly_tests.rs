use fee_scan::aggregate::sort_by_timestamp;
use fee_scan::hourly::{hourly_buckets, SECONDS_PER_HOUR};
use fee_scan::types::{TimeWindow, TransactionRecord};

fn record(sig: &str, timestamp: i64, success: bool) -> TransactionRecord {
    TransactionRecord {
        signature: String::from(sig),
        timestamp,
        success,
        fee_lamports: 1,
        compute_units: None,
    }
}

#[test]
fn no_records_make_no_series() {
    let w = TimeWindow { from: 0, to: 7200 };
    let buckets = hourly_buckets(&Vec::new(), &w);
    assert!(buckets.is_empty());
}

#[test]
fn buckets_count_records_hour_by_hour() {
    // Hours 0, 1 and 2; the window ends mid-hour 1, so the series runs to
    // hour 2 inclusive (the hour after the end's hour).
    let records = sort_by_timestamp(vec![
        record("a", 600, true),
        record("b", 1800, false),
        record("c", 3700, true),
    ]);
    let w = TimeWindow { from: 0, to: 5000 };
    let buckets = hourly_buckets(&records, &w);
    assert_eq!(buckets.len(), 3);
    assert_eq!(buckets[0].hour_start, 0);
    assert_eq!(buckets[0].total_count, 2);
    assert_eq!(buckets[0].successful_count, 1);
    assert_eq!(buckets[1].hour_start, 3600);
    assert_eq!(buckets[1].total_count, 1);
    assert_eq!(buckets[1].successful_count, 1);
    assert_eq!(buckets[2].hour_start, 7200);
    assert_eq!(buckets[2].total_count, 0);
    assert_eq!(buckets[2].successful_count, 0);
}

// Bucket boundaries are contiguous with no gaps, and the series reaches at
// or past the window's end.
#[test]
fn bucket_hours_are_contiguous_and_reach_the_window_end() {
    let t = 1_700_000_000;
    let records = sort_by_timestamp(vec![
        record("a", t - 9 * SECONDS_PER_HOUR, true),
        record("b", t - 2 * SECONDS_PER_HOUR, true),
    ]);
    let w = TimeWindow { from: t - 24 * SECONDS_PER_HOUR, to: t };
    let buckets = hourly_buckets(&records, &w);
    assert!(!buckets.is_empty());
    for i in 0..buckets.len() - 1 {
        assert_eq!(buckets[i + 1].hour_start, buckets[i].hour_start + SECONDS_PER_HOUR);
    }
    assert!(buckets.last().unwrap().hour_start >= w.to);
    assert_eq!(buckets[0].hour_start, (t - 9 * SECONDS_PER_HOUR) / SECONDS_PER_HOUR * SECONDS_PER_HOUR);
}

// Every record lands in exactly one bucket: the totals sum to the record
// count.
#[test]
fn bucket_totals_sum_to_the_record_count() {
    let records = sort_by_timestamp(vec![
        record("a", 100, true),
        record("b", 3599, false),
        record("c", 3600, true),
        record("d", 9999, true),
        record("e", 10_000, false),
    ]);
    let w = TimeWindow { from: 0, to: 11_000 };
    let buckets = hourly_buckets(&records, &w);
    let total: usize = buckets.iter().map(|b| b.total_count).sum();
    assert_eq!(total, records.len());
    let successes: usize = buckets.iter().map(|b| b.successful_count).sum();
    assert_eq!(successes, 3);
}

#[test]
fn gap_hours_stay_in_the_series_with_zero_counts() {
    let records = sort_by_timestamp(vec![record("a", 0, true), record("b", 4 * SECONDS_PER_HOUR, true)]);
    let w = TimeWindow { from: 0, to: 4 * SECONDS_PER_HOUR };
    let buckets = hourly_buckets(&records, &w);
    assert_eq!(buckets.len(), 6);
    assert_eq!(buckets[1].total_count, 0);
    assert_eq!(buckets[2].total_count, 0);
    assert_eq!(buckets[3].total_count, 0);
    assert_eq!(buckets[0].total_count, 1);
    assert_eq!(buckets[4].total_count, 1);
    assert_eq!(buckets[5].total_count, 0);
}
