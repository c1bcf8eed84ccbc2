use fee_scan::aggregate::{aggregate, average_fee_lamports, sort_by_timestamp};
use fee_scan::hourly::hourly_buckets;
use fee_scan::types::{TimeWindow, TransactionRecord};

fn record(sig: &str, timestamp: i64, success: bool, fee: u64) -> TransactionRecord {
    TransactionRecord {
        signature: String::from(sig),
        timestamp,
        success,
        fee_lamports: fee,
        compute_units: None,
    }
}

#[test]
fn counts_partition_into_success_and_failure() {
    let records = vec![
        record("a", 10, true, 1),
        record("b", 20, false, 2),
        record("c", 30, true, 3),
        record("d", 40, true, 4),
    ];
    let a = aggregate(records, &TimeWindow { from: 0, to: 100 });
    assert_eq!(a.total_transactions, 4);
    assert_eq!(a.successful_transactions, 3);
    assert_eq!(a.failed_transactions, 1);
    assert_eq!(a.successful_transactions + a.failed_transactions, a.total_transactions);
    assert_eq!(a.total_fees_lamports, 10);
}

// The fee total is the same for any permutation of the input order.
#[test]
fn fee_total_ignores_input_order() {
    let w = TimeWindow { from: 0, to: 100 };
    let forward = vec![record("a", 1, true, 7), record("b", 2, false, 11), record("c", 3, true, 13)];
    let shuffled = vec![record("c", 3, true, 13), record("a", 1, true, 7), record("b", 2, false, 11)];
    let a1 = aggregate(forward, &w);
    let a2 = aggregate(shuffled, &w);
    assert_eq!(a1.total_fees_lamports, a2.total_fees_lamports);
    assert_eq!(a1.total_fees_lamports, 31);
}

// The mean fee is zero for an empty analysis and otherwise the exact
// quotient of the fee total by the count.
#[test]
fn average_fee_is_zero_on_empty_and_exact_otherwise() {
    let w = TimeWindow { from: 0, to: 100 };
    let empty = aggregate(Vec::new(), &w);
    assert_eq!(average_fee_lamports(&empty), (0, 0));
    let mean = if empty.total_transactions > 0 {
        empty.total_fees_lamports as f64 / empty.total_transactions as f64
    } else {
        0.0
    };
    assert_eq!(mean, 0.0);

    let a = aggregate(vec![record("a", 1, true, 10), record("b", 2, true, 5)], &w);
    let (q, rem) = average_fee_lamports(&a);
    assert_eq!(q, 7);
    assert_eq!(rem, 1);
    assert_eq!(q * a.total_transactions as u64 + rem, a.total_fees_lamports);
    let mean = a.total_fees_lamports as f64 / a.total_transactions as f64;
    assert!((mean - 7.5).abs() < 1e-9);
}

#[test]
fn records_come_out_sorted_by_timestamp() {
    let records = vec![record("late", 300, true, 1), record("early", 100, true, 2), record("mid", 200, true, 3)];
    let sorted = sort_by_timestamp(records);
    let names: Vec<&str> = sorted.iter().map(|r| r.signature.as_str()).collect();
    assert_eq!(names, vec!["early", "mid", "late"]);
}

// Sorting is stable: records sharing a timestamp keep their fetch order.
#[test]
fn sort_keeps_fetch_order_among_equal_timestamps() {
    let records = vec![
        record("first", 100, true, 1),
        record("second", 100, false, 2),
        record("earlier", 50, true, 3),
        record("third", 100, true, 4),
    ];
    let sorted = sort_by_timestamp(records);
    let names: Vec<&str> = sorted.iter().map(|r| r.signature.as_str()).collect();
    assert_eq!(names, vec!["earlier", "first", "second", "third"]);
}

#[test]
fn aggregate_sorts_its_records() {
    let w = TimeWindow { from: 0, to: 1000 };
    let a = aggregate(vec![record("b", 20, true, 1), record("a", 10, false, 2)], &w);
    let names: Vec<&str> = a.transactions.iter().map(|r| r.signature.as_str()).collect();
    assert_eq!(names, vec!["a", "b"]);
    assert_eq!(a.time_period, w);
}

// Zero signatures in the window: every count zero, mean zero, no buckets.
#[test]
fn empty_run_yields_zeroed_analysis_and_no_buckets() {
    let w = TimeWindow { from: 100, to: 1000 };
    let a = aggregate(Vec::new(), &w);
    assert_eq!(a.total_transactions, 0);
    assert_eq!(a.successful_transactions, 0);
    assert_eq!(a.failed_transactions, 0);
    assert_eq!(a.total_fees_lamports, 0);
    assert_eq!(average_fee_lamports(&a), (0, 0));
    assert!(a.transactions.is_empty());
    let buckets = hourly_buckets(&a.transactions, &w);
    assert!(buckets.is_empty());
}
