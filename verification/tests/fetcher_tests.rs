use fee_scan::aggregate::aggregate;
use fee_scan::fetcher::{make_batches, make_record, BATCH_SIZE};
use fee_scan::types::{SignatureEntry, TimeWindow};

fn entry(sig: &str, block_time: Option<i64>) -> SignatureEntry {
    SignatureEntry { signature: String::from(sig), block_time, failed: false }
}

#[test]
fn no_signatures_make_no_batches() {
    let batches = make_batches(Vec::new(), BATCH_SIZE);
    assert!(batches.is_empty());
}

#[test]
fn exact_multiple_fills_every_batch() {
    let sigs: Vec<SignatureEntry> = (0..10).map(|i| entry(&format!("s{}", i), Some(i))).collect();
    let batches = make_batches(sigs, 5);
    assert_eq!(batches.len(), 2);
    assert_eq!(batches[0].len(), 5);
    assert_eq!(batches[1].len(), 5);
    assert_eq!(batches[1][4].signature, "s9");
}

// Seven signatures with a batch size of five split into batches of five and
// two; a failure on the third signature of the first batch skips just that
// one, leaving six records.
#[test]
fn seven_signatures_batch_into_five_and_two_with_one_skip() {
    let sigs: Vec<SignatureEntry> = (0..7).map(|i| entry(&format!("s{}", i), Some(100 + i))).collect();
    let batches = make_batches(sigs, 5);
    let sizes: Vec<usize> = batches.iter().map(|b| b.len()).collect();
    assert_eq!(sizes, vec![5, 2]);

    // Replay the fetch loop with a fake gateway that fails on "s2" (the
    // third signature of the first batch) and log the skip aside.
    let mut records = Vec::new();
    let mut skipped = Vec::new();
    for batch in &batches {
        for sig in batch {
            if sig.signature == "s2" {
                skipped.push(sig.signature.clone());
                continue;
            }
            records.push(make_record(sig.signature.clone(), 10, true, sig.block_time, None));
        }
    }
    assert_eq!(records.len(), 6);
    assert_eq!(skipped, vec![String::from("s2")]);
    let analysis = aggregate(records, &TimeWindow { from: 0, to: 1000 });
    assert_eq!(analysis.total_transactions, 6);
    assert_eq!(analysis.successful_transactions, 6);
    assert_eq!(analysis.failed_transactions, 0);
    assert_eq!(analysis.total_fees_lamports, 60);
}

#[test]
fn batches_concatenate_back_to_the_input() {
    let sigs: Vec<SignatureEntry> = (0..13).map(|i| entry(&format!("s{}", i), Some(i))).collect();
    let batches = make_batches(sigs, BATCH_SIZE);
    let flat: Vec<String> = batches.iter().flat_map(|b| b.iter().map(|e| e.signature.clone())).collect();
    let expected: Vec<String> = (0..13).map(|i| format!("s{}", i)).collect();
    assert_eq!(flat, expected);
    assert_eq!(batches.last().unwrap().len(), 3);
}

#[test]
fn record_takes_the_answer_fields() {
    let r = make_record(String::from("sig"), 5000, false, Some(1_700_000_123), Some(200_000));
    assert_eq!(r.signature, "sig");
    assert_eq!(r.fee_lamports, 5000);
    assert!(!r.success);
    assert_eq!(r.timestamp, 1_700_000_123);
    assert_eq!(r.compute_units, Some(200_000));
}

#[test]
fn record_missing_block_time_falls_back_to_epoch() {
    let r = make_record(String::from("sig"), 1, true, None, None);
    assert_eq!(r.timestamp, 0);
    assert_eq!(r.compute_units, None);
}
