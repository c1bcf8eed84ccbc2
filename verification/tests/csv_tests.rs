use fee_scan::csv::{csv_header, csv_row, parse_csv_row};
use fee_scan::text::{parse_u64, str_eq_chars, u64_to_dec};
use fee_scan::types::TransactionRecord;

fn record(sig: &str, timestamp: i64, success: bool, fee: u64, cu: Option<u64>) -> TransactionRecord {
    TransactionRecord {
        signature: String::from(sig),
        timestamp,
        success,
        fee_lamports: fee,
        compute_units: cu,
    }
}

#[test]
fn header_names_the_five_columns() {
    assert_eq!(csv_header(), "timestamp,signature,success,fee_lamports,compute_units");
}

#[test]
fn decimal_text_round_trips() {
    assert_eq!(u64_to_dec(0), "0");
    assert_eq!(u64_to_dec(5000), "5000");
    assert_eq!(u64_to_dec(u64::MAX), "18446744073709551615");
    assert_eq!(parse_u64("0"), Some(0));
    assert_eq!(parse_u64("5000"), Some(5000));
    assert_eq!(parse_u64("18446744073709551615"), Some(u64::MAX));
    assert_eq!(parse_u64("18446744073709551616"), None);
    assert_eq!(parse_u64(""), None);
    assert_eq!(parse_u64("12a"), None);
    assert_eq!(parse_u64("007"), Some(7));
}

#[test]
fn string_comparison_is_by_contents() {
    assert!(str_eq_chars("true", "true"));
    assert!(!str_eq_chars("true", "false"));
    assert!(!str_eq_chars("N/A", "N/"));
}

#[test]
fn row_renders_the_calendar_timestamp() {
    // 2023-11-14 22:13:20 UTC.
    let t = 1_700_000_000;
    let row = csv_row(&record("sig1", t, true, 5000, Some(150_000)));
    let expected_ts = chrono::DateTime::<chrono::Utc>::from_timestamp(t, 0)
        .unwrap()
        .format("%Y-%m-%d %H:%M:%S")
        .to_string();
    assert_eq!(expected_ts, "2023-11-14 22:13:20");
    assert_eq!(row, format!("{},sig1,true,5000,150000", expected_ts));
}

#[test]
fn row_writes_missing_compute_units_as_na() {
    let row = csv_row(&record("sig2", 0, false, 1, None));
    assert_eq!(row, "1970-01-01 00:00:00,sig2,false,1,N/A");
}

// Re-parsing a rendered row reproduces signature, success flag and fee
// exactly, for every retained record.
#[test]
fn rendered_rows_parse_back_to_their_records() {
    let records = vec![
        record("5VERYopaqueS1gnatureXYZ", 1_700_000_000, true, 5000, Some(200_000)),
        record("anotherSig", 1_700_003_600, false, 12345, None),
        record("thirdSig", 0, true, 0, Some(0)),
        record("maxFee", 253_402_300_799, false, u64::MAX, Some(u64::MAX)),
    ];
    for r in &records {
        let line = csv_row(r);
        let parsed = parse_csv_row(&line).expect("a rendered row must parse back");
        assert_eq!(parsed.signature, r.signature);
        assert_eq!(parsed.success, r.success);
        assert_eq!(parsed.fee_lamports, r.fee_lamports);
        assert_eq!(parsed.compute_units, r.compute_units);
    }
}

#[test]
fn malformed_lines_do_not_parse() {
    assert!(parse_csv_row("too,few,columns").is_none());
    assert!(parse_csv_row("a,b,c,d,e,f").is_none());
    assert!(parse_csv_row("ts,sig,maybe,5000,N/A").is_none());
    assert!(parse_csv_row("ts,sig,true,notanumber,N/A").is_none());
    assert!(parse_csv_row("ts,sig,true,5000,bad").is_none());
}

#[test]
fn parse_reads_the_five_columns() {
    let parsed = parse_csv_row("2023-11-14 22:13:20,abc,false,77,N/A").expect("well-formed line");
    assert_eq!(parsed.signature, "abc");
    assert!(!parsed.success);
    assert_eq!(parsed.fee_lamports, 77);
    assert_eq!(parsed.compute_units, None);
}
