use fee_scan::collector::{filter_in_window, page_step, start_run, PageStep};
use fee_scan::types::{SignatureEntry, TimeWindow};

fn entry(sig: &str, block_time: Option<i64>) -> SignatureEntry {
    SignatureEntry { signature: String::from(sig), block_time, failed: false }
}

#[test]
fn window_from_lookback() {
    let w = TimeWindow::new(1_000_000, 24);
    assert_eq!(w.to, 1_000_000);
    assert_eq!(w.from, 1_000_000 - 24 * 3600);
}

#[test]
fn window_non_positive_lookback_is_inverted_or_full() {
    let w = TimeWindow::new(5_000, 0);
    assert_eq!(w.from, 5_000);
    assert_eq!(w.to, 5_000);
    let w = TimeWindow::new(5_000, -2);
    assert!(w.from > w.to);
}

#[test]
fn window_extreme_lookback_clamps() {
    let w = TimeWindow::new(0, i64::MAX);
    assert_eq!(w.from, i64::MIN);
    let w = TimeWindow::new(0, i64::MIN);
    assert_eq!(w.from, i64::MAX);
}

#[test]
fn empty_page_stops_pagination() {
    let w = TimeWindow { from: 100, to: 1000 };
    let r = page_step(Vec::new(), &w);
    assert!(matches!(r, PageStep::NoMore));
}

#[test]
fn fresh_page_continues_with_oldest_cursor() {
    let w = TimeWindow { from: 100, to: 1000 };
    let page = vec![entry("newest", Some(900)), entry("middle", Some(500)), entry("oldest", Some(200))];
    match page_step(page, &w) {
        PageStep::Continue { page, cursor } => {
            assert_eq!(page.len(), 3);
            assert_eq!(cursor, "oldest");
        }
        _ => panic!("expected the walk to continue"),
    }
}

#[test]
fn oldest_without_block_time_continues() {
    let w = TimeWindow { from: 100, to: 1000 };
    let page = vec![entry("a", Some(50)), entry("b", None)];
    match page_step(page, &w) {
        PageStep::Continue { page, cursor } => {
            assert_eq!(page.len(), 2);
            assert_eq!(cursor, "b");
        }
        _ => panic!("expected the walk to continue"),
    }
}

// A page whose oldest entry predates the window start ends the walk and
// keeps exactly the in-window entries, wherever they sit in the page.
#[test]
fn boundary_page_keeps_scattered_entries_not_a_prefix() {
    let from = 10_000;
    let w = TimeWindow { from, to: 20_000 };
    let mut page = Vec::new();
    let mut expected = Vec::new();
    for i in 0..100u32 {
        // Entries alternate between in-window and too-old; the 37th by
        // position (index 36) and the last are too old, so in-window
        // entries are scattered across the whole page.
        let name = format!("sig{}", i);
        if i % 2 == 0 && i != 36 && i != 99 {
            page.push(entry(&name, Some(from + i as i64)));
            expected.push(name);
        } else {
            page.push(entry(&name, Some(from - 1 - i as i64)));
        }
    }
    match page_step(page, &w) {
        PageStep::Boundary { kept } => {
            let kept_names: Vec<String> = kept.iter().map(|e| e.signature.clone()).collect();
            assert_eq!(kept_names, expected);
        }
        _ => panic!("expected the boundary page to end the walk"),
    }
}

// Lookback of 24 hours from time T: a page whose oldest entry lies 30 hours
// back triggers termination on that page.
#[test]
fn page_older_than_lookback_terminates() {
    let t = 1_700_000_000;
    let w = TimeWindow::new(t, 24);
    let page = vec![
        entry("recent", Some(t - 3600)),
        entry("old", Some(t - 30 * 3600)),
    ];
    match page_step(page, &w) {
        PageStep::Boundary { kept } => {
            assert_eq!(kept.len(), 1);
            assert_eq!(kept[0].signature, "recent");
        }
        _ => panic!("expected termination on the boundary page"),
    }
}

#[test]
fn boundary_trim_keeps_entries_after_window_end() {
    // The boundary pass checks only the start bound; the full filter pass
    // later also enforces the end.
    let w = TimeWindow { from: 100, to: 1000 };
    let page = vec![entry("late", Some(5000)), entry("old", Some(10))];
    match page_step(page, &w) {
        PageStep::Boundary { kept } => {
            assert_eq!(kept.len(), 1);
            assert_eq!(kept[0].signature, "late");
        }
        _ => panic!("expected the boundary page to end the walk"),
    }
}

#[test]
fn filter_enforces_both_bounds_and_drops_missing_times() {
    let w = TimeWindow { from: 100, to: 1000 };
    let sigs = vec![
        entry("before", Some(99)),
        entry("at_start", Some(100)),
        entry("inside", Some(500)),
        entry("at_end", Some(1000)),
        entry("after", Some(1001)),
        entry("unconfirmed", None),
    ];
    let kept = filter_in_window(sigs, &w);
    let names: Vec<&str> = kept.iter().map(|e| e.signature.as_str()).collect();
    assert_eq!(names, vec!["at_start", "inside", "at_end"]);
}

#[test]
fn filter_of_inverted_window_is_empty() {
    let w = TimeWindow::new(5_000, -2);
    let sigs = vec![entry("a", Some(5_000)), entry("b", Some(6_000))];
    assert!(filter_in_window(sigs, &w).is_empty());
}

#[test]
fn start_run_accepts_a_valid_address() {
    let r = start_run("11111111111111111111111111111111", 24, 1_700_000_000);
    let w = r.expect("a well-formed base58 address must be accepted");
    assert_eq!(w.to, 1_700_000_000);
    assert_eq!(w.from, 1_700_000_000 - 24 * 3600);
}

#[test]
fn start_run_rejects_a_bad_address() {
    assert!(start_run("not a base58 address!", 24, 1_700_000_000).is_err());
    assert!(start_run("", 24, 1_700_000_000).is_err());
}
