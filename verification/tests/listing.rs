use apkfetch::batch::{batch_wall_time, Limiter, TaskSpan};
use apkfetch::versions::{scan_version_lines, split_lines, VersionEntry};

fn page_lines(page: &[u8]) -> Vec<Vec<u8>> {
    split_lines(page)
}

#[test]
fn two_versions_pair_with_their_own_dates() {
    let page = b"<div data-version=\"2.0.1\">\n<span data-date=\"2024-01-02\">\n<div data-version=\"1.9.0\">\n<span data-date=\"2023-11-20\">\n".to_vec();
    let lines = page_lines(&page);
    let entries = scan_version_lines(&lines, b"data-version=\"", b"data-date=\"", 3);
    assert_eq!(entries.len(), 2);
    assert_eq!(
        entries[0],
        VersionEntry { version: b"2.0.1".to_vec(), release_date: Some(b"2024-01-02".to_vec()) }
    );
    assert_eq!(
        entries[1],
        VersionEntry { version: b"1.9.0".to_vec(), release_date: Some(b"2023-11-20".to_vec()) }
    );
}

#[test]
fn version_without_nearby_date_is_unknown() {
    let page = b"<div data-version=\"2.0.1\">\n<p>filler</p>\n<p>filler</p>\n<p>filler</p>\n<span data-date=\"2024-01-02\">\n".to_vec();
    let lines = page_lines(&page);
    let entries = scan_version_lines(&lines, b"data-version=\"", b"data-date=\"", 2);
    assert_eq!(entries.len(), 1);
    assert_eq!(entries[0].version, b"2.0.1".to_vec());
    assert_eq!(entries[0].release_date, None);
}

#[test]
fn date_is_not_taken_past_the_next_version() {
    let page = b"<div data-version=\"2.0.1\">\n<div data-version=\"1.9.0\">\n<span data-date=\"2023-11-20\">\n".to_vec();
    let lines = page_lines(&page);
    let entries = scan_version_lines(&lines, b"data-version=\"", b"data-date=\"", 5);
    assert_eq!(entries.len(), 2);
    assert_eq!(entries[0].version, b"2.0.1".to_vec());
    assert_eq!(entries[0].release_date, None);
    assert_eq!(entries[1].version, b"1.9.0".to_vec());
    assert_eq!(entries[1].release_date, Some(b"2023-11-20".to_vec()));
}

#[test]
fn page_without_version_markers_lists_nothing() {
    let page = b"<html>\n<p>nothing marked here</p>\n</html>".to_vec();
    let lines = page_lines(&page);
    let entries = scan_version_lines(&lines, b"data-version=\"", b"data-date=\"", 3);
    assert!(entries.is_empty());
}

#[test]
fn single_slot_serializes_fetches() {
    let mut limiter = Limiter::new(1);
    assert!(limiter.try_acquire());
    assert!(!limiter.try_acquire());
    assert!(!limiter.try_acquire());
    limiter.release();
    assert!(limiter.try_acquire());
}

#[test]
fn cap_bounds_concurrent_slots() {
    let mut limiter = Limiter::new(3);
    assert!(limiter.try_acquire());
    assert!(limiter.try_acquire());
    assert!(limiter.try_acquire());
    assert!(!limiter.try_acquire());
    limiter.release();
    assert!(limiter.try_acquire());
    assert!(!limiter.try_acquire());
}

#[test]
fn zero_parallelism_grants_nothing() {
    let mut limiter = Limiter::new(0);
    assert!(!limiter.try_acquire());
}

#[test]
fn wall_time_is_the_last_finish() {
    let spans = vec![
        TaskSpan { start: 5, end: 10 },
        TaskSpan { start: 7, end: 8 },
    ];
    assert_eq!(batch_wall_time(&spans), 10);
}

#[test]
fn paced_batch_takes_at_least_the_delay_but_not_one_delay_per_task() {
    let delay: u64 = 5;
    let spans = vec![
        TaskSpan { start: 5, end: 9 },
        TaskSpan { start: 5, end: 9 },
    ];
    let wall = batch_wall_time(&spans);
    assert!(wall >= delay);
    assert!(wall < delay * spans.len() as u64);
}

#[test]
fn empty_batch_has_no_wall_time() {
    assert_eq!(batch_wall_time(&Vec::new()), 0);
}

#[test]
fn one_entry_per_marker_line_in_document_order() {
    let page = b"<div data-version=\"3.0.0\">\n<p>filler</p>\n<div data-version=\"2.0.0\">\n<span data-date=\"2023-05-05\">\n<div data-version=\"1.0.0\">\n".to_vec();
    let lines = page_lines(&page);
    let entries = scan_version_lines(&lines, b"data-version=\"", b"data-date=\"", 2);
    assert_eq!(
        entries,
        vec![
            VersionEntry { version: b"3.0.0".to_vec(), release_date: None },
            VersionEntry { version: b"2.0.0".to_vec(), release_date: Some(b"2023-05-05".to_vec()) },
            VersionEntry { version: b"1.0.0".to_vec(), release_date: None },
        ]
    );
}

