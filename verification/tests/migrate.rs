use artifact_keeper_cli::migrate::{next_page, total_size, MigrationTally};

#[test]
fn full_page_asks_for_the_next() {
    assert_eq!(next_page(1, 100, 100), Some(2));
    assert_eq!(next_page(7, 100, 250), Some(8));
}

#[test]
fn short_page_ends_the_listing() {
    assert_eq!(next_page(3, 100, 42), None);
    assert_eq!(next_page(1, 100, 0), None);
}

#[test]
fn total_size_sums_the_sizes() {
    assert_eq!(total_size(&vec![]), 0);
    assert_eq!(total_size(&vec![1024, 2048, 5]), 3077);
}

#[test]
fn tally_counts_copies_and_failures() {
    let mut t = MigrationTally::new();
    assert!(!t.any_failed());
    t.record(Some(100));
    t.record(Some(23));
    assert!(!t.any_failed());
    t.record(None);
    assert_eq!((t.succeeded, t.failed, t.bytes), (2, 1, 123));
    assert!(t.any_failed());
}
