use rdns::blacklist::{Blacklist, SourceOutcome};
use rdns::fingerprint::fingerprint;

#[test]
fn empty_set_blocks_nothing() {
    let bl = Blacklist::new();
    assert_eq!(bl.len(), 0);
    assert!(!bl.is_blocked(&b"example.com.".to_vec()));
}

#[test]
fn merge_deduplicates_and_reports() {
    let mut bl = Blacklist::new();
    let first = bl.merge_source(&vec![5u64, 3, 5, 1]);
    assert_eq!(first.total, 4);
    assert_eq!(first.fresh, 3);
    assert_eq!(bl.len(), 3);
    let second = bl.merge_source(&vec![3u64, 7]);
    assert_eq!(second.total, 2);
    assert_eq!(second.fresh, 1);
    assert_eq!(bl.len(), 4);
    assert!(bl.contains_fp(1));
    assert!(bl.contains_fp(3));
    assert!(bl.contains_fp(5));
    assert!(bl.contains_fp(7));
    assert!(!bl.contains_fp(2));
}

#[test]
fn lookup_uses_the_same_normalization_as_ingestion() {
    let mut bl = Blacklist::new();
    let fp = fingerprint(&b"Ads.Example.COM".to_vec());
    bl.merge_source(&vec![fp]);
    assert!(bl.is_blocked(&b"ads.example.com.".to_vec()));
    assert!(bl.is_blocked(&b"ADS.EXAMPLE.COM".to_vec()));
    assert!(!bl.is_blocked(&b"other.example.com.".to_vec()));
}

#[test]
fn failed_source_is_isolated() {
    let mut bl = Blacklist::new();
    let results = vec![
        SourceOutcome::Fetched(vec![10u64, 11]),
        SourceOutcome::Failed,
        SourceOutcome::Fetched(vec![12u64]),
    ];
    let report = bl.apply_results(&results);
    assert_eq!(report.sources.len(), 3);
    assert_eq!(report.sources[0].total, 2);
    assert_eq!(report.sources[1].total, 0);
    assert_eq!(report.sources[1].fresh, 0);
    assert_eq!(report.sources[2].total, 1);
    assert!(bl.contains_fp(10));
    assert!(bl.contains_fp(11));
    assert!(bl.contains_fp(12));
    assert_eq!(bl.len(), 3);
}

#[test]
fn refresh_keeps_previous_members() {
    let mut bl = Blacklist::new();
    bl.merge_source(&vec![42u64]);
    let results = vec![SourceOutcome::Fetched(vec![7u64])];
    bl.apply_results(&results);
    assert!(bl.contains_fp(42));
    assert!(bl.contains_fp(7));
    assert!(!bl.contains_fp(8));
}

#[test]
fn rebuild_leaves_live_set_untouched_until_swap() {
    let bl = Blacklist::new();
    let results = vec![SourceOutcome::Fetched(vec![1u64, 2, 3])];
    let (fresh, report) = bl.rebuilt(&results);
    assert_eq!(report.sources.len(), 1);
    // The previous complete set stays live while the new one is built.
    assert_eq!(bl.len(), 0);
    assert!(!bl.contains_fp(2));
    assert_eq!(fresh.len(), 3);
    assert!(fresh.contains_fp(2));
}
