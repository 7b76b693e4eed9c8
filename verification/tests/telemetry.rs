use cbor_web::telemetry::Telemetry;

#[test]
fn first_scan_sets_first_and_last_use() {
    let mut tm = Telemetry::new();
    tm.record_scan("example.com", 1000, "0.1.0");
    assert_eq!(tm.scans, 1);
    assert_eq!(tm.first_use, 1000);
    assert_eq!(tm.last_use, 1000);
    assert_eq!(tm.domains, vec!["example.com".to_string()]);
    assert_eq!(tm.version, "0.1.0");
    tm.record_scan("example.com", 2000, "0.2.0");
    assert_eq!(tm.scans, 2);
    assert_eq!(tm.first_use, 1000);
    assert_eq!(tm.last_use, 2000);
    assert_eq!(tm.domains, vec!["example.com".to_string()]);
    assert_eq!(tm.version, "0.2.0");
    tm.record_scan("other.org", 3000, "0.2.0");
    assert_eq!(tm.domains, vec!["example.com".to_string(), "other.org".to_string()]);
}

#[test]
fn crawl_counts_time_and_a_scan() {
    let mut tm = Telemetry::new();
    tm.track_crawl("example.com", 7200, "0.1.0");
    assert_eq!(tm.crawls, 1);
    assert_eq!(tm.scans, 1);
    assert_eq!(tm.total_seconds, 7200);
    assert_eq!(tm.first_use, tm.last_use);
    assert!(tm.first_use > 0);
    tm.track_scan("example.com", "0.1.0");
    assert_eq!(tm.domains.len(), 1);
}
