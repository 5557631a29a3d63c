use meridian::metrics::{aggregate, bucket_key, bucket_seconds, range_hours, EntryFacts};

fn e(time: i64, status: u16, bytes: u64, is_http: bool) -> EntryFacts {
    EntryFacts { time, status, bytes, is_http }
}

#[test]
fn bucket_sizes() {
    assert_eq!(bucket_seconds("1h"), 60);
    assert_eq!(bucket_seconds("6h"), 300);
    assert_eq!(bucket_seconds("24h"), 900);
    assert_eq!(bucket_seconds("7d"), 60);
    assert_eq!(range_hours("24h"), 24);
    assert_eq!(range_hours("bogus"), 1);
    assert_eq!(bucket_key(125, 60), 120);
    assert_eq!(bucket_key(-125, 60), -120);
    assert_eq!(bucket_key(0, 900), 0);
}

#[test]
fn totals_and_buckets() {
    let entries = vec![
        e(1000, 200, 10, true),
        e(1010, 404, 20, true),
        e(1070, 502, 30, true),
        e(1130, 0, 5, false),
        e(5000, 301, 1, true),
    ];
    let m = aggregate(&entries, 60, 960, 1080);
    assert_eq!(m.total_requests, 5);
    assert_eq!(m.error_count, 2);
    assert_eq!(m.total_bytes, 66);
    let keys: Vec<i64> = m.buckets.iter().map(|b| b.key).collect();
    assert_eq!(keys, vec![960, 1020, 1080, 4980]);
    assert_eq!(m.buckets[0].requests, 2);
    assert_eq!(m.buckets[0].errors, 1);
    assert_eq!(m.buckets[0].bytes, 30);
    assert_eq!(m.buckets[1].requests, 1);
    assert_eq!(m.buckets[2].requests, 1);
    assert_eq!(m.buckets[2].errors, 0);
    let sum: u64 = m.buckets.iter().map(|b| b.requests).sum();
    assert_eq!(sum, m.total_requests);
    let groups: Vec<(String, u64)> = m.status_distribution.iter().map(|s| (s.group.clone(), s.count)).collect();
    assert_eq!(
        groups,
        vec![("2xx".to_string(), 1), ("3xx".to_string(), 1), ("4xx".to_string(), 1), ("5xx".to_string(), 1)]
    );
}

#[test]
fn empty_entries_prefill_only() {
    let m = aggregate(&[], 300, 0, 900);
    assert_eq!(m.total_requests, 0);
    assert_eq!(m.buckets.len(), 4);
    assert!(m.buckets.iter().all(|b| b.requests == 0 && b.errors == 0 && b.bytes == 0));
    assert!(m.status_distribution.is_empty());
}
