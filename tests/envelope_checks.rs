use kindling::envelope::{hex_encode, report_checksum, StoredReport, Timestamp, COLLECTOR_VERSION};

fn at(secs: i64) -> Timestamp {
    Timestamp { secs, nanos: 0 }
}

#[test]
fn checksum_is_sha256_hex_of_report() {
    assert_eq!(
        report_checksum(&"abc".to_string()),
        "sha256:ba7816bf8f01cfea414140de5dae2223b00361a396177a9cb410ff61f20015ad"
    );
    assert_eq!(
        report_checksum(&String::new()),
        "sha256:e3b0c44298fc1c149afbf4c8996fb92427ae41e4649b934ca495991b7852b855"
    );
}

#[test]
fn hex_encodes_two_lowercase_digits_per_byte() {
    assert_eq!(hex_encode(&vec![0x00, 0x0f, 0xa5, 0xff]), "000fa5ff");
    assert_eq!(hex_encode(&vec![]), "");
}

#[test]
fn wrapped_report_verifies() {
    let e = StoredReport::new("{\"hostname\":\"node-1\"}".to_string());
    assert!(e.verify());
    assert_eq!(e.collector_version, COLLECTOR_VERSION);
    assert!(e.checksum.starts_with("sha256:"));
}

#[test]
fn mutated_report_fails_verification() {
    let mut e = StoredReport::seal("{\"hostname\":\"node-1\"}".to_string(), at(1_700_000_000));
    e.report = "{\"hostname\":\"node-2\"}".to_string();
    assert!(!e.verify());
    let resealed = StoredReport::seal(e.report.clone(), e.collected_at);
    assert_ne!(resealed.checksum, StoredReport::seal("{\"hostname\":\"node-1\"}".to_string(), at(1)).checksum);
}

#[test]
fn tampered_checksum_fails_verification() {
    let mut e = StoredReport::seal("{}".to_string(), at(0));
    e.checksum = "sha256:00".to_string();
    assert!(!e.verify());
}

#[test]
fn staleness_boundary_is_not_stale() {
    let e = StoredReport::seal("{}".to_string(), at(1000));
    assert_eq!(e.age_secs_at(at(1600)), 600);
    assert!(!e.is_stale_at(at(1600), 600));
    assert!(e.is_stale_at(at(1601), 600));
}

#[test]
fn age_truncates_toward_zero_and_passes_skew_through() {
    let e = StoredReport::seal("{}".to_string(), Timestamp { secs: 100, nanos: 500_000_000 });
    assert_eq!(e.age_secs_at(Timestamp { secs: 101, nanos: 0 }), 0);
    assert_eq!(e.age_secs_at(Timestamp { secs: 102, nanos: 600_000_000 }), 2);
    assert_eq!(e.age_secs_at(Timestamp { secs: 98, nanos: 0 }), -2);
    assert!(!e.is_stale_at(Timestamp { secs: 50, nanos: 0 }, 0));
}

#[test]
fn fresh_envelope_is_not_stale_now() {
    let e = StoredReport::new("{}".to_string());
    assert!(!e.is_stale(600));
    assert!(e.age_secs() >= 0);
}

#[test]
fn timestamp_range_check() {
    assert!(at(0).is_valid());
    assert!(!Timestamp { secs: i64::MAX, nanos: 0 }.is_valid());
    assert!(!Timestamp { secs: 0, nanos: 2_000_000_000 }.is_valid());
}

#[test]
fn duplicate_is_equal() {
    let e = StoredReport::seal("{\"a\":1}".to_string(), at(5));
    assert_eq!(e.duplicate(), e);
}
