use kindling::config::{IdentityConfig, ReportConfig};
use kindling::envelope::{StoredReport, Timestamp};
use kindling::identity::IdentityError;
use kindling::service::NodeService;
use kindling::store::{ReportStore, StoreError};
use kindling::tree::{MapEntry, YamlValue};

fn report_config() -> ReportConfig {
    ReportConfig {
        refresh_interval_secs: 300,
        cache_file: "/var/lib/kindling/report.json".to_string(),
        max_age_secs: 600,
    }
}

fn identity_config() -> IdentityConfig {
    IdentityConfig { overlay_dirs: vec![], private_fields: vec!["secrets.ageKeys".to_string()] }
}

fn identity() -> YamlValue {
    YamlValue::Mapping(vec![
        MapEntry { key: "hostname".to_string(), value: YamlValue::Str("n".to_string()) },
        MapEntry {
            key: "secrets".to_string(),
            value: YamlValue::Mapping(vec![MapEntry {
                key: "ageKeys".to_string(),
                value: YamlValue::Str("k".to_string()),
            }]),
        },
    ])
}

#[test]
fn end_to_end_refresh_then_restart() {
    let mut svc = NodeService::new(None, identity_config(), report_config());
    assert!(svc.cached_report().is_none());
    assert!(svc.is_stale_at(Timestamp { secs: 0, nanos: 0 }));
    let sealed = StoredReport::seal("{\"hostname\":\"n\"}".to_string(), Timestamp { secs: 1000, nanos: 0 });
    let returned = svc.refresh(sealed.clone(), Ok(())).unwrap();
    assert_eq!(returned, sealed);
    assert_eq!(svc.cached_report(), Some(sealed.clone()));
    assert!(!svc.is_stale_at(Timestamp { secs: 1600, nanos: 0 }));
    assert!(svc.is_stale_at(Timestamp { secs: 1601, nanos: 0 }));

    let mut restarted = NodeService::new(None, identity_config(), report_config());
    restarted.load_from_disk(Ok(sealed.clone()));
    assert_eq!(restarted.cached_report(), Some(sealed));
}

#[test]
fn failed_write_keeps_previous_cache() {
    let mut svc = NodeService::new(None, identity_config(), report_config());
    let first = StoredReport::seal("{\"n\":1}".to_string(), Timestamp { secs: 10, nanos: 0 });
    svc.refresh(first.clone(), Ok(())).unwrap();
    let second = StoredReport::seal("{\"n\":2}".to_string(), Timestamp { secs: 20, nanos: 0 });
    let r = svc.refresh(second, Err(StoreError::Io("disk full".to_string())));
    assert_eq!(r, Err(StoreError::Io("disk full".to_string())));
    assert_eq!(svc.cached_report(), Some(first));
}

#[test]
fn corrupt_or_missing_file_leaves_cache_empty() {
    let mut svc = NodeService::new(None, identity_config(), report_config());
    let mut bad = StoredReport::seal("{}".to_string(), Timestamp { secs: 1, nanos: 0 });
    bad.report = "{\"x\":1}".to_string();
    svc.load_from_disk(Ok(bad));
    assert!(svc.cached_report().is_none());
    svc.load_from_disk(Err(StoreError::NotFound));
    assert!(svc.cached_report().is_none());
}

#[test]
fn identity_reads_and_reload() {
    let mut svc = NodeService::new(Some(identity()), identity_config(), report_config());
    assert_eq!(svc.identity(), Some(identity()));
    let redacted = svc.redacted_identity().unwrap();
    assert_eq!(
        redacted,
        YamlValue::Mapping(vec![
            MapEntry { key: "hostname".to_string(), value: YamlValue::Str("n".to_string()) },
            MapEntry { key: "secrets".to_string(), value: YamlValue::Mapping(vec![]) },
        ])
    );
    let err = svc.reload_identity(Err(IdentityError::Unparsable("bad".to_string())));
    assert_eq!(err, Err(IdentityError::Unparsable("bad".to_string())));
    assert_eq!(svc.identity(), Some(identity()));
    assert_eq!(svc.reload_identity(Ok(YamlValue::Null)), Ok(()));
    assert_eq!(svc.identity(), Some(YamlValue::Null));
    assert_eq!(svc.report_config().max_age_secs, 600);
    assert_eq!(svc.store().path(), "/var/lib/kindling/report.json");
}

#[test]
fn check_loaded_accepts_only_verified_envelopes() {
    let e = StoredReport::seal("{\"k\":true}".to_string(), Timestamp { secs: 3, nanos: 0 });
    assert_eq!(ReportStore::check_loaded(e.clone()), Ok(e.clone()));
    let mut bad = e.clone();
    bad.checksum = "sha256:deadbeef".to_string();
    assert_eq!(ReportStore::check_loaded(bad), Err(StoreError::ChecksumMismatch));
    let mut far = e;
    far.collected_at = Timestamp { secs: i64::MIN, nanos: 0 };
    assert_eq!(ReportStore::check_loaded(far), Err(StoreError::TimestampOutOfRange));
}

#[test]
fn temp_path_replaces_extension() {
    let t = |p: &str| ReportStore::new(p.to_string()).temp_path();
    assert_eq!(t("/home/u/.config/kindling/report.json"), "/home/u/.config/kindling/report.json.tmp");
    assert_eq!(t("report"), "report.json.tmp");
    assert_eq!(t("/a.b/report"), "/a.b/report.json.tmp");
    assert_eq!(t(".hidden"), ".hidden.json.tmp");
    assert_eq!(t("x/data.bin"), "x/data.json.tmp");
}
