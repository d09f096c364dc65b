use kindling::config::{
    default_cache_file, default_max_age_secs, join_path, load, load_with_path, Config,
    DaemonConfig, GcConfig, IdentityConfig, ReportConfig, TelemetryConfig,
};
use kindling::config::env_layer;
use kindling::identity::{applies_before, is_overlay_file, overlay_order};
use kindling::text::split_str;
use kindling::tree::{MapEntry, YamlValue};

#[test]
fn overlay_order_pools_directories_by_file_name() {
    let paths = vec![
        "/etc/kindling/identity.d/01-x.yaml".to_string(),
        "/etc/kindling/identity.d/02-y.yaml".to_string(),
        "/home/u/extra/00-z.yaml".to_string(),
        "/etc/kindling/identity.d/notes.txt".to_string(),
    ];
    assert_eq!(
        overlay_order(&paths),
        vec![
            "/home/u/extra/00-z.yaml".to_string(),
            "/etc/kindling/identity.d/01-x.yaml".to_string(),
            "/etc/kindling/identity.d/02-y.yaml".to_string(),
        ]
    );
}

#[test]
fn overlay_order_breaks_name_ties_by_path() {
    let paths = vec!["/b/10.yml".to_string(), "/a/10.yml".to_string()];
    assert_eq!(overlay_order(&paths), vec!["/a/10.yml".to_string(), "/b/10.yml".to_string()]);
    assert!(applies_before("/a/10.yml", "/b/10.yml"));
    assert!(!applies_before("/b/10.yml", "/a/10.yml"));
}

#[test]
fn overlay_order_of_nothing_is_empty() {
    assert!(overlay_order(&vec![]).is_empty());
}

#[test]
fn overlay_files_are_yaml_or_yml() {
    assert!(is_overlay_file("/d/a.yaml"));
    assert!(is_overlay_file("/d/a.yml"));
    assert!(!is_overlay_file("/d/a.json"));
    assert!(!is_overlay_file("/d/.yaml"));
    assert!(!is_overlay_file("/d.yaml/readme"));
    assert!(is_overlay_file("b.tar.yaml"));
}

#[test]
fn config_defaults() {
    let d = DaemonConfig::default();
    assert_eq!(d.http_addr, "127.0.0.1:9100");
    assert_eq!(d.grpc_addr, "127.0.0.1:9101");
    assert_eq!(d.log_level, "info");
    assert_eq!(d.telemetry, TelemetryConfig::default());
    assert_eq!(d.telemetry.vector_url, "http://localhost:8686");
    assert_eq!(d.telemetry.push_interval_secs, 60);
    assert_eq!(d.gc, GcConfig { schedule_secs: 0 });
    assert_eq!(d.report.refresh_interval_secs, 300);
    assert_eq!(d.report.max_age_secs, 600);
    assert!(d.report.cache_file.ends_with("kindling/report.json"));
    assert!(d.fleet_controller.state_file.ends_with("kindling/fleet.json"));
    assert_eq!(default_max_age_secs(), 600);
    assert!(default_cache_file().ends_with("/kindling/report.json"));
    let c = Config::default();
    assert!(c.daemon.is_none() && c.nodes.is_empty() && c.backend.is_none());
    assert_eq!(c.identity, IdentityConfig::default());
    assert_eq!(ReportConfig::default().max_age_secs, 600);
}

#[test]
fn join_path_adds_one_separator() {
    assert_eq!(join_path("/home/u/.config", "kindling"), "/home/u/.config/kindling");
    assert_eq!(join_path("/home/u/", "kindling"), "/home/u/kindling");
    assert_eq!(join_path("", "kindling"), "kindling");
}

fn kv(k: &str, v: &str) -> YamlValue {
    YamlValue::Mapping(vec![MapEntry { key: k.to_string(), value: YamlValue::Str(v.to_string()) }])
}

#[test]
fn config_layers_merge_in_order() {
    let merged = load(kv("backend", "upstream"), vec![None, Some(kv("backend", "determinate"))]);
    assert_eq!(merged, kv("backend", "determinate"));
    let with_path = load_with_path(kv("backend", "upstream"), vec![Some(kv("backend", "determinate"))], Some(kv("backend", "custom")));
    assert_eq!(with_path, kv("backend", "custom"));
}

#[test]
fn environment_layer_nests_lowercased_keys() {
    let vars = vec![
        ("KINDLING_BACKEND".to_string(), "determinate".to_string()),
        ("KINDLING_DAEMON__REPORT__MAX_AGE_SECS".to_string(), "900".to_string()),
        ("KINDLING_DAEMON__TELEMETRY__ENABLED".to_string(), "true".to_string()),
        ("HOME".to_string(), "/root".to_string()),
    ];
    let t = env_layer(&vars);
    let m = |entries: Vec<(&str, YamlValue)>| {
        YamlValue::Mapping(entries.into_iter().map(|(k, v)| MapEntry { key: k.to_string(), value: v }).collect())
    };
    assert_eq!(
        t,
        m(vec![
            ("backend", YamlValue::Str("determinate".to_string())),
            (
                "daemon",
                m(vec![
                    ("report", m(vec![("max_age_secs", YamlValue::Number("900".to_string()))])),
                    ("telemetry", m(vec![("enabled", YamlValue::Bool(true))])),
                ]),
            ),
        ])
    );
    assert_eq!(env_layer(&vec![]), m(vec![]));
}

#[test]
fn split_on_a_string_pattern() {
    assert_eq!(split_str("a__b__c", "__"), vec!["a", "b", "c"]);
    assert_eq!(split_str("abc", "__"), vec!["abc"]);
    assert_eq!(split_str("__a", "__"), vec!["", "a"]);
}
