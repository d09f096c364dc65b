use kindling::identity::{load_with_overlays, merge_overlays, redact, IdentityError};
use kindling::tree::{copy_value, deep_merge, remove_field_path, MapEntry, YamlValue};

fn num(n: &str) -> YamlValue {
    YamlValue::Number(n.to_string())
}

fn text(s: &str) -> YamlValue {
    YamlValue::Str(s.to_string())
}

fn map(entries: Vec<(&str, YamlValue)>) -> YamlValue {
    YamlValue::Mapping(
        entries
            .into_iter()
            .map(|(k, v)| MapEntry { key: k.to_string(), value: v })
            .collect(),
    )
}

#[test]
fn merge_nested_mapping_overlay_wins_and_keeps_base_keys() {
    let mut base = map(vec![("a", map(vec![("b", num("1")), ("c", num("3"))]))]);
    let overlay = map(vec![("a", map(vec![("b", num("2"))]))]);
    deep_merge(&mut base, overlay);
    assert_eq!(base, map(vec![("a", map(vec![("b", num("2")), ("c", num("3"))]))]));
}

#[test]
fn merge_null_overlay_leaves_base_untouched() {
    let mut base = map(vec![("a", map(vec![("b", num("1"))]))]);
    let overlay = map(vec![("a", YamlValue::Null)]);
    deep_merge(&mut base, overlay);
    assert_eq!(base, map(vec![("a", map(vec![("b", num("1"))]))]));
}

#[test]
fn merge_sequence_overlay_replaces_whole() {
    let mut base = map(vec![("a", YamlValue::Sequence(vec![num("9")]))]);
    let overlay = map(vec![("a", YamlValue::Sequence(vec![num("1"), num("2")]))]);
    deep_merge(&mut base, overlay);
    assert_eq!(base, map(vec![("a", YamlValue::Sequence(vec![num("1"), num("2")]))]));
}

#[test]
fn merge_new_keys_are_appended_in_overlay_order() {
    let mut base = map(vec![("x", num("1"))]);
    let overlay = map(vec![("z", num("2")), ("y", num("3"))]);
    deep_merge(&mut base, overlay);
    assert_eq!(base, map(vec![("x", num("1")), ("z", num("2")), ("y", num("3"))]));
}

#[test]
fn merge_scalar_over_mapping_replaces() {
    let mut base = map(vec![("a", map(vec![("b", num("1"))]))]);
    deep_merge(&mut base, map(vec![("a", text("flat"))]));
    assert_eq!(base, map(vec![("a", text("flat"))]));
}

#[test]
fn merge_top_level_null_keeps_base() {
    let mut base = map(vec![("a", num("1"))]);
    deep_merge(&mut base, YamlValue::Null);
    assert_eq!(base, map(vec![("a", num("1"))]));
}

#[test]
fn overlays_apply_in_order_and_failed_ones_are_skipped() {
    let base = map(vec![("host", text("base")), ("user", text("root"))]);
    let overlays = vec![
        Some(map(vec![("host", text("first"))])),
        None,
        Some(map(vec![("host", text("second")), ("shell", text("zsh"))])),
    ];
    let merged = merge_overlays(base, overlays);
    assert_eq!(
        merged,
        map(vec![("host", text("second")), ("user", text("root")), ("shell", text("zsh"))])
    );
}

#[test]
fn unreadable_base_fails_the_load() {
    let r = load_with_overlays(Err(IdentityError::Unreadable("gone".to_string())), &vec![]);
    assert_eq!(r, Err(IdentityError::Unreadable("gone".to_string())));
}

#[test]
fn load_with_overlays_merges_onto_parsed_base() {
    let r = load_with_overlays(
        Ok(map(vec![("a", num("1"))])),
        &vec![("/d/b.yaml".to_string(), Some(map(vec![("b", num("2"))])))],
    );
    assert_eq!(r, Ok(map(vec![("a", num("1")), ("b", num("2"))])));
}

fn identity() -> YamlValue {
    map(vec![
        ("hostname", text("node-1")),
        (
            "secrets",
            map(vec![
                ("provider", text("sops")),
                ("ageKeys", YamlValue::Sequence(vec![text("age1xyz")])),
            ]),
        ),
    ])
}

#[test]
fn redact_removes_only_the_named_field() {
    let r = redact(&identity(), &vec!["secrets.ageKeys".to_string()]);
    assert_eq!(
        r,
        map(vec![("hostname", text("node-1")), ("secrets", map(vec![("provider", text("sops"))]))])
    );
}

#[test]
fn redact_nonexistent_path_is_a_no_op() {
    let r = redact(&identity(), &vec!["secrets.missing".to_string(), "nothing.here".to_string()]);
    assert_eq!(r, identity());
}

#[test]
fn redact_through_a_scalar_is_a_no_op() {
    let r = redact(&identity(), &vec!["hostname.inner".to_string()]);
    assert_eq!(r, identity());
}

#[test]
fn remove_top_level_field() {
    let mut v = identity();
    remove_field_path(&mut v, "hostname");
    assert_eq!(
        v,
        map(vec![(
            "secrets",
            map(vec![
                ("provider", text("sops")),
                ("ageKeys", YamlValue::Sequence(vec![text("age1xyz")])),
            ]),
        )])
    );
}

#[test]
fn copy_is_equal() {
    let v = identity();
    assert_eq!(copy_value(&v), v);
}

#[test]
fn merge_null_under_missing_key_adds_nothing() {
    let mut base = map(vec![("a", num("1"))]);
    deep_merge(&mut base, map(vec![("k", YamlValue::Null), ("b", num("2"))]));
    assert_eq!(base, map(vec![("a", num("1")), ("b", num("2"))]));
    let mut empty = map(vec![]);
    deep_merge(&mut empty, map(vec![("k", YamlValue::Null)]));
    assert_eq!(empty, map(vec![]));
}

#[test]
fn redact_removes_repeated_keys_too() {
    let v = map(vec![
        ("secrets", map(vec![("ageKeys", text("a")), ("provider", text("sops"))])),
        ("secrets", map(vec![("ageKeys", text("b"))])),
        ("ageKeys", text("top")),
    ]);
    let r = redact(&v, &vec!["secrets.ageKeys".to_string()]);
    assert_eq!(
        r,
        map(vec![
            ("secrets", map(vec![("provider", text("sops"))])),
            ("secrets", map(vec![])),
            ("ageKeys", text("top")),
        ])
    );
}

#[test]
fn pooled_overlay_files_apply_by_file_name() {
    let base = map(vec![("version", text("1")), ("hostname", text("base"))]);
    let files = vec![
        ("/a/01-x.yaml".to_string(), Some(map(vec![("hostname", text("x"))]))),
        ("/a/02-y.yaml".to_string(), Some(map(vec![("hostname", text("y"))]))),
        ("/b/00-z.yaml".to_string(), Some(map(vec![("hostname", text("z")), ("zone", text("b"))]))),
        ("/a/notes.txt".to_string(), None),
        ("/b/03-bad.yml".to_string(), None),
    ];
    let r = load_with_overlays(Ok(base), &files).unwrap();
    assert_eq!(r, map(vec![("version", text("1")), ("hostname", text("y")), ("zone", text("b"))]));
}
