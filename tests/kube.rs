use kindling::collector::{kube_item_count, node_conditions, nodes_ready, parse_k8s_allocated};
use kindling::tree::{MapEntry, YamlValue};

fn obj(entries: Vec<(&str, YamlValue)>) -> YamlValue {
    YamlValue::Mapping(entries.into_iter().map(|(k, v)| MapEntry { key: k.to_string(), value: v }).collect())
}

fn s(v: &str) -> YamlValue {
    YamlValue::Str(v.to_string())
}

fn node(conds: Vec<YamlValue>) -> YamlValue {
    obj(vec![("status", obj(vec![("conditions", YamlValue::Sequence(conds))]))])
}

#[test]
fn kube_nodes_readiness_and_conditions() {
    let nodes = obj(vec![(
        "items",
        YamlValue::Sequence(vec![
            node(vec![
                obj(vec![("type", s("MemoryPressure")), ("status", s("False")), ("message", s("ok"))]),
                obj(vec![("type", s("Ready")), ("status", s("True"))]),
            ]),
            node(vec![obj(vec![("status", s("Unknown"))])]),
        ]),
    )]);
    assert!(nodes_ready(&nodes));
    let c = node_conditions(&nodes);
    assert_eq!(c.len(), 2);
    assert_eq!(c[0].condition_type, "MemoryPressure");
    assert_eq!(c[0].message.as_deref(), Some("ok"));
    assert_eq!(c[1].status, "True");
    assert_eq!(kube_item_count(&nodes), 2);

    let not_ready = obj(vec![(
        "items",
        YamlValue::Sequence(vec![node(vec![obj(vec![("type", s("Ready")), ("status", s("False"))])])]),
    )]);
    assert!(!nodes_ready(&not_ready));
    assert!(!nodes_ready(&YamlValue::Null));
    assert!(node_conditions(&YamlValue::Null).is_empty());
    assert_eq!(kube_item_count(&obj(vec![])), 0);
    let unnamed = node_conditions(&obj(vec![("items", YamlValue::Sequence(vec![node(vec![obj(vec![])])]))]));
    assert_eq!(unnamed[0].condition_type, "unknown");
    assert_eq!(unnamed[0].status, "unknown");
}

#[test]
fn kube_allocated_resources() {
    let out = "Name: n1\nAllocated resources:\n  (Total limits may be over 100 percent.)\n  Resource           Requests     Limits\n  --------           --------     ------\n  cpu                950m (23%)   2 (50%)\n  memory             290Mi (3%)   1Gi (13%)\n\nEvents:              <none>\n  cpu 1 2 3 4\n";
    assert_eq!(
        parse_k8s_allocated(out),
        (950, 2000, 290 * 1024 * 1024, 1024 * 1024 * 1024)
    );
    assert_eq!(parse_k8s_allocated(""), (0, 0, 0, 0));
}
