use monochange::order_findings::{join_strings, publication_order_findings, OrderEdge};

fn edge(from: &str, to: &str, field: Option<&str>) -> OrderEdge {
    OrderEdge {
        from_id: Some(from.to_string()),
        to_id: Some(to.to_string()),
        dependency_kind: "runtime".to_string(),
        source_field: field.map(str::to_string),
    }
}

fn order(ids: &[&str]) -> Vec<String> {
    ids.iter().map(|id| id.to_string()).collect()
}

#[test]
fn dependencies_published_first_give_no_findings() {
    let publish_order = order(&["core", "app"]);
    let findings = publication_order_findings(&publish_order, &[edge("app", "core", Some("dependencies"))], None);
    assert!(findings.is_empty());
}

#[test]
fn a_dependency_published_later_blocks_its_dependent() {
    let publish_order = order(&["app", "core"]);
    let findings = publication_order_findings(&publish_order, &[edge("app", "core", Some("dependencies"))], None);
    assert_eq!(findings.len(), 1);
    assert!(findings[0].blocking);
    assert_eq!(findings[0].package.as_deref(), Some("app"));
    assert_eq!(
        findings[0].message,
        "publishes before its dependency `core` (runtime, dependencies) even though the publish plan should order dependencies first"
    );
}

#[test]
fn violations_are_sorted_and_name_unknown_fields() {
    let publish_order = order(&["web", "app", "ui", "core"]);
    let edges = vec![
        edge("web", "ui", None),
        edge("app", "ui", Some("dependencies")),
        edge("app", "core", Some("peerDependencies")),
        OrderEdge { from_id: None, to_id: Some("core".to_string()), dependency_kind: "runtime".to_string(), source_field: None },
        edge("docs", "core", None),
    ];
    let findings = publication_order_findings(&publish_order, &edges, None);
    let pairs: Vec<(&str, bool)> = findings
        .iter()
        .map(|f| (f.package.as_deref().unwrap_or(""), f.message.contains("unknown field")))
        .collect();
    assert_eq!(pairs, vec![("app", false), ("app", false), ("web", true)]);
    assert!(findings[0].message.contains("`core`"));
    assert!(findings[1].message.contains("`ui`"));
}

#[test]
fn a_differing_release_record_order_is_noted_without_blocking() {
    let publish_order = order(&["core", "app"]);
    let record = order(&["app", "docs", "core"]);
    let findings = publication_order_findings(&publish_order, &[], Some(&record));
    assert_eq!(findings.len(), 1);
    assert!(!findings[0].blocking);
    assert!(findings[0].package.is_none());
    assert_eq!(
        findings[0].message,
        "release record publication order (app, core) differs from the dependency-corrected publish order (core, app); publishing follows the dependency-corrected order"
    );
    let same = order(&["core", "docs", "app"]);
    assert!(publication_order_findings(&publish_order, &[], Some(&same)).is_empty());
}

#[test]
fn join_strings_puts_the_separator_between_entries() {
    assert_eq!(join_strings(&[], ", "), "");
    assert_eq!(join_strings(&order(&["a"]), ", "), "a");
    assert_eq!(join_strings(&order(&["a", "b", "c"]), ", "), "a, b, c");
}
