use monochange::model::Ecosystem;
use monochange::rate_limits::{
    insert_sorted, sort_requests_by_dependencies, DependencyEdge, PackageRecord, PublishMode,
    PublishRateLimitMode, PublishRequest, RegistryKind,
};

fn request(id: &str, name: &str, registry: RegistryKind) -> PublishRequest {
    PublishRequest {
        package_id: id.to_string(),
        package_name: name.to_string(),
        ecosystem: Ecosystem::Npm,
        registry,
        mode: PublishMode::Builtin,
        version: "1.0.0".to_string(),
    }
}

fn record(id: &str, name: &str) -> PackageRecord {
    PackageRecord { id: id.to_string(), name: name.to_string() }
}

fn edge(from: &str, to: &str) -> DependencyEdge {
    DependencyEdge { from_package_id: from.to_string(), to_package_id: to.to_string() }
}

fn ids(requests: &[PublishRequest]) -> Vec<&str> {
    requests.iter().map(|r| r.package_id.as_str()).collect()
}

#[test]
fn dependencies_publish_before_their_dependents() {
    let mut requests = vec![
        request("app", "@acme/app", RegistryKind::Npm),
        request("ui", "@acme/ui", RegistryKind::Npm),
        request("core", "@acme/core", RegistryKind::Npm),
    ];
    let packages = vec![record("app", "@acme/app"), record("ui", "@acme/ui"), record("core", "@acme/core")];
    let edges = vec![edge("app", "ui"), edge("ui", "core"), edge("app", "core")];
    sort_requests_by_dependencies(&mut requests, &packages, &edges);
    assert_eq!(ids(&requests), vec!["core", "ui", "app"]);
}

#[test]
fn records_without_a_request_id_are_matched_by_package_name() {
    let mut requests = vec![
        request("npm:app", "@acme/app", RegistryKind::Npm),
        request("npm:core", "@acme/core", RegistryKind::Npm),
    ];
    let packages = vec![record("record-app", "@acme/app"), record("record-core", "@acme/core")];
    let edges = vec![edge("record-app", "record-core")];
    sort_requests_by_dependencies(&mut requests, &packages, &edges);
    assert_eq!(ids(&requests), vec!["npm:core", "npm:app"]);
}

#[test]
fn a_dependency_cycle_keeps_the_original_order() {
    let mut requests = vec![request("a", "a", RegistryKind::Npm), request("b", "b", RegistryKind::Npm)];
    let packages = vec![record("a", "a"), record("b", "b")];
    let edges = vec![edge("a", "b"), edge("b", "a")];
    sort_requests_by_dependencies(&mut requests, &packages, &edges);
    assert_eq!(ids(&requests), vec!["a", "b"]);
}

#[test]
fn repeated_package_ids_keep_the_original_order() {
    let mut requests = vec![
        request("app", "app", RegistryKind::Npm),
        request("core", "core", RegistryKind::Npm),
        request("core", "core", RegistryKind::Jsr),
    ];
    let packages = vec![record("app", "app"), record("core", "core")];
    let edges = vec![edge("app", "core")];
    sort_requests_by_dependencies(&mut requests, &packages, &edges);
    assert_eq!(ids(&requests), vec!["app", "core", "core"]);
}

#[test]
fn edges_to_packages_without_requests_are_ignored() {
    let mut requests = vec![request("app", "app", RegistryKind::Npm), request("cli", "cli", RegistryKind::Npm)];
    let packages = vec![record("app", "app"), record("cli", "cli"), record("internal", "internal")];
    let edges = vec![edge("app", "internal"), edge("cli", "app")];
    sort_requests_by_dependencies(&mut requests, &packages, &edges);
    assert_eq!(ids(&requests), vec!["app", "cli"]);
}

#[test]
fn rate_limit_modes_describe_themselves() {
    assert_eq!(PublishRateLimitMode::Placeholder.description(), "placeholder publish");
    assert_eq!(PublishRateLimitMode::Publish.description(), "publish");
}

#[test]
fn insert_sorted_keeps_one_sorted_copy() {
    let mut v: Vec<String> = Vec::new();
    for s in ["b", "a", "c", "a"] {
        insert_sorted(&mut v, &s.to_string());
    }
    assert_eq!(v, vec!["a".to_string(), "b".to_string(), "c".to_string()]);
}

#[test]
fn independent_requests_publish_in_package_id_order() {
    let mut requests = vec![
        request("web", "web", RegistryKind::Npm),
        request("cli", "cli", RegistryKind::CratesIo),
        request("api", "api", RegistryKind::Npm),
    ];
    let packages = vec![record("web", "web"), record("cli", "cli"), record("api", "api")];
    sort_requests_by_dependencies(&mut requests, &packages, &[]);
    assert_eq!(ids(&requests), vec!["api", "cli", "web"]);
}
