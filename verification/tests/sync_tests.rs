use monochange::error::MonochangeError;
use monochange::model::Ecosystem;
use monochange::sync::{
    apply_version_sync_plan, extract_python_version_constraint, format_sync_result,
    normalize_python_package_name, parse_strategy, parse_versions_output_format,
    skipped_package, strategy_name, sync_adapter_available, sync_context_error,
    DependencySyncChange, FileSyncResult, SkippedSyncPackage, SyncResult, VersionStrategy,
    VersionSyncPlan, VersionSyncPlanFile, VersionsOutputFormat,
};

fn dart_change() -> DependencySyncChange {
    DependencySyncChange {
        dependency_name: "my_package".to_string(),
        section: "dependencies".to_string(),
        old_value: "^0.5.0".to_string(),
        new_value: "^0.7.0".to_string(),
    }
}

fn one_dart_file() -> SyncResult {
    SyncResult {
        applied: false,
        strategy: VersionStrategy::Default,
        changes: vec![FileSyncResult {
            path: "pubspec.yaml".to_string(),
            ecosystem: Ecosystem::Dart,
            changes: vec![dart_change()],
        }],
        skipped: vec![],
    }
}

fn empty_result() -> SyncResult {
    SyncResult {
        applied: false,
        strategy: VersionStrategy::Default,
        changes: vec![],
        skipped: vec![],
    }
}

#[test]
fn format_sync_result_empty_changes_returns_empty_string() {
    let output = format_sync_result(&empty_result(), false, true);
    assert!(output.is_empty(), "empty changes should produce empty output when quiet");
}

#[test]
fn format_sync_result_reports_update() {
    let output = format_sync_result(&one_dart_file(), false, true);
    assert!(
        output.contains("updated ^0.5.0 → ^0.7.0 in my_package (pubspec.yaml)"),
        "expected update message in output"
    );
}

#[test]
fn format_sync_result_dry_run_prefixes_with_would() {
    let output = format_sync_result(&one_dart_file(), true, true);
    assert!(output.contains("would update ^0.5.0 → ^0.7.0"), "expected 'would update' prefix in dry-run output");
    assert!(output.contains("dry run — no files were modified"), "expected dry-run footer");
}

#[test]
fn format_sync_result_non_dry_run_has_no_dry_run_footer() {
    let output = format_sync_result(&one_dart_file(), false, true);
    assert!(!output.contains("dry run"), "non-dry-run should not have dry run footer");
}

#[test]
fn format_sync_result_with_changes_and_skips_separates_sections() {
    let mut result = one_dart_file();
    result.skipped = vec![SkippedSyncPackage {
        path: "go.mod".to_string(),
        package_name: "go-lib".to_string(),
        ecosystem: Ecosystem::Go,
        reason: "ecosystem sync is not implemented yet".to_string(),
    }];
    let output = format_sync_result(&result, false, true);
    assert!(output.contains("updated ^0.5.0 → ^0.7.0"));
    assert!(output.contains("\nSkipped unsupported ecosystems:"));
    assert!(output.contains("- go.mod (Go): ecosystem sync is not implemented yet"));
}

#[test]
fn parse_versions_output_format_defaults_to_text() {
    assert_eq!(parse_versions_output_format("json"), VersionsOutputFormat::Json);
    assert_eq!(parse_versions_output_format("text"), VersionsOutputFormat::Text);
    assert_eq!(parse_versions_output_format("unknown"), VersionsOutputFormat::Text);
}

#[test]
fn format_sync_result_empty_not_quiet_still_returns_empty() {
    let output = format_sync_result(&empty_result(), false, false);
    assert!(output.is_empty(), "empty changes should return empty string even when not quiet");
}

#[test]
fn format_sync_result_not_quiet_and_not_dry_run_returns_output() {
    let output = format_sync_result(&one_dart_file(), false, false);
    assert!(
        output.contains("updated ^0.5.0 → ^0.7.0 in my_package (pubspec.yaml)"),
        "expected update message in output"
    );
}

#[test]
fn parse_strategy_exact() {
    assert_eq!(parse_strategy("exact"), VersionStrategy::Exact);
}

#[test]
fn parse_strategy_caret() {
    assert_eq!(parse_strategy("caret"), VersionStrategy::Caret);
}

#[test]
fn parse_strategy_compatible() {
    assert_eq!(parse_strategy("compatible"), VersionStrategy::Compatible);
}

#[test]
fn parse_strategy_default_fallback() {
    assert_eq!(parse_strategy("default"), VersionStrategy::Default);
    assert_eq!(parse_strategy("unknown"), VersionStrategy::Default);
    assert_eq!(parse_strategy(""), VersionStrategy::Default);
}

#[test]
fn sync_result_tracks_file_changes() {
    let dep_change = dart_change();
    let file_result = FileSyncResult {
        path: "pubspec.yaml".to_string(),
        ecosystem: Ecosystem::Dart,
        changes: vec![dep_change.clone()],
    };
    let result = SyncResult {
        applied: false,
        strategy: VersionStrategy::Default,
        changes: vec![file_result],
        skipped: vec![],
    };
    assert_eq!(result.changes.len(), 1);
    assert_eq!(result.changes[0].path, "pubspec.yaml");
    assert_eq!(result.changes[0].changes.len(), 1);
    assert_eq!(result.changes[0].changes[0].dependency_name, "my_package");
}

#[test]
fn sync_context_error_includes_operation_ecosystem_path_and_source() {
    let source = MonochangeError::Config("invalid manifest".to_string());
    let error = sync_context_error("detect", Ecosystem::Npm, "packages/app/package.json", &source);
    let message = error.render();
    assert!(message.contains("failed to detect Npm version sync changes"));
    assert!(message.contains("packages/app/package.json"));
    assert!(message.contains("invalid manifest"));
}

#[test]
fn strategy_name_reports_all_versions_strategies() {
    assert_eq!(strategy_name(VersionStrategy::Default), "default");
    assert_eq!(strategy_name(VersionStrategy::Exact), "exact");
    assert_eq!(strategy_name(VersionStrategy::Caret), "caret");
    assert_eq!(strategy_name(VersionStrategy::Compatible), "compatible");
}

#[test]
fn normalize_python_package_name_normalizes_separators() {
    assert_eq!(normalize_python_package_name("foo-bar"), "foo-bar");
    assert_eq!(normalize_python_package_name("foo_bar"), "foo-bar");
    assert_eq!(normalize_python_package_name("foo.bar"), "foo-bar");
    assert_eq!(normalize_python_package_name("FOO-BAR"), "foo-bar");
    assert_eq!(normalize_python_package_name("foo--bar"), "foo-bar");
}

#[test]
fn extract_python_version_constraint_parses_version() {
    assert_eq!(
        extract_python_version_constraint("mypackage>=1.0", "mypackage"),
        Some(">=1.0".to_string()),
    );
    assert_eq!(extract_python_version_constraint("mypackage", "mypackage"), None);
    assert_eq!(
        extract_python_version_constraint("mypackage[extra]>=1.0", "mypackage"),
        Some(">=1.0".to_string()),
    );
}

#[test]
fn only_dart_and_npm_manifests_can_be_rewritten() {
    assert!(sync_adapter_available(Ecosystem::Dart));
    assert!(sync_adapter_available(Ecosystem::Npm));
    assert!(!sync_adapter_available(Ecosystem::Go));
    assert!(!sync_adapter_available(Ecosystem::Cargo));
}

#[test]
fn skipped_package_copies_every_field() {
    let skipped = skipped_package("go.mod", "go-lib", Ecosystem::Go, "not supported");
    assert_eq!(skipped.path, "go.mod");
    assert_eq!(skipped.package_name, "go-lib");
    assert_eq!(skipped.ecosystem, Ecosystem::Go);
    assert_eq!(skipped.reason, "not supported");
}

#[test]
fn applying_a_plan_reports_each_file_and_whether_it_wrote() {
    let plan = VersionSyncPlan {
        strategy: VersionStrategy::Caret,
        files: vec![VersionSyncPlanFile {
            path: "pubspec.yaml".to_string(),
            ecosystem: Ecosystem::Dart,
            changes: vec![dart_change()],
            manifest_path: "/repo/pubspec.yaml".to_string(),
            contents: "name: app\n".to_string(),
        }],
        skipped: vec![],
    };
    let result = apply_version_sync_plan(&plan, true);
    assert!(result.applied);
    assert_eq!(result.strategy, VersionStrategy::Caret);
    assert_eq!(result.changes.len(), 1);
    assert_eq!(result.changes[0].path, "pubspec.yaml");
    assert_eq!(result.changes[0].changes[0].new_value, "^0.7.0");
    let dry = apply_version_sync_plan(&plan, false);
    assert!(!dry.applied);
}
