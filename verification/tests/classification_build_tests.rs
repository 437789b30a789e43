use monochange::classification_build::{
    analysis_package_classification, classification_report, finish_classification_report, merge_candidate,
    package_classification, package_comparisons, report_comparisons, report_package_id_for_signal,
    report_selection, merge_base_from_output, select_classifications, select_report_packages, source_candidate, AnalyzedPackageChanges, CandidateResolution,
};
use monochange::classification_report::{PackageClassification, ReleaseIdentity, ReleaseOwnerKind};
use monochange::classify::{
    AnalysisCompleteness, BumpSeverity, ChangesetAction, ComparisonKind, ComparisonStatus, CompatibilityImpact,
    DependencyPropagation, DetectionLevel, SemanticChangeCategory, SemanticChangeKind,
};
use monochange::error::MonochangeError;
use monochange::finding_groups::{collect_findings, EvidenceFrame};
use monochange::model::Ecosystem;
use monochange::propagation::{AnalyzedPackage, DependencyLink, DependentPackage};
use monochange::recommendation::ExistingChangeset;
use monochange::semantic::SemanticChange;

fn change_of(
    category: SemanticChangeCategory,
    kind: SemanticChangeKind,
    item_kind: &str,
    item_path: &str,
    summary: &str,
    file: &str,
    severity: BumpSeverity,
) -> SemanticChange {
    SemanticChange {
        category,
        kind,
        item_kind: item_kind.to_string(),
        item_path: item_path.to_string(),
        before_signature: None,
        after_signature: None,
        file_path: file.to_string(),
        summary: summary.to_string(),
        severity,
        assessment: None,
    }
}

fn removed_api() -> SemanticChange {
    let mut change = change_of(
        SemanticChangeCategory::PublicApi,
        SemanticChangeKind::Removed,
        "function",
        "crate::old",
        "removed public function `crate::old`",
        "src/lib.rs",
        BumpSeverity::Major,
    );
    change.before_signature = Some("pub fn old()".to_string());
    change
}

fn added_export() -> SemanticChange {
    let mut change = change_of(
        SemanticChangeCategory::Export,
        SemanticChangeKind::Added,
        "function",
        "render",
        "added export `render`",
        "src/index.ts",
        BumpSeverity::Minor,
    );
    change.after_signature = Some("export function render()".to_string());
    change
}

fn patch_dependency() -> SemanticChange {
    let mut change = change_of(
        SemanticChangeCategory::Dependency,
        SemanticChangeKind::Modified,
        "dependency",
        "serde",
        "changed dependency `serde`",
        "Cargo.toml",
        BumpSeverity::Patch,
    );
    change.before_signature = Some("serde = 1".to_string());
    change.after_signature = Some("serde = 1.0.1".to_string());
    change
}

fn frame(kind: ComparisonKind, changes: Vec<SemanticChange>) -> EvidenceFrame {
    EvidenceFrame { kind, analyzer_id: Some("cargo/public-api".to_string()), changes }
}

fn analyzed_package(id: &str, changes: Vec<SemanticChange>) -> PackageClassification {
    let findings = collect_findings(&[frame(ComparisonKind::PullRequest, changes)], DetectionLevel::Signature);
    analysis_package_classification(
        AnalyzedPackageChanges {
            package_id: id.to_string(),
            package_name: id.to_string(),
            ecosystem: Ecosystem::Cargo,
            changed_files: vec!["src/lib.rs".to_string()],
            warnings: Vec::new(),
        },
        findings,
        DetectionLevel::Signature,
    )
}

fn workspace_package(id: &str, name: &str, location: &str) -> DependentPackage {
    DependentPackage {
        record_id: id.to_string(),
        config_id: None,
        name: name.to_string(),
        ecosystem: Ecosystem::Npm,
        location: location.to_string(),
    }
}

fn link(from: &str, to: &str, runtime: bool) -> DependencyLink {
    DependencyLink { from_record_id: from.to_string(), to_record_id: to.to_string(), runtime }
}

fn recommendation_of(packages: &[PackageClassification], id: &str) -> BumpSeverity {
    packages.iter().find(|p| p.package_id == id).map(|p| p.recommendation).unwrap()
}

#[test]
fn changeset_signal_ids_normalize_to_report_package_ids() {
    let mut package = workspace_package("npm:@acme/core", "@acme/core", "packages/core/package.json");
    package.config_id = Some("core".to_string());
    assert_eq!(report_package_id_for_signal(&[package.duplicate()], package.record_id.clone()), "core");
    assert_eq!(report_package_id_for_signal(&[package], "core".to_string()), "core");
    assert_eq!(report_package_id_for_signal(&[], "external".to_string()), "external");
}

#[test]
fn findings_keep_distinct_signatures_for_each_comparison() {
    let pull_request_change = || {
        let mut change = removed_api();
        change.kind = SemanticChangeKind::Modified;
        change.after_signature = Some("pub fn old(value: &str)".to_string());
        change
    };
    let release_change = || {
        let mut change = pull_request_change();
        change.before_signature = Some("pub fn old(value: String)".to_string());
        change
    };
    let frames = vec![
        frame(ComparisonKind::PullRequest, vec![pull_request_change()]),
        frame(ComparisonKind::SourceDelta, vec![release_change()]),
        frame(ComparisonKind::Release, vec![release_change()]),
    ];

    let findings = collect_findings(&frames, DetectionLevel::Signature);

    assert_eq!(findings.len(), 2);
    assert!(findings.iter().any(|finding| {
        finding.comparisons == vec![ComparisonKind::PullRequest]
            && finding.before.as_deref() == Some("pub fn old()")
            && finding.id.contains('@')
    }));
    assert!(findings.iter().any(|finding| {
        finding.comparisons == vec![ComparisonKind::Release, ComparisonKind::SourceDelta]
            && finding.before.as_deref() == Some("pub fn old(value: String)")
            && finding.id.contains('@')
    }));
}

#[test]
fn public_dependency_propagation_recommends_dependent_patch_bump() {
    let core = workspace_package("npm:@acme/core", "@acme/core", "packages/core/package.json");
    let app = workspace_package("npm:@acme/app", "@acme/app", "packages/app/package.json");
    let analyses = vec![AnalyzedPackage {
        record_id: "npm:@acme/core".to_string(),
        name: "@acme/core".to_string(),
        severity: BumpSeverity::Minor,
    }];
    let edges = vec![link("npm:@acme/app", "npm:@acme/core", true), link("npm:@acme/app", "npm:@acme/core", true)];

    let report = classification_report(
        Some("origin/main".to_string()),
        Some("HEAD".to_string()),
        Vec::new(),
        vec![analyzed_package("npm:@acme/core", vec![added_export()])],
        DetectionLevel::Signature,
        DependencyPropagation::Public,
        &analyses,
        &[core, app],
        &edges,
    );

    assert_eq!(report.recommendation, BumpSeverity::Minor);
    assert_eq!(recommendation_of(&report.packages, "npm:@acme/core"), BumpSeverity::Minor);
    assert_eq!(recommendation_of(&report.packages, "npm:@acme/app"), BumpSeverity::Patch);
    let propagated = report.packages.iter().find(|p| p.package_id == "npm:@acme/app").unwrap();
    assert!(propagated.summary.contains("public dependency"), "unexpected propagated summary: {}", propagated.summary);
}

#[test]
fn public_dependency_propagation_skips_non_public_or_already_reported_edges() {
    let core = workspace_package("npm:@acme/core", "@acme/core", "packages/core/package.json");
    let utils = workspace_package("npm:@acme/utils", "@acme/utils", "packages/utils/package.json");
    let app = workspace_package("npm:@acme/app", "@acme/app", "packages/app/package.json");
    let docs = workspace_package("npm:@acme/docs", "@acme/docs", "packages/docs/package.json");
    let analyses = vec![
        AnalyzedPackage { record_id: "npm:@acme/core".to_string(), name: "@acme/core".to_string(), severity: BumpSeverity::Minor },
        AnalyzedPackage { record_id: "npm:@acme/app".to_string(), name: "@acme/app".to_string(), severity: BumpSeverity::Patch },
    ];
    let edges = vec![
        link("npm:@acme/app", "npm:@acme/core", true),
        link("npm:@acme/app", "npm:@acme/utils", true),
        link("npm:@acme/docs", "npm:@acme/core", false),
    ];

    let report = classification_report(
        Some("origin/main".to_string()),
        Some("HEAD".to_string()),
        Vec::new(),
        vec![
            analyzed_package("npm:@acme/app", vec![patch_dependency()]),
            analyzed_package("npm:@acme/core", vec![added_export()]),
        ],
        DetectionLevel::Signature,
        DependencyPropagation::Public,
        &analyses,
        &[core, utils, app, docs],
        &edges,
    );

    assert_eq!(report.packages.len(), 2);
    assert_eq!(recommendation_of(&report.packages, "npm:@acme/core"), BumpSeverity::Minor);
    assert_eq!(recommendation_of(&report.packages, "npm:@acme/app"), BumpSeverity::Patch);
}

#[test]
fn analysis_reports_name_their_range_and_collect_package_warnings() {
    let mut package = analyzed_package("core", vec![removed_api()]);
    package.warnings = vec!["package warning".to_string()];
    let report = classification_report(
        None,
        None,
        vec!["analysis warning".to_string()],
        vec![package],
        DetectionLevel::Signature,
        DependencyPropagation::Off,
        &[],
        &[],
        &[],
    );
    assert_eq!(report.default_branch, "HEAD");
    assert_eq!(report.candidate, "working tree");
    assert_eq!(report.comparisons.len(), 1);
    assert_eq!(report.comparisons[0].base, None);
    assert_eq!(report.comparisons[0].head, "working tree");
    assert_eq!(report.warnings, vec!["analysis warning".to_string(), "package warning".to_string()]);
    assert_eq!(report.packages[0].action, ChangesetAction::Create);
    assert_eq!(report.recommendation, BumpSeverity::Major);
}

#[test]
fn source_candidates_name_a_materialized_working_tree() {
    let (reference, display, included) = source_candidate("HEAD", Some("0123456789abcdef0123".to_string()));
    assert_eq!(reference, "0123456789abcdef0123");
    assert_eq!(display, "working-tree:0123456789ab");
    assert!(included);
    let (reference, display, included) = source_candidate("feature", None);
    assert_eq!((reference.as_str(), display.as_str(), included), ("feature", "feature", false));
}

#[test]
fn merge_candidates_use_the_merged_tree_or_fall_back_on_conflict() {
    let merged = merge_candidate(
        "main",
        "HEAD",
        "abc".to_string(),
        "working-tree:abc".to_string(),
        true,
        Ok("  fedcba9876543210fedcba  \nconflict info\n".to_string()),
    );
    assert_eq!(merged.reference, "fedcba9876543210fedcba");
    assert_eq!(merged.display, "merge-tree:fedcba987654");
    assert_eq!(merged.status, ComparisonStatus::Analyzed);
    assert_eq!(
        merged.note.as_deref(),
        Some("the merge candidate includes staged, unstaged, deleted, and untracked files")
    );
    let empty = merge_candidate("main", "HEAD", " abc ".to_string(), "abc".to_string(), false, Ok(String::new()));
    assert_eq!(empty.reference, "abc");
    assert_eq!(empty.note, None);

    let conflicted = merge_candidate("main", "feature", "feature".to_string(), "feature".to_string(), false, Err("boom".to_string()));
    assert_eq!(conflicted.reference, "feature");
    assert_eq!(conflicted.display, "feature");
    assert_eq!(conflicted.status, ComparisonStatus::Conflicted);
    assert_eq!(
        conflicted.note.as_deref(),
        Some("could not build a merge candidate for `main` and `feature`; the pull request comparison falls back to the source candidate: boom")
    );
}

fn candidate() -> CandidateResolution {
    CandidateResolution {
        reference: "tree".to_string(),
        display: "merge-tree:tree".to_string(),
        source_reference: "HEAD".to_string(),
        source_display: "HEAD".to_string(),
        includes_working_tree: true,
        status: ComparisonStatus::Analyzed,
        note: None,
    }
}

#[test]
fn package_comparisons_cover_working_tree_and_missing_releases() {
    let comparisons = package_comparisons("main", &candidate(), "base", Some("HEAD"), None);
    let kinds: Vec<ComparisonKind> = comparisons.iter().map(|c| c.kind).collect();
    assert_eq!(
        kinds,
        vec![
            ComparisonKind::PullRequest,
            ComparisonKind::SourceDelta,
            ComparisonKind::WorkingTree,
            ComparisonKind::Release,
            ComparisonKind::ReleaseToDefault,
        ]
    );
    assert_eq!(comparisons[1].base.as_deref(), Some("base"));
    assert_eq!(
        comparisons[1].note.as_deref(),
        Some("the source comparison includes staged, unstaged, deleted, and untracked files")
    );
    assert_eq!(comparisons[2].head, "working tree");
    assert_eq!(comparisons[3].status, ComparisonStatus::Unavailable);
    assert_eq!(comparisons[3].note.as_deref(), Some("no reachable release tag matched this package"));
    assert_eq!(comparisons[4].head, "main");

    let released = package_comparisons("main", &candidate(), "base", None, Some("v1.0.0"));
    assert_eq!(released.len(), 4);
    assert_eq!(released[2].base.as_deref(), Some("v1.0.0"));
    assert_eq!(released[2].head, "merge-tree:tree");
    assert_eq!(released[3].status, ComparisonStatus::Analyzed);

    let report = report_comparisons("main", &candidate(), "base", Some("HEAD"));
    assert_eq!(report.len(), 3);
    assert_eq!(
        report[2].note.as_deref(),
        Some("local changes are reported separately and are also materialized into the final candidate")
    );
}

#[test]
fn pending_changesets_without_changes_need_review() {
    let changeset = ExistingChangeset {
        path: ".changeset/core.md".to_string(),
        bump: Some(BumpSeverity::Patch),
        change_type: None,
    };
    let identity = ReleaseIdentity { owner_id: "sdk".to_string(), owner_kind: ReleaseOwnerKind::Group };
    let package = package_classification(
        "core".to_string(),
        "core".to_string(),
        Ecosystem::Cargo,
        Some(&identity),
        Some("v1.0.0".to_string()),
        Vec::new(),
        Vec::new(),
        DetectionLevel::Signature,
        &[],
        vec![changeset],
        Vec::new(),
    );
    assert_eq!(package.decision.compatibility_impact, CompatibilityImpact::Unknown);
    assert_eq!(package.decision.completeness, AnalysisCompleteness::Unsupported);
    assert!(package.decision.review_required);
    assert_eq!(package.action, ChangesetAction::Review);
    assert_eq!(package.recommendation, BumpSeverity::NoBump);
    let owner = package.release_owner.unwrap();
    assert_eq!((owner.kind.as_str(), owner.id.as_str()), ("group", "sdk"));
    assert_eq!(owner.latest_release.as_deref(), Some("v1.0.0"));

    let changed = package_classification(
        "core".to_string(),
        "core".to_string(),
        Ecosystem::Cargo,
        None,
        None,
        Vec::new(),
        Vec::new(),
        DetectionLevel::Signature,
        &["src/lib.rs".to_string()],
        Vec::new(),
        Vec::new(),
    );
    assert_eq!(changed.findings.len(), 1);
    assert_eq!(changed.recommendation, BumpSeverity::Patch);
    assert_eq!(changed.action, ChangesetAction::Create);
}

#[test]
fn finished_reports_sort_packages_and_deduplicate_warnings() {
    let report = finish_classification_report(
        "main".to_string(),
        "HEAD".to_string(),
        Vec::new(),
        vec![analyzed_package("web", vec![added_export()]), analyzed_package("core", vec![removed_api()])],
        vec!["b".to_string(), "a".to_string(), "b".to_string()],
    );
    assert_eq!(report.packages[0].package_id, "core");
    assert_eq!(report.packages[1].package_id, "web");
    assert_eq!(report.recommendation, BumpSeverity::Major);
    assert_eq!(report.warnings, vec!["a".to_string(), "b".to_string()]);
    assert_eq!(report.schema_version, 1);
}

#[test]
fn selections_report_each_selected_package_once_or_name_the_unknown_ones() {
    let ids = vec!["core".to_string(), "web".to_string(), "core".to_string()];
    let selected = report_selection(&[], false, &ids, &["web".to_string()], &["core".to_string()], &[]);
    assert_eq!(selected, vec!["web".to_string(), "core".to_string()]);
    assert_eq!(select_report_packages(&ids, &selected).unwrap(), vec![0, 1]);
    let explicit = report_selection(&["web".to_string()], true, &ids, &[], &[], &["core".to_string()]);
    assert_eq!(explicit, vec!["web".to_string()]);
    let error = select_report_packages(&ids, &["zeta".to_string(), "alpha".to_string(), "zeta".to_string()]).unwrap_err();
    assert!(
        error == MonochangeError::Config("package selection did not match a discovered package: alpha, zeta".to_string())
    );
}

#[test]
fn collected_findings_follow_base_id_order_and_merge_comparisons() {
    let frames = vec![
        frame(ComparisonKind::PullRequest, vec![removed_api(), added_export()]),
        frame(ComparisonKind::Release, vec![removed_api()]),
    ];
    let findings = collect_findings(&frames, DetectionLevel::Signature);
    assert_eq!(findings.len(), 2);
    assert_eq!(findings[0].id, "cargo/public-api/export/added/function/render");
    assert_eq!(findings[1].id, "cargo/public-api/public_api/removed/function/crate::old");
    assert_eq!(findings[1].comparisons, vec![ComparisonKind::PullRequest, ComparisonKind::Release]);
    let lifecycle = change_of(
        SemanticChangeCategory::Package,
        SemanticChangeKind::Added,
        "package",
        "core",
        "added package",
        "Cargo.toml",
        BumpSeverity::Minor,
    );
    let unknown = collect_findings(
        &[EvidenceFrame { kind: ComparisonKind::WorkingTree, analyzer_id: None, changes: vec![lifecycle, patch_dependency()] }],
        DetectionLevel::Basic,
    );
    assert_eq!(unknown[0].analyzer.id, "monochange/package-lifecycle");
    assert_eq!(unknown[1].analyzer.id, "monochange/unknown-analyzer");
}

#[test]
fn each_selected_package_is_classified_once() {
    let candidates = vec![
        analyzed_package("core", vec![removed_api()]),
        analyzed_package("web", vec![added_export()]),
        analyzed_package("core", vec![patch_dependency()]),
    ];
    let kept = select_classifications(candidates, &["core".to_string(), "web".to_string()]).unwrap_or_else(|_| panic!("selection"));
    let ids: Vec<&str> = kept.iter().map(|p| p.package_id.as_str()).collect();
    assert_eq!(ids, ["core", "web"]);
    assert_eq!(kept[0].recommendation, BumpSeverity::Major);

    let missing = select_classifications(vec![analyzed_package("core", vec![])], &["other".to_string()]);
    assert!(missing.is_err());
}

#[test]
fn merge_base_output_is_trimmed_and_blank_output_is_none() {
    assert_eq!(merge_base_from_output(Ok("abc123\n".to_string())), Some("abc123".to_string()));
    assert_eq!(merge_base_from_output(Ok("  \n".to_string())), None);
    assert_eq!(merge_base_from_output(Err(MonochangeError::Discovery("no merge base".to_string()))), None);
}
