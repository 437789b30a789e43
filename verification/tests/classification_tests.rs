use monochange::classification_build::{analysis_package_classification, classification_report, AnalyzedPackageChanges};
use monochange::assessment::{
    ApiConfidence, SemanticAnalysisCompleteness, SemanticAnalysisOutcome, SemanticAnalyzerEvidence, SemanticChangeAssessment,
};
use monochange::classification_markdown::render_markdown_report;
use monochange::finding_groups::{collect_findings, EvidenceFrame};
use monochange::classification_report::{
    changeset_validation_mismatches, ensure_unclassified_finding, release_owner, ChangeClassificationReport,
    PackageClassification, ReleaseIdentity, ReleaseOwnerKind, ResolvedComparison,
};
use monochange::classification_text::render_text_report;
use monochange::classify::{
    AnalysisCompleteness, BumpSeverity, ChangesetAction, ClassificationConfidence, ComparisonKind,
    ComparisonStatus, CompatibilityImpact, DependencyPropagation, DetectionLevel, SemanticChangeCategory, SemanticChangeKind,
};
use monochange::model::Ecosystem;
use monochange::recommendation::{
    build_recommendation, changeset_action, highest_compatibility_impact, recommendation_summary,
    ChangeRecommendation, ClassificationFinding, ExistingChangeset,
};
use monochange::semantic::{finding_from_semantic_change, finding_id, SemanticChange};

fn no_change_recommendation() -> ChangeRecommendation {
    ChangeRecommendation {
        compatibility_impact: CompatibilityImpact::Compatible,
        proposed_changeset_bump: BumpSeverity::NoBump,
        enforceable_minimum: BumpSeverity::NoBump,
        release_floor: BumpSeverity::NoBump,
        confidence: ClassificationConfidence::High,
        completeness: AnalysisCompleteness::Complete,
        review_required: false,
        finding_ids: Vec::new(),
    }
}

fn semantic(
    category: SemanticChangeCategory,
    kind: SemanticChangeKind,
    item_kind: &str,
    item_path: &str,
    summary: &str,
    file: &str,
    severity: BumpSeverity,
) -> SemanticChange {
    SemanticChange {
        category,
        kind,
        item_kind: item_kind.to_string(),
        item_path: item_path.to_string(),
        before_signature: None,
        after_signature: None,
        file_path: file.to_string(),
        summary: summary.to_string(),
        severity,
        assessment: None,
    }
}

fn pr_finding(change: &SemanticChange, analyzer: &str) -> ClassificationFinding {
    let mut finding = finding_from_semantic_change(finding_id(analyzer, change), analyzer, change, DetectionLevel::Signature);
    finding.comparisons.push(ComparisonKind::PullRequest);
    finding
}

fn removed_api_finding() -> ClassificationFinding {
    let mut change = semantic(
        SemanticChangeCategory::PublicApi,
        SemanticChangeKind::Removed,
        "function",
        "crate::old",
        "removed public function `crate::old`",
        "src/lib.rs",
        BumpSeverity::Major,
    );
    change.before_signature = Some("pub fn old()".to_string());
    pr_finding(&change, "cargo/public-api")
}

fn added_export_finding() -> ClassificationFinding {
    let mut change = semantic(
        SemanticChangeCategory::Export,
        SemanticChangeKind::Added,
        "function",
        "render",
        "added export `render`",
        "src/index.ts",
        BumpSeverity::Minor,
    );
    change.after_signature = Some("export function render()".to_string());
    pr_finding(&change, "cargo/public-api")
}

fn package_report(id: &str, findings: Vec<ClassificationFinding>) -> ChangeClassificationReport {
    let decision = build_recommendation(&findings, true, false);
    let summary = recommendation_summary(&decision, &findings);
    let recommendation = decision.proposed_changeset_bump;
    let action = changeset_action(&decision, &[]);
    ChangeClassificationReport {
        schema_version: 1,
        default_branch: "main".to_string(),
        candidate: "HEAD".to_string(),
        comparisons: vec![ResolvedComparison {
            kind: ComparisonKind::PullRequest,
            base: Some("origin/main".to_string()),
            head: "HEAD".to_string(),
            status: ComparisonStatus::Analyzed,
            note: None,
        }],
        recommendation,
        packages: vec![PackageClassification {
            package_id: id.to_string(),
            package_name: id.to_string(),
            ecosystem: Ecosystem::Cargo,
            release_owner: None,
            comparisons: Vec::new(),
            recommendation,
            decision,
            summary,
            findings,
            existing_changesets: Vec::new(),
            action,
            warnings: Vec::new(),
        }],
        warnings: Vec::new(),
    }
}

fn report_with_one_breaking_change() -> ChangeClassificationReport {
    package_report("core", vec![removed_api_finding()])
}

#[test]
fn classification_report_recommends_highest_api_impact() {
    let mut change = semantic(
        SemanticChangeCategory::PublicApi,
        SemanticChangeKind::Removed,
        "function",
        "crate::old",
        "removed public function `crate::old`",
        "src/lib.rs",
        BumpSeverity::Major,
    );
    change.before_signature = Some("pub fn old()".to_string());
    let frames = [EvidenceFrame {
        kind: ComparisonKind::PullRequest,
        analyzer_id: Some("cargo/public-api".to_string()),
        changes: vec![change],
    }];
    let findings = collect_findings(&frames, DetectionLevel::Signature);
    let package = analysis_package_classification(
        AnalyzedPackageChanges {
            package_id: "core".to_string(),
            package_name: "core".to_string(),
            ecosystem: Ecosystem::Cargo,
            changed_files: vec!["src/lib.rs".to_string()],
            warnings: Vec::new(),
        },
        findings,
        DetectionLevel::Signature,
    );
    let report = classification_report(
        Some("origin/main".to_string()),
        Some("HEAD".to_string()),
        Vec::new(),
        vec![package],
        DetectionLevel::Signature,
        DependencyPropagation::Off,
        &[],
        &[],
        &[],
    );
    assert_eq!(report.recommendation, BumpSeverity::Major);
    assert_eq!(report.packages.len(), 1);
    let package = &report.packages[0];
    assert_eq!(package.decision.confidence, ClassificationConfidence::Medium);
    assert_eq!(package.findings.len(), 1);
    assert!(package.decision.review_required);
}

#[test]
fn changeset_action_reviews_unmatched_intent_and_keeps_matching_intent() {
    let existing = [ExistingChangeset {
        path: ".changeset/example.md".to_string(),
        bump: Some(BumpSeverity::Patch),
        change_type: Some("patch".to_string()),
    }];
    let no_change = no_change_recommendation();
    assert_eq!(changeset_action(&no_change, &[]), ChangesetAction::NoChangeset);
    assert_eq!(changeset_action(&no_change, &existing), ChangesetAction::Review);
    let mut patch = no_change_recommendation();
    patch.proposed_changeset_bump = BumpSeverity::Patch;
    assert_eq!(changeset_action(&patch, &existing), ChangesetAction::Keep);
    assert_eq!(changeset_action(&patch, &[]), ChangesetAction::Create);
    let mut major = no_change_recommendation();
    major.proposed_changeset_bump = BumpSeverity::Major;
    assert_eq!(changeset_action(&major, &existing), ChangesetAction::Update);
}

#[test]
fn fallback_findings_and_summaries_make_uncertainty_explicit() {
    let mut findings = Vec::new();
    let changed = vec!["src/internal.rs".to_string()];
    ensure_unclassified_finding("core", Ecosystem::Cargo, DetectionLevel::Basic, &changed, &mut findings);
    assert_eq!(findings.len(), 1);
    assert_eq!(findings[0].impact, CompatibilityImpact::Unknown);
    assert_eq!(findings[0].bump, BumpSeverity::Patch);
    assert_eq!(findings[0].confidence, ClassificationConfidence::Low);

    ensure_unclassified_finding("core", Ecosystem::Cargo, DetectionLevel::Basic, &changed, &mut findings);
    assert_eq!(findings.len(), 1, "a pull-request finding suppresses fallback duplication");
    assert_eq!(highest_compatibility_impact(&findings), CompatibilityImpact::Unknown);

    let patch = build_recommendation(&findings, true, false);
    assert!(recommendation_summary(&patch, &findings).contains("unclassified"));
    findings[0].impact = CompatibilityImpact::Compatible;
    let compatible_patch = build_recommendation(&findings, true, false);
    assert!(recommendation_summary(&compatible_patch, &findings).contains("compatible"));

    let no_change = no_change_recommendation();
    assert_eq!(recommendation_summary(&no_change, &[]), "no package change requires a changeset");
    let mut review = no_change_recommendation();
    review.review_required = true;
    assert!(recommendation_summary(&review, &[]).contains("requires review"));
}

#[test]
fn release_owner_reports_package_and_group_identity() {
    let package = ReleaseIdentity { owner_id: "core".to_string(), owner_kind: ReleaseOwnerKind::Package };
    let group = ReleaseIdentity { owner_id: "workspace".to_string(), owner_kind: ReleaseOwnerKind::Group };
    assert!(release_owner(None, None).is_none());
    let owner = release_owner(Some(&package), Some("core/v1.0.0".to_string())).unwrap();
    assert_eq!(owner.kind, "package");
    assert_eq!(owner.id, "core");
    assert_eq!(owner.latest_release.as_deref(), Some("core/v1.0.0"));
    assert_eq!(release_owner(Some(&group), None).unwrap().kind, "group");
}

#[test]
fn package_lifecycle_findings_are_complete_and_enforceable() {
    let mut removed = semantic(
        SemanticChangeCategory::Package,
        SemanticChangeKind::Removed,
        "package",
        "retired",
        "removed cargo package `retired`",
        "Cargo.toml",
        BumpSeverity::Major,
    );
    removed.before_signature = Some("cargo package `retired`".to_string());
    let finding = pr_finding(&removed, "monochange/package-lifecycle");
    assert_eq!(finding.impact, CompatibilityImpact::Breaking);
    assert_eq!(finding.confidence, ClassificationConfidence::High);
    assert_eq!(finding.coverage.completeness, AnalysisCompleteness::Complete);
    assert_eq!(finding.surface, "package");
    let decision = build_recommendation(&[finding], true, false);
    assert_eq!(decision.enforceable_minimum, BumpSeverity::Major);
    assert_eq!(decision.completeness, AnalysisCompleteness::Complete);
    assert!(!decision.review_required);

    let mut partial = pr_finding(&removed, "monochange/package-lifecycle");
    partial.coverage.completeness = AnalysisCompleteness::Partial;
    let partial_decision = build_recommendation(&[partial], true, false);
    assert_eq!(partial_decision.enforceable_minimum, BumpSeverity::Major);
    assert_eq!(partial_decision.completeness, AnalysisCompleteness::Partial);
    assert!(partial_decision.review_required);
}

#[test]
fn release_floor_never_falls_below_the_net_pull_request_bump() {
    let current = removed_api_finding();
    let mut release = finding_from_semantic_change(
        "release".to_string(),
        "cargo/public-api",
        &semantic(
            SemanticChangeCategory::Dependency,
            SemanticChangeKind::Modified,
            "dependency",
            "serde",
            "changed dependency `serde`",
            "Cargo.toml",
            BumpSeverity::Patch,
        ),
        DetectionLevel::Signature,
    );
    release.comparisons.push(ComparisonKind::Release);
    let decision = build_recommendation(&[current, release], true, true);
    assert_eq!(decision.proposed_changeset_bump, BumpSeverity::Major);
    assert_eq!(decision.release_floor, BumpSeverity::Major);
}

#[test]
fn working_tree_evidence_does_not_inflate_the_net_pull_request_bump() {
    let mut change = semantic(
        SemanticChangeCategory::PublicApi,
        SemanticChangeKind::Removed,
        "function",
        "crate::old",
        "removed public function `crate::old`",
        "src/lib.rs",
        BumpSeverity::Major,
    );
    change.before_signature = Some("pub fn old()".to_string());
    let frames = [EvidenceFrame {
        kind: ComparisonKind::WorkingTree,
        analyzer_id: Some("cargo/public-api".to_string()),
        changes: vec![change],
    }];
    let findings = collect_findings(&frames, DetectionLevel::Signature);
    let decision = build_recommendation(&findings, false, false);
    assert_eq!(decision.proposed_changeset_bump, BumpSeverity::NoBump);
    assert_eq!(decision.compatibility_impact, CompatibilityImpact::Compatible);
    assert_eq!(findings[0].comparisons, vec![ComparisonKind::WorkingTree]);
}

#[test]
fn changeset_validation_enforces_only_high_confidence_findings_by_default() {
    let mut report = report_with_one_breaking_change();
    let package = &mut report.packages[0];
    package.decision.enforceable_minimum = BumpSeverity::Major;
    package.existing_changesets.push(ExistingChangeset {
        path: ".changeset/breaking.md".to_string(),
        bump: Some(BumpSeverity::Minor),
        change_type: Some("minor".to_string()),
    });
    let mismatches = changeset_validation_mismatches(&report, false);
    assert_eq!(mismatches.len(), 1);
    assert!(mismatches[0].contains("requires at least `major`"));
}

#[test]
fn changeset_validation_keeps_partial_findings_advisory_unless_strict() {
    let report = report_with_one_breaking_change();
    assert!(changeset_validation_mismatches(&report, false).is_empty());
    let strict = changeset_validation_mismatches(&report, true);
    assert_eq!(strict.len(), 1);
    assert_eq!(strict[0], "package `core` declares `none` but requires at least `major` in strict mode");
}

#[test]
fn text_report_contains_no_markdown_headings_or_code_spans() {
    let mut report = package_report("ui", vec![added_export_finding()]);
    report.warnings.push("Review the generated change.".to_string());
    let text = render_text_report(&report);
    assert!(text.starts_with("Change classification\n"));
    assert!(text.contains("Recommended bump: minor"));
    assert!(text.contains("\nui\n"));
    assert!(text.contains("\nWarnings\n"));
    assert!(text.contains("\n  completeness: partial\n"));
    assert!(!text.contains('#'));
    assert!(!text.contains('`'));
}

#[test]
fn markdown_report_is_agent_readable() {
    let report = package_report("ui", vec![added_export_finding()]);
    let markdown = render_markdown_report(&report);
    assert!(markdown.starts_with("# Change classification\n\n- Schema version: `1`\n"));
    assert!(markdown.contains("Recommended bump: `minor`"));
    assert!(markdown.contains("### `ui`"));
    assert!(markdown.contains("Review required: `true`"));
    assert!(markdown.contains("\n- compatibility impact: `additive`\n"));
    assert!(markdown.contains("- `pullRequest`: `origin/main` to `HEAD` (analyzed)"));
    assert!(markdown.contains(
        "- `cargo/public-api/export/added/function/render`: added export `render` (`src/index.ts`, impact `additive`, bump `minor`, confidence `medium`, comparisons `pullRequest`)"
    ));
    assert!(markdown.contains("Evidence: cargo/public-api 1; coverage partial"));
}

#[test]
fn empty_reports_say_that_nothing_changed() {
    let mut report = package_report("ui", Vec::new());
    report.packages.clear();
    let markdown = render_markdown_report(&report);
    assert!(markdown.ends_with("\n\nNo package changes were detected for the pull request comparison."));
    let text = render_text_report(&report);
    assert!(text.ends_with("\nNo package changes were detected for the pull request comparison."));
}

#[test]
fn markdown_report_surfaces_semantic_engine_and_fallback_evidence() {
    let mut change = semantic(
        SemanticChangeCategory::PublicApi,
        SemanticChangeKind::Removed,
        "function",
        "old",
        "removed public function `old`",
        "src/index.ts",
        BumpSeverity::Major,
    );
    change.before_signature = Some("export function old()".to_string());
    change.assessment = Some(SemanticChangeAssessment {
        outcome: SemanticAnalysisOutcome::Inconclusive,
        bump: BumpSeverity::Patch,
        confidence: ApiConfidence::Low,
        evidence: SemanticAnalyzerEvidence {
            analyzer_id: "npm/typescript".to_string(),
            engine: "typescript".to_string(),
            engine_version: Some("6.0.3".to_string()),
            completeness: SemanticAnalysisCompleteness::Partial,
            note: "syntax fallback".to_string(),
            fallback_reason: Some("tsconfig could not be resolved".to_string()),
        },
    });
    let report = package_report("ui", vec![pr_finding(&change, "npm/exports")]);
    let markdown = render_markdown_report(&report);
    assert!(markdown.contains(
        "Evidence: npm/typescript via typescript 6.0.3; coverage partial: syntax fallback; fallback: tsconfig could not be resolved"
    ));
}
