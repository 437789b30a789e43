use monochange::classify::{
    AnalysisCompleteness, BumpSeverity, ClassificationConfidence, CompatibilityImpact, DetectionLevel,
    SemanticChangeCategory, SemanticChangeKind,
};
use monochange::assessment::{
    analysis_completeness, classification_confidence, compatibility_impact_from_outcome, ApiConfidence,
    SemanticAnalysisCompleteness, SemanticAnalysisOutcome, SemanticAnalyzerEvidence, SemanticChangeAssessment,
};
use monochange::classify::{analysis_completeness_name, ComparisonKind};
use monochange::recommendation::{build_recommendation, FindingEvidenceKey};
use monochange::semantic::{finding_from_semantic_change, finding_id, SemanticChange};

fn change(
    category: SemanticChangeCategory,
    kind: SemanticChangeKind,
    item_kind: &str,
    item_path: &str,
    summary: &str,
    file_path: &str,
    severity: BumpSeverity,
) -> SemanticChange {
    SemanticChange {
        category,
        kind,
        item_kind: item_kind.to_string(),
        item_path: item_path.to_string(),
        before_signature: None,
        after_signature: None,
        file_path: file_path.to_string(),
        summary: summary.to_string(),
        severity,
        assessment: None,
    }
}

#[test]
fn semantic_finding_mapping_keeps_impact_and_evidence_separate() {
    let mut modified = change(
        SemanticChangeCategory::Dependency,
        SemanticChangeKind::Modified,
        "dependency",
        "serde",
        "changed dependency `serde`",
        "Cargo.toml",
        BumpSeverity::Patch,
    );
    modified.before_signature = Some("serde = 1".to_string());
    modified.after_signature = Some("serde = 2".to_string());
    let unchanged = change(
        SemanticChangeCategory::Metadata,
        SemanticChangeKind::Modified,
        "implementation",
        "crate::detail",
        "changed internal implementation",
        "src/lib.rs",
        BumpSeverity::NoBump,
    );

    let dependency_finding = finding_from_semantic_change(
        finding_id("cargo/public-api", &modified),
        "cargo/public-api",
        &modified,
        DetectionLevel::Signature,
    );
    let metadata_finding = finding_from_semantic_change(
        finding_id("cargo/public-api", &unchanged),
        "cargo/public-api",
        &unchanged,
        DetectionLevel::Signature,
    );

    assert_eq!(dependency_finding.change, "modified");
    assert_eq!(dependency_finding.bump, BumpSeverity::Patch);
    assert_eq!(dependency_finding.confidence, ClassificationConfidence::Medium);
    assert_eq!(metadata_finding.impact, CompatibilityImpact::Compatible);
    assert_eq!(metadata_finding.confidence, ClassificationConfidence::Medium);
}

#[test]
fn finding_ids_and_rule_ids_name_the_changed_item() {
    let removed = change(
        SemanticChangeCategory::PublicApi,
        SemanticChangeKind::Removed,
        "function",
        "crate::old",
        "removed public function `crate::old`",
        "src/lib.rs",
        BumpSeverity::Major,
    );
    let id = finding_id("cargo/public-api", &removed);
    assert_eq!(id, "cargo/public-api/public_api/removed/function/crate::old");
    let finding = finding_from_semantic_change(id.clone(), "cargo/public-api", &removed, DetectionLevel::Basic);
    assert_eq!(finding.id, id);
    assert_eq!(finding.rule_id, "cargo/public-api/public_api/removed/function");
    assert_eq!(finding.surface, "public_api");
    assert_eq!(finding.impact, CompatibilityImpact::Breaking);
    assert_eq!(finding.bump, BumpSeverity::Major);
    assert_eq!(finding.location, "src/lib.rs");
    assert_eq!(finding.analyzer.version, "1");
    assert!(finding.comparisons.is_empty());
    assert!(finding.coverage.note.starts_with("syntax-level Rust surface"));
}

#[test]
fn package_lifecycle_findings_are_complete_and_confident() {
    let added = change(
        SemanticChangeCategory::Package,
        SemanticChangeKind::Added,
        "package",
        "@acme/new",
        "added package `@acme/new`",
        "packages/new/package.json",
        BumpSeverity::Minor,
    );
    let finding = finding_from_semantic_change(
        finding_id("monochange/package-lifecycle", &added),
        "monochange/package-lifecycle",
        &added,
        DetectionLevel::Signature,
    );
    assert_eq!(finding.confidence, ClassificationConfidence::High);
    assert_eq!(finding.coverage.completeness, AnalysisCompleteness::Complete);
    assert_eq!(finding.impact, CompatibilityImpact::Additive);
    assert_eq!(finding.coverage.note, "package manifest presence was compared at both endpoints");
}

fn removed_api_change() -> SemanticChange {
    let mut removed = change(
        SemanticChangeCategory::PublicApi,
        SemanticChangeKind::Removed,
        "function",
        "old",
        "removed public function `old`",
        "src/index.ts",
        BumpSeverity::Major,
    );
    removed.before_signature = Some("export function old()".to_string());
    removed
}

fn evidence(completeness: SemanticAnalysisCompleteness, note: &str, version: Option<&str>) -> SemanticAnalyzerEvidence {
    SemanticAnalyzerEvidence {
        analyzer_id: "npm/typescript".to_string(),
        engine: "typescript".to_string(),
        engine_version: version.map(str::to_string),
        completeness,
        note: note.to_string(),
        fallback_reason: None,
    }
}

#[test]
fn semantic_finding_uses_explicit_analyzer_assessment() {
    let mut change = removed_api_change();
    change.kind = SemanticChangeKind::Modified;
    change.summary = "implementation changed without changing declarations".to_string();
    change.assessment = Some(SemanticChangeAssessment {
        outcome: SemanticAnalysisOutcome::Compatible,
        bump: BumpSeverity::NoBump,
        confidence: ApiConfidence::High,
        evidence: evidence(SemanticAnalysisCompleteness::Complete, "all explicit typed exports were checked", Some("6.0.3")),
    });

    let finding = finding_from_semantic_change(
        finding_id("npm/package-json", &change),
        "npm/package-json",
        &change,
        DetectionLevel::Semantic,
    );

    assert_eq!(finding.impact, CompatibilityImpact::Compatible);
    assert_eq!(finding.bump, BumpSeverity::NoBump);
    assert_eq!(finding.confidence, ClassificationConfidence::High);
    assert_eq!(finding.analyzer.id, "npm/typescript");
    assert_eq!(finding.analyzer.engine.as_deref(), Some("typescript"));
    assert_eq!(finding.analyzer.version, "6.0.3");
    assert_eq!(finding.coverage.completeness, AnalysisCompleteness::Complete);
    assert_eq!(finding.coverage.note, "all explicit typed exports were checked");
    assert_eq!(finding.coverage.fallback_reason, None);
    let mut current = finding;
    current.comparisons.push(ComparisonKind::PullRequest);
    let decision = build_recommendation(&[current], true, false);
    assert_eq!(decision.proposed_changeset_bump, BumpSeverity::NoBump);
    assert_eq!(decision.completeness, AnalysisCompleteness::Complete);
    assert!(!decision.review_required);
}

#[test]
fn semantic_assessment_mapping_covers_every_current_evidence_variant() {
    assert_eq!(compatibility_impact_from_outcome(SemanticAnalysisOutcome::Additive), CompatibilityImpact::Additive);
    assert_eq!(compatibility_impact_from_outcome(SemanticAnalysisOutcome::Breaking), CompatibilityImpact::Breaking);
    assert_eq!(compatibility_impact_from_outcome(SemanticAnalysisOutcome::Inconclusive), CompatibilityImpact::Unknown);
    assert_eq!(classification_confidence(ApiConfidence::Medium), ClassificationConfidence::Medium);
    assert_eq!(classification_confidence(ApiConfidence::Low), ClassificationConfidence::Low);
    assert_eq!(analysis_completeness(SemanticAnalysisCompleteness::Partial), AnalysisCompleteness::Partial);
    assert_eq!(analysis_completeness(SemanticAnalysisCompleteness::Unsupported), AnalysisCompleteness::Unsupported);
    assert_eq!(analysis_completeness_name(AnalysisCompleteness::Complete), "complete");
    assert_eq!(analysis_completeness_name(AnalysisCompleteness::Unsupported), "unsupported");
}

#[test]
fn finding_fingerprint_includes_the_semantic_assessment() {
    let mut change = removed_api_change();
    let without_assessment = FindingEvidenceKey::from_change(&change).stable_fingerprint();
    change.assessment = Some(SemanticChangeAssessment {
        outcome: SemanticAnalysisOutcome::Breaking,
        bump: BumpSeverity::Major,
        confidence: ApiConfidence::High,
        evidence: evidence(SemanticAnalysisCompleteness::Complete, "all exports", None),
    });
    assert_ne!(FindingEvidenceKey::from_change(&change).stable_fingerprint(), without_assessment);
}
