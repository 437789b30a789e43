use monochange::classify::{
    analysis_completeness_name, analyzer_coverage_note, changeset_action_name, classification_confidence_name,
    comparison_kind_name, comparison_status_name, compatibility_impact, compatibility_impact_name, is_changeset_path,
    parse_dependency_propagation, parse_detection_level, path_file_name, plain_text_fragment, semantic_category_name,
    semantic_kind_name, short_revision, AnalysisCompleteness, BumpSeverity, ChangesetAction,
    ClassificationConfidence, ComparisonKind, ComparisonStatus, CompatibilityImpact, DependencyPropagation,
    DetectionLevel, SemanticChangeCategory, SemanticChangeKind,
};
use monochange::error::MonochangeError;
use monochange::recommendation::FindingEvidenceKey;

#[test]
fn selection_release_and_render_helpers_cover_every_supported_variant() {
    assert_eq!(comparison_kind_name(ComparisonKind::PullRequest), "pullRequest");
    assert_eq!(comparison_kind_name(ComparisonKind::Release), "release");
    assert_eq!(comparison_kind_name(ComparisonKind::ReleaseToDefault), "releaseToDefault");
    assert_eq!(comparison_kind_name(ComparisonKind::SourceDelta), "sourceDelta");
    assert_eq!(comparison_kind_name(ComparisonKind::WorkingTree), "workingTree");
    assert_eq!(comparison_status_name(ComparisonStatus::Analyzed), "analyzed");
    assert_eq!(comparison_status_name(ComparisonStatus::Unavailable), "unavailable");
    assert_eq!(comparison_status_name(ComparisonStatus::Conflicted), "conflicted");
    assert_eq!(compatibility_impact_name(CompatibilityImpact::Unknown), "unknown");
    assert_eq!(compatibility_impact_name(CompatibilityImpact::Compatible), "compatible");
    assert_eq!(compatibility_impact_name(CompatibilityImpact::Additive), "additive");
    assert_eq!(compatibility_impact_name(CompatibilityImpact::Breaking), "breaking");
    assert_eq!(classification_confidence_name(ClassificationConfidence::Low), "low");
    assert_eq!(classification_confidence_name(ClassificationConfidence::Medium), "medium");
    assert_eq!(classification_confidence_name(ClassificationConfidence::High), "high");
    assert_eq!(analysis_completeness_name(AnalysisCompleteness::Unsupported), "unsupported");
    assert_eq!(changeset_action_name(ChangesetAction::NoChangeset), "nochangeset");
    assert_eq!(semantic_category_name(SemanticChangeCategory::PublicApi), "public_api");
    assert_eq!(semantic_kind_name(SemanticChangeKind::Removed), "removed");
}

#[test]
fn bump_severities_have_names_and_ranks() {
    assert_eq!(BumpSeverity::NoBump.label(), "none");
    assert_eq!(BumpSeverity::Patch.label(), "patch");
    assert_eq!(BumpSeverity::Minor.label(), "minor");
    assert_eq!(BumpSeverity::Major.label(), "major");
    for bump in [BumpSeverity::NoBump, BumpSeverity::Patch, BumpSeverity::Minor, BumpSeverity::Major] {
        assert_eq!(BumpSeverity::from_rank(bump.rank()), bump);
    }
}

#[test]
fn compatibility_impact_follows_the_surface_and_kind() {
    assert_eq!(compatibility_impact(SemanticChangeCategory::PublicApi, SemanticChangeKind::Removed), CompatibilityImpact::Breaking);
    assert_eq!(compatibility_impact(SemanticChangeCategory::Export, SemanticChangeKind::Added), CompatibilityImpact::Additive);
    assert_eq!(compatibility_impact(SemanticChangeCategory::Package, SemanticChangeKind::Modified), CompatibilityImpact::Breaking);
    assert_eq!(compatibility_impact(SemanticChangeCategory::Dependency, SemanticChangeKind::Removed), CompatibilityImpact::Compatible);
    assert_eq!(compatibility_impact(SemanticChangeCategory::Metadata, SemanticChangeKind::Added), CompatibilityImpact::Compatible);
}

#[test]
fn detection_levels_and_propagation_modes_parse_their_names() {
    assert!(matches!(parse_detection_level("basic"), Ok(DetectionLevel::Basic)));
    assert!(matches!(parse_detection_level("signature"), Ok(DetectionLevel::Signature)));
    assert!(matches!(parse_detection_level("semantic"), Ok(DetectionLevel::Semantic)));
    match parse_detection_level("deep") {
        Err(MonochangeError::Config(m)) => {
            assert_eq!(m, "unsupported detection level `deep`; expected basic, signature, or semantic")
        }
        _ => panic!("expected an error"),
    }
    assert!(matches!(parse_dependency_propagation("none"), Ok(DependencyPropagation::Off)));
    assert!(matches!(parse_dependency_propagation("public"), Ok(DependencyPropagation::Public)));
    match parse_dependency_propagation("transitive") {
        Err(MonochangeError::Config(m)) => assert_eq!(m, "unsupported dependency propagation `transitive`; expected none or public"),
        _ => panic!("expected an error"),
    }
}

#[test]
fn revisions_shorten_to_twelve_characters() {
    assert_eq!(short_revision("0123456789abcdef"), "0123456789ab");
    assert_eq!(short_revision("abc"), "abc");
}

#[test]
fn plain_text_drops_code_span_marks() {
    assert_eq!(plain_text_fragment("added export `render`"), "added export render");
    assert_eq!(plain_text_fragment("no marks"), "no marks");
}

#[test]
fn analyzer_coverage_notes_depend_on_the_analyzer() {
    assert!(analyzer_coverage_note("npm/exports").contains("TypeScript assignability"));
    assert!(analyzer_coverage_note("deno/exports").contains("TypeScript assignability"));
    assert!(analyzer_coverage_note("dart/public-api").contains("Dart declaration"));
    assert!(analyzer_coverage_note("cargo/public-api").contains("Rust surface"));
    assert!(analyzer_coverage_note("custom/analyzer").contains("does not declare"));
}

#[test]
fn file_names_follow_path_semantics() {
    assert_eq!(path_file_name("a/b/c.md").as_deref(), Some("c.md"));
    assert_eq!(path_file_name("a/b/").as_deref(), Some("b"));
    assert_eq!(path_file_name("a/b/.").as_deref(), Some("b"));
    assert_eq!(path_file_name("a/.."), None);
    assert_eq!(path_file_name("/"), None);
    assert_eq!(path_file_name(""), None);
}

#[test]
fn changeset_paths_are_markdown_files_under_the_changeset_directory() {
    assert!(is_changeset_path(".changeset/feature.md"));
    assert!(is_changeset_path(".changeset/nested/feature.MD"));
    assert!(!is_changeset_path(".changeset/config.json"));
    assert!(!is_changeset_path(".changesets/feature.md"));
    assert!(!is_changeset_path("docs/feature.md"));
    assert!(!is_changeset_path(".changeset/.md"));
}

#[test]
fn evidence_fingerprints_distinguish_their_fields() {
    let key = |before: Option<&str>, location: &str| FindingEvidenceKey {
        before: before.map(str::to_string),
        after: None,
        location: location.to_string(),
        summary: "removed".to_string(),
        assessment: None,
    };
    let a = key(Some("pub fn old()"), "src/lib.rs").stable_fingerprint();
    assert_eq!(a, key(Some("pub fn old()"), "src/lib.rs").stable_fingerprint());
    assert_ne!(a, key(None, "src/lib.rs").stable_fingerprint());
    assert_ne!(a, key(Some("pub fn old()"), "src/main.rs").stable_fingerprint());
}
