use monochange::classification_report::{PackageClassification, ReleaseOwner, ResolvedComparison};
use monochange::classify::{
    AnalysisCompleteness, BumpSeverity, ChangesetAction, ClassificationConfidence, ComparisonKind,
    ComparisonStatus, CompatibilityImpact, DetectionLevel,
};
use monochange::model::Ecosystem;
use monochange::propagation::{
    preferred_report_package_id, propagate_public_dependency_impacts, public_dependency_impacts,
    AnalyzedPackage, DependencyLink, DependentPackage,
};
use monochange::recommendation::{ChangeRecommendation, ExistingChangeset};

fn npm_package(id: &str, name: &str, location: &str) -> DependentPackage {
    DependentPackage {
        record_id: id.to_string(),
        config_id: None,
        name: name.to_string(),
        ecosystem: Ecosystem::Npm,
        location: location.to_string(),
    }
}

fn analyzed(id: &str, name: &str, severity: BumpSeverity) -> AnalyzedPackage {
    AnalyzedPackage { record_id: id.to_string(), name: name.to_string(), severity }
}

fn runtime_edge(from: &str, to: &str) -> DependencyLink {
    DependencyLink { from_record_id: from.to_string(), to_record_id: to.to_string(), runtime: true }
}

fn no_change_recommendation() -> ChangeRecommendation {
    ChangeRecommendation {
        compatibility_impact: CompatibilityImpact::Compatible,
        proposed_changeset_bump: BumpSeverity::NoBump,
        enforceable_minimum: BumpSeverity::NoBump,
        release_floor: BumpSeverity::NoBump,
        confidence: ClassificationConfidence::High,
        completeness: AnalysisCompleteness::Complete,
        review_required: false,
        finding_ids: Vec::new(),
    }
}

#[test]
fn public_dependency_propagation_returns_early_without_package_records() {
    let analyses = vec![analyzed("core", "core", BumpSeverity::Minor)];
    let mut packages = Vec::new();
    let mut recommendation = BumpSeverity::NoBump;

    propagate_public_dependency_impacts(
        &analyses,
        &[],
        &[],
        DetectionLevel::Signature,
        &mut packages,
        &mut recommendation,
    );

    assert!(packages.is_empty());
    assert_eq!(recommendation, BumpSeverity::NoBump);
}

#[test]
fn public_dependency_propagation_can_set_patch_recommendation_when_called_standalone() {
    let core = npm_package("npm:@acme/core", "@acme/core", "packages/core/package.json");
    let app = npm_package("npm:@acme/app", "@acme/app", "packages/app/package.json");
    let analyses = vec![analyzed("npm:@acme/core", "@acme/core", BumpSeverity::Minor)];
    let edges = vec![runtime_edge("npm:@acme/app", "npm:@acme/core")];
    let mut packages = Vec::new();
    let mut recommendation = BumpSeverity::NoBump;

    propagate_public_dependency_impacts(
        &analyses,
        &[core, app],
        &edges,
        DetectionLevel::Signature,
        &mut packages,
        &mut recommendation,
    );

    assert_eq!(recommendation, BumpSeverity::Patch);
    assert_eq!(packages.len(), 1);
    assert_eq!(packages[0].package_id, "npm:@acme/app");
    assert_eq!(packages[0].action, ChangesetAction::Create);
    assert_eq!(packages[0].decision.proposed_changeset_bump, BumpSeverity::Patch);
    assert_eq!(packages[0].decision.finding_ids, vec!["monochange/public-dependency/@acme/core".to_string()]);
    assert_eq!(
        packages[0].summary,
        "public dependency `@acme/core` changed; verify the dependent package still re-exports or constrains it correctly"
    );
    let finding = &packages[0].findings[0];
    assert_eq!(finding.id, "monochange/public-dependency/@acme/core");
    assert_eq!(finding.location, "packages/app/package.json");
    assert_eq!(finding.analyzer.id, "monochange/dependency-propagation");
    assert_eq!(finding.comparisons, vec![ComparisonKind::PullRequest]);
}

#[test]
fn public_dependency_propagation_preserves_an_existing_package_report() {
    let core = npm_package("npm:@acme/core", "@acme/core", "packages/core/package.json");
    let app = npm_package("npm:@acme/app", "@acme/app", "packages/app/package.json");
    let analyses = vec![analyzed("npm:@acme/core", "@acme/core", BumpSeverity::Minor)];
    let edges = vec![runtime_edge("npm:@acme/app", "npm:@acme/core")];
    let mut packages = vec![PackageClassification {
        package_id: "npm:@acme/app".to_string(),
        package_name: "@acme/app".to_string(),
        ecosystem: Ecosystem::Npm,
        release_owner: Some(ReleaseOwner {
            kind: "group".to_string(),
            id: "workspace".to_string(),
            latest_release: Some("v1.0.0".to_string()),
        }),
        comparisons: vec![ResolvedComparison {
            kind: ComparisonKind::Release,
            base: Some("v1.0.0".to_string()),
            head: "HEAD".to_string(),
            status: ComparisonStatus::Analyzed,
            note: None,
        }],
        recommendation: BumpSeverity::NoBump,
        decision: no_change_recommendation(),
        summary: "no package change requires a changeset".to_string(),
        findings: Vec::new(),
        existing_changesets: vec![ExistingChangeset {
            path: ".changeset/app.md".to_string(),
            bump: Some(BumpSeverity::Patch),
            change_type: Some("patch".to_string()),
        }],
        action: ChangesetAction::Review,
        warnings: Vec::new(),
    }];
    let mut recommendation = BumpSeverity::NoBump;

    propagate_public_dependency_impacts(
        &analyses,
        &[core, app],
        &edges,
        DetectionLevel::Signature,
        &mut packages,
        &mut recommendation,
    );

    assert_eq!(recommendation, BumpSeverity::Patch);
    assert_eq!(packages.len(), 1);
    let package = &packages[0];
    assert_eq!(package.package_id, "npm:@acme/app");
    assert_eq!(package.comparisons.len(), 1);
    assert_eq!(package.comparisons[0].base.as_deref(), Some("v1.0.0"));
    assert_eq!(package.existing_changesets.len(), 1);
    assert_eq!(package.existing_changesets[0].path, ".changeset/app.md");
    assert_eq!(package.recommendation, BumpSeverity::Patch);
    assert_eq!(package.action, ChangesetAction::Keep);
    assert_eq!(package.findings.len(), 1);
    assert!(package.decision.review_required);
    assert_eq!(package.decision.completeness, AnalysisCompleteness::Partial);
    assert_eq!(package.release_owner.as_ref().map(|owner| owner.id.as_str()), Some("workspace"));
}

#[test]
fn public_dependency_impacts_skip_development_and_patch_only_edges() {
    let core = npm_package("core", "@acme/core", "packages/core/package.json");
    let utils = npm_package("utils", "@acme/utils", "packages/utils/package.json");
    let app = npm_package("app", "@acme/app", "packages/app/package.json");
    let docs = npm_package("docs", "@acme/docs", "packages/docs/package.json");
    let analyses = vec![
        analyzed("core", "@acme/core", BumpSeverity::Minor),
        analyzed("app", "@acme/app", BumpSeverity::Patch),
    ];
    let edges = vec![
        runtime_edge("app", "core"),
        runtime_edge("app", "utils"),
        DependencyLink { from_record_id: "docs".to_string(), to_record_id: "core".to_string(), runtime: false },
    ];
    let impacts = public_dependency_impacts(&analyses, &[core, utils, app, docs], &edges);
    assert_eq!(impacts.len(), 1);
    assert_eq!(impacts[0].dependent.record_id, "app");
    assert_eq!(impacts[0].upstream_name, "@acme/core");
}

#[test]
fn public_dependency_impacts_are_sorted_and_deduplicated() {
    let core = npm_package("core", "@acme/core", "packages/core/package.json");
    let ui = npm_package("ui", "@acme/ui", "packages/ui/package.json");
    let app = npm_package("app", "@acme/app", "packages/app/package.json");
    let web = npm_package("web", "@acme/web", "packages/web/package.json");
    let analyses = vec![
        analyzed("core", "@acme/core", BumpSeverity::Major),
        analyzed("ui", "@acme/ui", BumpSeverity::Minor),
    ];
    let edges = vec![
        runtime_edge("web", "ui"),
        runtime_edge("app", "ui"),
        runtime_edge("app", "core"),
        runtime_edge("app", "core"),
    ];
    let impacts = public_dependency_impacts(&analyses, &[core, ui, app, web], &edges);
    let pairs: Vec<(String, String)> = impacts
        .iter()
        .map(|impact| (impact.dependent.record_id.clone(), impact.upstream_name.clone()))
        .collect();
    assert_eq!(
        pairs,
        vec![
            ("app".to_string(), "@acme/core".to_string()),
            ("app".to_string(), "@acme/ui".to_string()),
            ("web".to_string(), "@acme/ui".to_string()),
        ]
    );
}

#[test]
fn a_configured_id_names_the_dependent_in_reports() {
    let mut package = npm_package("npm:/repo/packages/app", "@acme/app", "packages/app/package.json");
    assert_eq!(preferred_report_package_id(&package), "npm:/repo/packages/app");
    package.config_id = Some("app".to_string());
    assert_eq!(preferred_report_package_id(&package), "app");
}

#[test]
fn propagation_adds_each_upstream_once_and_orders_packages_by_id() {
    let core = npm_package("core", "@acme/core", "packages/core/package.json");
    let ui = npm_package("ui", "@acme/ui", "packages/ui/package.json");
    let web = npm_package("web", "@acme/web", "packages/web/package.json");
    let app = npm_package("app", "@acme/app", "packages/app/package.json");
    let analyses = vec![
        analyzed("core", "@acme/core", BumpSeverity::Major),
        analyzed("ui", "@acme/ui", BumpSeverity::Minor),
    ];
    let edges = vec![runtime_edge("web", "ui"), runtime_edge("app", "core"), runtime_edge("app", "ui")];
    let mut packages = Vec::new();
    let mut recommendation = BumpSeverity::Minor;

    propagate_public_dependency_impacts(
        &analyses,
        &[core, ui, web, app],
        &edges,
        DetectionLevel::Signature,
        &mut packages,
        &mut recommendation,
    );

    assert_eq!(recommendation, BumpSeverity::Minor);
    let ids: Vec<&str> = packages.iter().map(|p| p.package_id.as_str()).collect();
    assert_eq!(ids, vec!["app", "web"]);
    assert_eq!(packages[0].findings.len(), 2);
    assert_eq!(
        packages[0].decision.finding_ids,
        vec![
            "monochange/public-dependency/@acme/core".to_string(),
            "monochange/public-dependency/@acme/ui".to_string(),
        ]
    );
    assert!(packages[0].summary.contains("`@acme/core`"));
}
