use vstd::prelude::*;

use crate::classify::{
    bump_name, bump_of_rank, bump_rank, AnalysisCompleteness, BumpSeverity, ChangesetAction,
    ClassificationConfidence, ComparisonKind, ComparisonStatus, CompatibilityImpact, DetectionLevel,
};
use crate::model::{ecosystem_name, Ecosystem};
use crate::recommendation::{
    finding_models, DecisionModel, FindingModel,
    declared_bump, declared_changeset_bump, in_pr, lemma_declared_bump_bounded, has_comparison,
    ChangeRecommendation, ClassificationFinding, ExistingChangeset, FindingAnalyzer, FindingCoverage,
};
use crate::text::{push_str, views};

verus! {

broadcast use vstd::string::group_string_axioms;

/// One comparison of revisions that a classification draws on.
pub struct ResolvedComparison {
    pub kind: ComparisonKind,
    pub base: Option<String>,
    pub head: String,
    pub status: ComparisonStatus,
    pub note: Option<String>,
}

/// Whether a release is owned by a group or by a single package.
#[derive(Clone, Copy, Debug, PartialEq, Eq, Structural)]
pub enum ReleaseOwnerKind {
    Group,
    Package,
}

/// Who releases a package: its own release or its group's.
pub struct ReleaseIdentity {
    pub owner_id: String,
    pub owner_kind: ReleaseOwnerKind,
}

/// The owner of a package's releases, with its latest release tag.
pub struct ReleaseOwner {
    pub kind: String,
    pub id: String,
    pub latest_release: Option<String>,
}

/// The classification of one package.
pub struct PackageClassification {
    pub package_id: String,
    pub package_name: String,
    pub ecosystem: Ecosystem,
    pub release_owner: Option<ReleaseOwner>,
    pub comparisons: Vec<ResolvedComparison>,
    pub recommendation: BumpSeverity,
    pub decision: ChangeRecommendation,
    pub summary: String,
    pub findings: Vec<ClassificationFinding>,
    pub existing_changesets: Vec<ExistingChangeset>,
    pub action: ChangesetAction,
    pub warnings: Vec<String>,
}

/// A package classification as a mathematical value.
pub struct PackageModel {
    pub package_id: Seq<char>,
    pub package_name: Seq<char>,
    pub ecosystem: Ecosystem,
    pub release_owner: Option<ReleaseOwner>,
    pub comparisons: Seq<ResolvedComparison>,
    pub recommendation: BumpSeverity,
    pub decision: DecisionModel,
    pub summary: Seq<char>,
    pub findings: Seq<FindingModel>,
    pub existing_changesets: Seq<ExistingChangeset>,
    pub action: ChangesetAction,
    pub warnings: Seq<Seq<char>>,
}

impl View for PackageClassification {
    type V = PackageModel;

    open spec fn view(&self) -> PackageModel {
        PackageModel {
            package_id: self.package_id@,
            package_name: self.package_name@,
            ecosystem: self.ecosystem,
            release_owner: self.release_owner,
            comparisons: self.comparisons@,
            recommendation: self.recommendation,
            decision: self.decision@,
            summary: self.summary@,
            findings: finding_models(self.findings@),
            existing_changesets: self.existing_changesets@,
            action: self.action,
            warnings: views(self.warnings@),
        }
    }
}

/// The views of a list of package classifications.
pub open spec fn package_models(ps: Seq<PackageClassification>) -> Seq<PackageModel> {
    ps.map_values(|p: PackageClassification| p@)
}

/// The classification of a change across the packages it touches.
pub struct ChangeClassificationReport {
    pub schema_version: u16,
    pub default_branch: String,
    pub candidate: String,
    pub comparisons: Vec<ResolvedComparison>,
    pub recommendation: BumpSeverity,
    pub packages: Vec<PackageClassification>,
    pub warnings: Vec<String>,
}

pub open spec fn owner_kind_text(k: ReleaseOwnerKind) -> Seq<char> {
    match k {
        ReleaseOwnerKind::Group => "group"@,
        ReleaseOwnerKind::Package => "package"@,
    }
}

/// The release owner of a package with a release identity.
pub fn release_owner(identity: Option<&ReleaseIdentity>, latest_release: Option<String>) -> (r: Option<ReleaseOwner>)
    ensures
        match identity {
            None => r is None,
            Some(ident) => r matches Some(o) && o.kind@ == owner_kind_text(ident.owner_kind) && o.id@ == ident.owner_id@
                && o.latest_release == latest_release,
        },
{
    match identity {
        None => None,
        Some(ident) => {
            let kind: &str = match ident.owner_kind {
                ReleaseOwnerKind::Group => "group",
                ReleaseOwnerKind::Package => "package",
            };
            Some(ReleaseOwner { kind: kind.to_string(), id: ident.owner_id.clone(), latest_release })
        },
    }
}

/// The fallback finding for package files that changed without a modeled finding.
pub open spec fn is_unclassified_finding(
    f: ClassificationFinding,
    package_id: Seq<char>,
    ecosystem: Ecosystem,
    level: DetectionLevel,
    location: Seq<char>,
) -> bool {
    &&& f.id@ == "monochange/unclassified-source/"@ + package_id
    &&& f.rule_id@ == "monochange/unclassified-source"@
    &&& f.surface@ == "source"@
    &&& f.change@ == "modified"@
    &&& f.impact == CompatibilityImpact::Unknown
    &&& f.bump == BumpSeverity::Patch
    &&& f.confidence == ClassificationConfidence::Low
    &&& f.analyzer.id@ == ecosystem_name(ecosystem) + "/fallback"@
    &&& f.analyzer.engine is None
    &&& f.analyzer.version@ == "1"@
    &&& f.coverage.detection_level == level
    &&& f.coverage.completeness == AnalysisCompleteness::Partial
    &&& f.coverage.note@ == "changed package files produced no modeled compatibility finding"@
    &&& f.coverage.fallback_reason is None
    &&& f.before is None
    &&& f.after is None
    &&& f.location@ == location
    &&& f.comparisons@ == seq![ComparisonKind::PullRequest]
    &&& f.summary@ == "package files changed outside the analyzer's modeled public surface"@
}

/// Adds a low-confidence fallback finding when package files changed but no
/// finding covers the pull-request comparison.
pub fn ensure_unclassified_finding(
    package_id: &str,
    ecosystem: Ecosystem,
    detection_level: DetectionLevel,
    changed_files: &[String],
    findings: &mut Vec<ClassificationFinding>,
)
    ensures
        (changed_files@.len() == 0 || exists|i: int| 0 <= i < old(findings)@.len() && in_pr(#[trigger] old(findings)@[i]))
            ==> final(findings)@ == old(findings)@,
        !(changed_files@.len() == 0 || exists|i: int| 0 <= i < old(findings)@.len() && in_pr(#[trigger] old(findings)@[i]))
            ==> final(findings)@.len() == old(findings)@.len() + 1
                && final(findings)@.take(old(findings)@.len() as int) == old(findings)@
                && is_unclassified_finding(final(findings)@.last(), package_id@, ecosystem, detection_level, changed_files@[0]@),
{
    let mut i: usize = 0;
    while i < findings.len()
        invariant
            i <= findings@.len(),
            findings@ == old(findings)@,
            forall|j: int| 0 <= j < i ==> !in_pr(#[trigger] findings@[j]),
        decreases findings@.len() - i,
    {
        if has_comparison(&findings[i].comparisons, ComparisonKind::PullRequest) {
            return;
        }
        i = i + 1;
    }
    if changed_files.len() == 0 {
        return;
    }
    let mut id = String::new();
    push_str(&mut id, "monochange/unclassified-source/");
    push_str(&mut id, package_id);
    let mut analyzer_id = String::new();
    push_str(&mut analyzer_id, ecosystem.as_str());
    push_str(&mut analyzer_id, "/fallback");
    let mut comparisons: Vec<ComparisonKind> = Vec::new();
    comparisons.push(ComparisonKind::PullRequest);
    let finding = ClassificationFinding {
        id,
        rule_id: "monochange/unclassified-source".to_string(),
        surface: "source".to_string(),
        change: "modified".to_string(),
        impact: CompatibilityImpact::Unknown,
        bump: BumpSeverity::Patch,
        confidence: ClassificationConfidence::Low,
        analyzer: FindingAnalyzer { id: analyzer_id, engine: None, version: "1".to_string() },
        coverage: FindingCoverage {
            detection_level,
            completeness: AnalysisCompleteness::Partial,
            note: "changed package files produced no modeled compatibility finding".to_string(),
            fallback_reason: None,
        },
        before: None,
        after: None,
        location: changed_files[0].clone(),
        comparisons,
        summary: "package files changed outside the analyzer's modeled public surface".to_string(),
    };
    findings.push(finding);
    assert(findings@.take(old(findings)@.len() as int) =~= old(findings)@);
}

/// The bump a package's changesets must declare: the proposed bump in strict
/// mode, the enforceable minimum otherwise.
pub open spec fn required_bump(p: PackageClassification, strict: bool) -> BumpSeverity {
    if strict { p.decision.proposed_changeset_bump } else { p.decision.enforceable_minimum }
}

/// The complaint about a package whose changesets declare too little, if any.
pub open spec fn mismatch_of(p: PackageClassification, strict: bool) -> Option<Seq<char>> {
    let required = required_bump(p, strict);
    let declared = bump_of_rank(declared_bump(p.existing_changesets@));
    if required == BumpSeverity::NoBump || bump_rank(declared) >= bump_rank(required) {
        None
    } else {
        Some("package `"@ + p.package_id@ + "` declares `"@ + bump_name(declared) + "` but requires at least `"@
            + bump_name(required) + "`"@ + (if strict { " in strict mode"@ } else { Seq::empty() }))
    }
}

/// The complaints about all packages, in order.
pub open spec fn mismatches_of(ps: Seq<PackageClassification>, strict: bool) -> Seq<Seq<char>>
    decreases ps.len(),
{
    if ps.len() == 0 {
        seq![]
    } else {
        match mismatch_of(ps.last(), strict) {
            Some(m) => mismatches_of(ps.drop_last(), strict).push(m),
            None => mismatches_of(ps.drop_last(), strict),
        }
    }
}

fn package_mismatch(p: &PackageClassification, strict: bool) -> (r: Option<String>)
    ensures
        match mismatch_of(*p, strict) {
            Some(m) => r matches Some(x) && x@ == m,
            None => r is None,
        },
{
    let required = if strict { p.decision.proposed_changeset_bump } else { p.decision.enforceable_minimum };
    if required == BumpSeverity::NoBump {
        return None;
    }
    let declared = declared_changeset_bump(p.existing_changesets.as_slice());
    proof {
        lemma_declared_bump_bounded(p.existing_changesets@);
    }
    if declared.rank() >= required.rank() {
        return None;
    }
    let mut m = String::new();
    push_str(&mut m, "package `");
    push_str(&mut m, p.package_id.as_str());
    push_str(&mut m, "` declares `");
    push_str(&mut m, declared.label());
    push_str(&mut m, "` but requires at least `");
    push_str(&mut m, required.label());
    push_str(&mut m, "`");
    if strict {
        push_str(&mut m, " in strict mode");
    }
    assert(m@ =~= mismatch_of(*p, strict)->0);
    Some(m)
}

/// The packages whose pending changesets declare less than the classification
/// requires (the enforceable minimum, or in strict mode the proposed bump).
pub fn changeset_validation_mismatches(report: &ChangeClassificationReport, strict: bool) -> (r: Vec<String>)
    ensures
        crate::text::views(r@) == mismatches_of(report.packages@, strict),
{
    let mut out: Vec<String> = Vec::new();
    let mut i: usize = 0;
    while i < report.packages.len()
        invariant
            i <= report.packages@.len(),
            crate::text::views(out@) == mismatches_of(report.packages@.take(i as int), strict),
        decreases report.packages@.len() - i,
    {
        proof {
            assert(report.packages@.take(i + 1).drop_last() =~= report.packages@.take(i as int));
            assert(report.packages@.take(i + 1).last() == report.packages@[i as int]);
        }
        let ghost prev = out@;
        match package_mismatch(&report.packages[i], strict) {
            Some(m) => {
                out.push(m);
                assert(crate::text::views(out@) =~= crate::text::views(prev).push(out@.last()@));
            },
            None => {},
        }
        i = i + 1;
    }
    assert(report.packages@.take(report.packages@.len() as int) =~= report.packages@);
    out
}

} // verus!
