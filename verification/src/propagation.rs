use vstd::prelude::*;

use crate::classification_report::{package_models, PackageClassification, PackageModel};
use crate::classify::{
    bump_rank, AnalysisCompleteness, BumpSeverity, ChangesetAction, ClassificationConfidence, ComparisonKind,
    CompatibilityImpact, DetectionLevel,
};
use crate::keyed_sort::{
    dedup_by_text_key, dedup_keys, key_lt, key_of, lemma_dedup_strictly_increasing, lemma_stably_sorted_map,
    lemma_stably_sorted_ordered, lemma_stably_sorted_permutes, sort_by_text_key, stably_sorted, TextKey, TextKeyed,
};
use crate::model::Ecosystem;
use crate::recommendation::{
    action_for, changeset_action, finding_models, ChangeRecommendation, ClassificationFinding, DecisionModel,
    FindingAnalyzer, FindingCoverage, FindingModel,
};
use crate::text::{push_str, str_eq, views};

verus! {

broadcast use vstd::string::group_string_axioms;

/// A workspace package as dependency propagation reads it.
pub struct DependentPackage {
    pub record_id: String,
    /// The id the workspace configuration gives the package, if any.
    pub config_id: Option<String>,
    pub name: String,
    pub ecosystem: Ecosystem,
    /// Where the package's manifest lies, relative to the workspace root where possible.
    pub location: String,
}

/// A package of the analysis, with the highest severity of its semantic changes.
pub struct AnalyzedPackage {
    pub record_id: String,
    pub name: String,
    pub severity: BumpSeverity,
}

/// A dependency of one workspace package on another.
pub struct DependencyLink {
    pub from_record_id: String,
    pub to_record_id: String,
    /// Whether the dependency is a runtime one (not a development or build one).
    pub runtime: bool,
}

/// A package that depends at run time on a package whose public API changed.
pub struct PublicDependencyImpact {
    pub dependent: DependentPackage,
    pub upstream_name: String,
}

/// The id under which reports name a package: its configured id when it has
/// one, its record id otherwise.
pub open spec fn report_id(p: DependentPackage) -> Seq<char> {
    match p.config_id {
        Some(c) => c@,
        None => p.record_id@,
    }
}

/// The id under which reports name a package.
pub fn preferred_report_package_id(p: &DependentPackage) -> (r: String)
    ensures
        r@ == report_id(*p),
{
    match &p.config_id {
        Some(c) => c.clone(),
        None => p.record_id.clone(),
    }
}

impl DependentPackage {
    /// A copy of the package.
    pub fn duplicate(&self) -> (r: DependentPackage)
        ensures
            r == *self,
    {
        let config_id = match &self.config_id {
            Some(c) => Some(c.clone()),
            None => None,
        };
        DependentPackage {
            record_id: self.record_id.clone(),
            config_id,
            name: self.name.clone(),
            ecosystem: self.ecosystem,
            location: self.location.clone(),
        }
    }
}

impl TextKeyed for PublicDependencyImpact {
    open spec fn text_key(&self) -> TextKey {
        (report_id(self.dependent), self.upstream_name@)
    }

    fn primary_text(&self) -> (r: &str) {
        match &self.dependent.config_id {
            Some(c) => c.as_str(),
            None => self.dependent.record_id.as_str(),
        }
    }

    fn secondary_text(&self) -> (r: &str) {
        self.upstream_name.as_str()
    }
}

/// The name of the analyzed package with record id `id` whose changes call
/// for at least a minor release, if any (of several, the last).
pub open spec fn impacted_name(analyses: Seq<AnalyzedPackage>, id: Seq<char>) -> Option<String>
    decreases analyses.len(),
{
    if analyses.len() == 0 {
        None
    } else {
        let a = analyses.last();
        if a.record_id@ == id && bump_rank(a.severity) >= 2 {
            Some(a.name)
        } else {
            impacted_name(analyses.drop_last(), id)
        }
    }
}

/// The workspace package with record id `id`, if any (of several, the last).
pub open spec fn package_with_record(ps: Seq<DependentPackage>, id: Seq<char>) -> Option<DependentPackage>
    decreases ps.len(),
{
    if ps.len() == 0 {
        None
    } else if ps.last().record_id@ == id {
        Some(ps.last())
    } else {
        package_with_record(ps.drop_last(), id)
    }
}

/// The impacts of the runtime dependency edges, in edge order: one for each
/// edge from a known package to a package with a minor or major change.
pub open spec fn edge_impacts(
    analyses: Seq<AnalyzedPackage>,
    packages: Seq<DependentPackage>,
    edges: Seq<DependencyLink>,
) -> Seq<PublicDependencyImpact>
    decreases edges.len(),
{
    if edges.len() == 0 {
        seq![]
    } else {
        let rest = edge_impacts(analyses, packages, edges.drop_last());
        let e = edges.last();
        if !e.runtime {
            rest
        } else {
            match impacted_name(analyses, e.to_record_id@) {
                None => rest,
                Some(n) => match package_with_record(packages, e.from_record_id@) {
                    None => rest,
                    Some(p) => rest.push(PublicDependencyImpact { dependent: p, upstream_name: n }),
                },
            }
        }
    }
}

/// The public dependency impacts: those of the edges, ordered by dependent
/// report id and then upstream name, each pair once.
pub open spec fn public_impacts(
    analyses: Seq<AnalyzedPackage>,
    packages: Seq<DependentPackage>,
    edges: Seq<DependencyLink>,
) -> Seq<PublicDependencyImpact> {
    dedup_keys(
        key_of::<PublicDependencyImpact>(),
        stably_sorted(key_of::<PublicDependencyImpact>(), edge_impacts(analyses, packages, edges)),
    )
}

fn impacted_name_of(analyses: &[AnalyzedPackage], id: &str) -> (r: Option<String>)
    ensures
        r == impacted_name(analyses@, id@),
{
    let mut found: Option<String> = None;
    let mut j: usize = 0;
    while j < analyses.len()
        invariant
            j <= analyses@.len(),
            found == impacted_name(analyses@.take(j as int), id@),
        decreases analyses@.len() - j,
    {
        proof {
            assert(analyses@.take(j + 1).drop_last() =~= analyses@.take(j as int));
            assert(analyses@.take(j + 1).last() == analyses@[j as int]);
        }
        let a = &analyses[j];
        if str_eq(a.record_id.as_str(), id) && a.severity.rank() >= 2 {
            found = Some(a.name.clone());
        }
        j = j + 1;
    }
    assert(analyses@.take(analyses@.len() as int) =~= analyses@);
    found
}

fn package_with_record_of(packages: &[DependentPackage], id: &str) -> (r: Option<DependentPackage>)
    ensures
        r == package_with_record(packages@, id@),
{
    let mut found: Option<DependentPackage> = None;
    let mut j: usize = 0;
    while j < packages.len()
        invariant
            j <= packages@.len(),
            found == package_with_record(packages@.take(j as int), id@),
        decreases packages@.len() - j,
    {
        proof {
            assert(packages@.take(j + 1).drop_last() =~= packages@.take(j as int));
            assert(packages@.take(j + 1).last() == packages@[j as int]);
        }
        if str_eq(packages[j].record_id.as_str(), id) {
            found = Some(packages[j].duplicate());
        }
        j = j + 1;
    }
    assert(packages@.take(packages@.len() as int) =~= packages@);
    found
}

/// The packages that depend at run time on a package whose changes call for
/// at least a minor release, with that package's name: ordered by the
/// dependent's report id and then the upstream name, each pair once.
pub fn public_dependency_impacts(
    analyses: &[AnalyzedPackage],
    packages: &[DependentPackage],
    edges: &[DependencyLink],
) -> (r: Vec<PublicDependencyImpact>)
    ensures
        r@ == public_impacts(analyses@, packages@, edges@),
{
    let mut raw: Vec<PublicDependencyImpact> = Vec::new();
    let mut i: usize = 0;
    while i < edges.len()
        invariant
            i <= edges@.len(),
            raw@ == edge_impacts(analyses@, packages@, edges@.take(i as int)),
        decreases edges@.len() - i,
    {
        proof {
            assert(edges@.take(i + 1).drop_last() =~= edges@.take(i as int));
            assert(edges@.take(i + 1).last() == edges@[i as int]);
        }
        let e = &edges[i];
        if e.runtime {
            match impacted_name_of(analyses, e.to_record_id.as_str()) {
                Some(n) => match package_with_record_of(packages, e.from_record_id.as_str()) {
                    Some(p) => {
                        raw.push(PublicDependencyImpact { dependent: p, upstream_name: n });
                    },
                    None => {},
                },
                None => {},
            }
        }
        i = i + 1;
    }
    assert(edges@.take(edges@.len() as int) =~= edges@);
    let sorted = sort_by_text_key(raw);
    dedup_by_text_key(sorted)
}

/// The id of the finding that a changed public dependency adds to its dependents.
pub open spec fn dependency_finding_id(upstream: Seq<char>) -> Seq<char> {
    "monochange/public-dependency/"@ + upstream
}

/// The finding that a changed public dependency adds to a dependent package.
pub open spec fn dependency_finding(upstream: Seq<char>, level: DetectionLevel, location: Seq<char>) -> FindingModel {
    FindingModel {
        id: dependency_finding_id(upstream),
        rule_id: "monochange/public-dependency"@,
        surface: "dependency"@,
        change: "propagated"@,
        impact: CompatibilityImpact::Compatible,
        bump: BumpSeverity::Patch,
        confidence: ClassificationConfidence::Medium,
        analyzer_id: "monochange/dependency-propagation"@,
        analyzer_engine: None,
        analyzer_version: "1"@,
        detection_level: level,
        completeness: AnalysisCompleteness::Partial,
        note: "direct runtime dependency propagation"@,
        fallback_reason: None,
        before: None,
        after: None,
        location,
        comparisons: seq![ComparisonKind::PullRequest],
        summary: "public dependency `"@ + upstream + "` changed; verify re-exports and constraints"@,
    }
}

/// The summary of a package that a changed public dependency made releasable.
pub open spec fn dependent_summary(upstream: Seq<char>) -> Seq<char> {
    "public dependency `"@ + upstream
        + "` changed; verify the dependent package still re-exports or constrains it correctly"@
}

/// Some finding has the id `id`.
pub open spec fn has_finding_id(fs: Seq<FindingModel>, id: Seq<char>) -> bool {
    exists|i: int| 0 <= i < fs.len() && (#[trigger] fs[i]).id == id
}

/// The larger of two bumps.
pub open spec fn max_bump(a: BumpSeverity, b: BumpSeverity) -> BumpSeverity {
    if bump_rank(b) >= bump_rank(a) {
        b
    } else {
        a
    }
}

/// The decision of a package after a changed public dependency reached it: a
/// package with no bump is raised to a compatible patch that rests on the new
/// finding alone; a patch adds the finding's id; a larger bump keeps its ids.
/// In every case the release floor is at least a patch, the analysis is
/// partial and review is required.
pub open spec fn absorbed_decision(d: DecisionModel, fid: Seq<char>) -> DecisionModel {
    let raise = d.proposed_changeset_bump == BumpSeverity::NoBump;
    let ids = if raise {
        seq![fid]
    } else if d.proposed_changeset_bump == BumpSeverity::Patch && !d.finding_ids.contains(fid) {
        d.finding_ids.push(fid)
    } else {
        d.finding_ids
    };
    DecisionModel {
        compatibility_impact: if raise { CompatibilityImpact::Compatible } else { d.compatibility_impact },
        proposed_changeset_bump: if raise { BumpSeverity::Patch } else { d.proposed_changeset_bump },
        enforceable_minimum: d.enforceable_minimum,
        release_floor: max_bump(d.release_floor, BumpSeverity::Patch),
        confidence: if raise { ClassificationConfidence::Medium } else { d.confidence },
        completeness: AnalysisCompleteness::Partial,
        review_required: true,
        finding_ids: ids,
    }
}

/// A package's classification after a changed public dependency reached it.
pub open spec fn absorbed(p: PackageModel, upstream: Seq<char>, level: DetectionLevel, location: Seq<char>) -> PackageModel {
    let f = dependency_finding(upstream, level, location);
    let d = absorbed_decision(p.decision, f.id);
    let raise = p.decision.proposed_changeset_bump == BumpSeverity::NoBump;
    PackageModel {
        package_id: p.package_id,
        package_name: p.package_name,
        ecosystem: p.ecosystem,
        release_owner: p.release_owner,
        comparisons: p.comparisons,
        recommendation: if raise { BumpSeverity::Patch } else { p.recommendation },
        decision: d,
        summary: if raise { dependent_summary(upstream) } else { p.summary },
        findings: if has_finding_id(p.findings, f.id) { p.findings } else { p.findings.push(f) },
        existing_changesets: p.existing_changesets,
        action: action_for(d.proposed_changeset_bump, p.existing_changesets),
        warnings: p.warnings,
    }
}

/// The classification of a dependent package that the report did not hold yet.
pub open spec fn new_dependent(imp: PublicDependencyImpact, level: DetectionLevel) -> PackageModel {
    let u = imp.upstream_name@;
    let f = dependency_finding(u, level, imp.dependent.location@);
    PackageModel {
        package_id: report_id(imp.dependent),
        package_name: imp.dependent.name@,
        ecosystem: imp.dependent.ecosystem,
        release_owner: None,
        comparisons: seq![],
        recommendation: BumpSeverity::Patch,
        decision: DecisionModel {
            compatibility_impact: CompatibilityImpact::Compatible,
            proposed_changeset_bump: BumpSeverity::Patch,
            enforceable_minimum: BumpSeverity::NoBump,
            release_floor: BumpSeverity::Patch,
            confidence: ClassificationConfidence::Medium,
            completeness: AnalysisCompleteness::Partial,
            review_required: true,
            finding_ids: seq![f.id],
        },
        summary: dependent_summary(u),
        findings: seq![f],
        existing_changesets: seq![],
        action: ChangesetAction::Create,
        warnings: seq![],
    }
}

/// The index of the first package with id `id`, or -1.
pub open spec fn index_of_package(ps: Seq<PackageModel>, id: Seq<char>) -> int
    decreases ps.len(),
{
    if ps.len() == 0 {
        -1
    } else if ps[0].package_id == id {
        0
    } else {
        let r = index_of_package(ps.drop_first(), id);
        if r < 0 {
            -1
        } else {
            r + 1
        }
    }
}

/// One impact applied to the packages and the overall recommendation: the
/// first package with the dependent's report id absorbs it, or a new package
/// is added for it; the overall recommendation rises to the package's.
pub open spec fn propagate_impact(
    state: (Seq<PackageModel>, BumpSeverity),
    imp: PublicDependencyImpact,
    level: DetectionLevel,
) -> (Seq<PackageModel>, BumpSeverity) {
    let ps = state.0;
    let i = index_of_package(ps, report_id(imp.dependent));
    if i >= 0 {
        let q = absorbed(ps[i], imp.upstream_name@, level, imp.dependent.location@);
        (ps.update(i, q), max_bump(state.1, q.recommendation))
    } else {
        (ps.push(new_dependent(imp, level)), max_bump(state.1, BumpSeverity::Patch))
    }
}

/// The impacts applied in order.
pub open spec fn propagate_impacts(
    ps: Seq<PackageModel>,
    rec: BumpSeverity,
    imps: Seq<PublicDependencyImpact>,
    level: DetectionLevel,
) -> (Seq<PackageModel>, BumpSeverity)
    decreases imps.len(),
{
    if imps.len() == 0 {
        (ps, rec)
    } else {
        propagate_impact(propagate_impacts(ps, rec, imps.drop_last(), level), imps.last(), level)
    }
}

/// Package classifications sort by package id.
pub open spec fn model_key() -> spec_fn(PackageModel) -> TextKey {
    |m: PackageModel| (m.package_id, Seq::<char>::empty())
}

impl TextKeyed for PackageClassification {
    open spec fn text_key(&self) -> TextKey {
        (self.package_id@, Seq::<char>::empty())
    }

    fn primary_text(&self) -> (r: &str) {
        self.package_id.as_str()
    }

    fn secondary_text(&self) -> (r: &str) {
        proof {
            reveal_strlit("");
        }
        ""
    }
}

fn dependency_finding_of(upstream: &str, level: DetectionLevel, location: &str) -> (f: ClassificationFinding)
    ensures
        f@ == dependency_finding(upstream@, level, location@),
{
    let mut id = String::new();
    push_str(&mut id, "monochange/public-dependency/");
    push_str(&mut id, upstream);
    let mut summary = String::new();
    push_str(&mut summary, "public dependency `");
    push_str(&mut summary, upstream);
    push_str(&mut summary, "` changed; verify re-exports and constraints");
    let mut comparisons: Vec<ComparisonKind> = Vec::new();
    comparisons.push(ComparisonKind::PullRequest);
    let f = ClassificationFinding {
        id,
        rule_id: "monochange/public-dependency".to_string(),
        surface: "dependency".to_string(),
        change: "propagated".to_string(),
        impact: CompatibilityImpact::Compatible,
        bump: BumpSeverity::Patch,
        confidence: ClassificationConfidence::Medium,
        analyzer: FindingAnalyzer { id: "monochange/dependency-propagation".to_string(), engine: None, version: "1".to_string() },
        coverage: FindingCoverage {
            detection_level: level,
            completeness: AnalysisCompleteness::Partial,
            note: "direct runtime dependency propagation".to_string(),
            fallback_reason: None,
        },
        before: None,
        after: None,
        location: location.to_string(),
        comparisons,
        summary,
    };
    assert(f@.comparisons =~= seq![ComparisonKind::PullRequest]);
    f
}

fn dependent_summary_of(upstream: &str) -> (r: String)
    ensures
        r@ == dependent_summary(upstream@),
{
    let mut s = String::new();
    push_str(&mut s, "public dependency `");
    push_str(&mut s, upstream);
    push_str(&mut s, "` changed; verify the dependent package still re-exports or constrains it correctly");
    s
}

fn has_finding_with_id(fs: &Vec<ClassificationFinding>, id: &str) -> (r: bool)
    ensures
        r == has_finding_id(finding_models(fs@), id@),
{
    let mut j: usize = 0;
    while j < fs.len()
        invariant
            j <= fs@.len(),
            forall|k: int| 0 <= k < j ==> (#[trigger] fs@[k]).id@ != id@,
        decreases fs@.len() - j,
    {
        if str_eq(fs[j].id.as_str(), id) {
            assert(finding_models(fs@)[j as int].id == id@);
            return true;
        }
        j = j + 1;
    }
    assert forall|k: int| 0 <= k < finding_models(fs@).len() implies (#[trigger] finding_models(fs@)[k]).id != id@ by {
        assert(finding_models(fs@)[k] == fs@[k]@);
    }
    false
}

fn contains_text(v: &Vec<String>, s: &str) -> (r: bool)
    ensures
        r == views(v@).contains(s@),
{
    let mut j: usize = 0;
    while j < v.len()
        invariant
            j <= v@.len(),
            forall|k: int| 0 <= k < j ==> (#[trigger] v@[k])@ != s@,
        decreases v@.len() - j,
    {
        if str_eq(v[j].as_str(), s) {
            assert(views(v@)[j as int] == s@);
            return true;
        }
        j = j + 1;
    }
    assert forall|k: int| 0 <= k < views(v@).len() implies (#[trigger] views(v@)[k]) != s@ by {
        assert(views(v@)[k] == v@[k]@);
    }
    false
}

fn absorb_impact(p: &mut PackageClassification, upstream: &str, level: DetectionLevel, location: &str)
    ensures
        final(p)@ == absorbed(old(p)@, upstream@, level, location@),
{
    let finding = dependency_finding_of(upstream, level, location);
    let fid = finding.id.clone();
    let raise = p.decision.proposed_changeset_bump == BumpSeverity::NoBump;
    let ghost old_findings = p.findings@;
    if !has_finding_with_id(&p.findings, fid.as_str()) {
        p.findings.push(finding);
        assert(finding_models(p.findings@) =~= finding_models(old_findings).push(dependency_finding(upstream@, level, location@)));
    }
    let ghost old_ids = p.decision.finding_ids@;
    if raise {
        p.decision.compatibility_impact = CompatibilityImpact::Compatible;
        p.decision.proposed_changeset_bump = BumpSeverity::Patch;
        p.decision.confidence = ClassificationConfidence::Medium;
        let mut ids: Vec<String> = Vec::new();
        ids.push(fid);
        p.decision.finding_ids = ids;
        assert(views(p.decision.finding_ids@) =~= seq![dependency_finding_id(upstream@)]);
        p.recommendation = BumpSeverity::Patch;
        p.summary = dependent_summary_of(upstream);
    } else if p.decision.proposed_changeset_bump == BumpSeverity::Patch && !contains_text(&p.decision.finding_ids, fid.as_str()) {
        p.decision.finding_ids.push(fid);
        assert(views(p.decision.finding_ids@) =~= views(old_ids).push(dependency_finding_id(upstream@)));
    }
    if p.decision.release_floor.rank() < 1 {
        p.decision.release_floor = BumpSeverity::Patch;
    }
    p.decision.completeness = AnalysisCompleteness::Partial;
    p.decision.review_required = true;
    p.action = changeset_action(&p.decision, p.existing_changesets.as_slice());
    assert(p.decision@ == absorbed_decision(old(p).decision@, dependency_finding_id(upstream@)));
}

fn new_dependent_package(imp: &PublicDependencyImpact, level: DetectionLevel) -> (r: PackageClassification)
    ensures
        r@ == new_dependent(*imp, level),
{
    let finding = dependency_finding_of(imp.upstream_name.as_str(), level, imp.dependent.location.as_str());
    let mut ids: Vec<String> = Vec::new();
    ids.push(finding.id.clone());
    let mut findings: Vec<ClassificationFinding> = Vec::new();
    findings.push(finding);
    let r = PackageClassification {
        package_id: preferred_report_package_id(&imp.dependent),
        package_name: imp.dependent.name.clone(),
        ecosystem: imp.dependent.ecosystem,
        release_owner: None,
        comparisons: Vec::new(),
        recommendation: BumpSeverity::Patch,
        decision: ChangeRecommendation {
            compatibility_impact: CompatibilityImpact::Compatible,
            proposed_changeset_bump: BumpSeverity::Patch,
            enforceable_minimum: BumpSeverity::NoBump,
            release_floor: BumpSeverity::Patch,
            confidence: ClassificationConfidence::Medium,
            completeness: AnalysisCompleteness::Partial,
            review_required: true,
            finding_ids: ids,
        },
        summary: dependent_summary_of(imp.upstream_name.as_str()),
        findings,
        existing_changesets: Vec::new(),
        action: ChangesetAction::Create,
        warnings: Vec::new(),
    };
    assert(r@.decision.finding_ids =~= seq![dependency_finding_id(imp.upstream_name@)]);
    assert(r@.findings =~= seq![dependency_finding(imp.upstream_name@, level, imp.dependent.location@)]);
    assert(r@.comparisons =~= seq![]);
    assert(r@.existing_changesets =~= seq![]);
    assert(r@.warnings =~= seq![]);
    r
}

proof fn lemma_index_of_package(ps: Seq<PackageModel>, id: Seq<char>, k: int)
    requires
        0 <= k <= ps.len(),
        forall|j: int| 0 <= j < k ==> (#[trigger] ps[j]).package_id != id,
    ensures
        k < ps.len() && ps[k].package_id == id ==> index_of_package(ps, id) == k,
        k == ps.len() ==> index_of_package(ps, id) == -1,
    decreases ps.len(),
{
    if ps.len() > 0 && k > 0 {
        let t = ps.drop_first();
        assert forall|j: int| 0 <= j < k - 1 implies (#[trigger] t[j]).package_id != id by {
            assert(t[j] == ps[j + 1]);
        }
        assert(ps[0].package_id != id);
        lemma_index_of_package(t, id, k - 1);
        if k < ps.len() {
            assert(t[k - 1] == ps[k]);
        }
    }
}

fn package_position(packages: &Vec<PackageClassification>, id: &str) -> (r: Option<usize>)
    ensures
        match r {
            Some(k) => k < packages@.len() && index_of_package(package_models(packages@), id@) == k,
            None => index_of_package(package_models(packages@), id@) == -1,
        },
{
    let ghost ms = package_models(packages@);
    let mut k: usize = 0;
    while k < packages.len()
        invariant
            k <= packages@.len(),
            ms == package_models(packages@),
            forall|j: int| 0 <= j < k ==> (#[trigger] ms[j]).package_id != id@,
        decreases packages@.len() - k,
    {
        if str_eq(packages[k].package_id.as_str(), id) {
            proof {
                lemma_index_of_package(ms, id@, k as int);
            }
            return Some(k);
        }
        k = k + 1;
    }
    proof {
        lemma_index_of_package(ms, id@, k as int);
    }
    None
}

/// Raises the packages that depend at run time on a package with a minor or
/// major change: each impact (see `public_dependency_impacts`) adds its
/// finding to the dependent's classification, or a new classification when
/// the report had none for it, and the overall recommendation rises to at
/// least that package's. The packages end ordered by package id.
pub fn propagate_public_dependency_impacts(
    analyses: &[AnalyzedPackage],
    dependents: &[DependentPackage],
    edges: &[DependencyLink],
    detection_level: DetectionLevel,
    packages: &mut Vec<PackageClassification>,
    recommendation: &mut BumpSeverity,
)
    ensures
        ({
            let r = propagate_impacts(
                package_models(old(packages)@),
                *old(recommendation),
                public_impacts(analyses@, dependents@, edges@),
                detection_level,
            );
            &&& package_models(final(packages)@) == stably_sorted(model_key(), r.0)
            &&& *final(recommendation) == r.1
        }),
{
    let impacts = public_dependency_impacts(analyses, dependents, edges);
    let ghost start = package_models(packages@);
    let ghost rec0 = *recommendation;
    let mut i: usize = 0;
    while i < impacts.len()
        invariant
            i <= impacts@.len(),
            (package_models(packages@), *recommendation) == propagate_impacts(
                start,
                rec0,
                impacts@.take(i as int),
                detection_level,
            ),
        decreases impacts@.len() - i,
    {
        proof {
            assert(impacts@.take(i + 1).drop_last() =~= impacts@.take(i as int));
            assert(impacts@.take(i + 1).last() == impacts@[i as int]);
        }
        let imp = &impacts[i];
        let id = preferred_report_package_id(&imp.dependent);
        let ghost before = packages@;
        match package_position(packages, id.as_str()) {
            Some(k) => {
                let mut p = packages.remove(k);
                absorb_impact(&mut p, imp.upstream_name.as_str(), detection_level, imp.dependent.location.as_str());
                if p.recommendation.rank() >= recommendation.rank() {
                    *recommendation = p.recommendation;
                }
                packages.insert(k, p);
                assert(package_models(packages@) =~= package_models(before).update(k as int, packages@[k as int]@));
            },
            None => {
                let p = new_dependent_package(imp, detection_level);
                packages.push(p);
                if 1 >= recommendation.rank() {
                    *recommendation = BumpSeverity::Patch;
                }
                assert(package_models(packages@) =~= package_models(before).push(packages@.last()@));
            },
        }
        i = i + 1;
    }
    assert(impacts@.take(impacts@.len() as int) =~= impacts@);
    let mut taken: Vec<PackageClassification> = Vec::new();
    std::mem::swap(&mut taken, packages);
    let ghost mid = taken@;
    *packages = sort_by_text_key(taken);
    proof {
        let f = |p: PackageClassification| p@;
        lemma_stably_sorted_map(key_of::<PackageClassification>(), model_key(), f, mid);
        assert(package_models(mid) == mid.map_values(f));
    }
}

proof fn lemma_index_of_package_found(ps: Seq<PackageModel>, id: Seq<char>)
    ensures
        index_of_package(ps, id) >= 0 ==> index_of_package(ps, id) < ps.len() && ps[index_of_package(ps, id)].package_id == id,
    decreases ps.len(),
{
    if ps.len() > 0 && ps[0].package_id != id {
        lemma_index_of_package_found(ps.drop_first(), id);
    }
}

/// A package recommends the bump its decision proposes.
pub open spec fn recommends_its_decision(p: PackageModel) -> bool {
    p.recommendation == p.decision.proposed_changeset_bump
}

proof fn lemma_step_keeps(state: (Seq<PackageModel>, BumpSeverity), imp: PublicDependencyImpact, level: DetectionLevel)
    requires
        forall|i: int| 0 <= i < state.0.len() ==> recommends_its_decision(#[trigger] state.0[i]),
    ensures
        forall|i: int| 0 <= i < propagate_impact(state, imp, level).0.len()
            ==> recommends_its_decision(#[trigger] propagate_impact(state, imp, level).0[i]),
        ({
            let r = propagate_impact(state, imp, level);
            &&& r.0.len() >= state.0.len()
            &&& forall|i: int| 0 <= i < state.0.len() ==> (#[trigger] r.0[i]).package_id == state.0[i].package_id
                && bump_rank(r.0[i].decision.proposed_changeset_bump) >= bump_rank(state.0[i].decision.proposed_changeset_bump)
            &&& bump_rank(r.1) >= bump_rank(state.1)
            &&& bump_rank(r.1) >= 1
            &&& exists|i: int| 0 <= i < r.0.len() && (#[trigger] r.0[i]).package_id == report_id(imp.dependent)
                && bump_rank(r.0[i].decision.proposed_changeset_bump) >= 1
        }),
{
    let ps = state.0;
    let id = report_id(imp.dependent);
    let k = index_of_package(ps, id);
    lemma_index_of_package_found(ps, id);
    let r = propagate_impact(state, imp, level);
    if k >= 0 {
        assert(r.0[k].package_id == id);
        assert(recommends_its_decision(ps[k]));
    } else {
        assert(r.0[ps.len() as int].package_id == id);
    }
}

proof fn lemma_propagation_keeps(ps: Seq<PackageModel>, rec: BumpSeverity, imps: Seq<PublicDependencyImpact>, level: DetectionLevel)
    requires
        forall|i: int| 0 <= i < ps.len() ==> recommends_its_decision(#[trigger] ps[i]),
    ensures
        forall|i: int| 0 <= i < propagate_impacts(ps, rec, imps, level).0.len()
            ==> recommends_its_decision(#[trigger] propagate_impacts(ps, rec, imps, level).0[i]),
        ({
            let r = propagate_impacts(ps, rec, imps, level);
            &&& r.0.len() >= ps.len()
            &&& forall|i: int| 0 <= i < ps.len() ==> (#[trigger] r.0[i]).package_id == ps[i].package_id
                && bump_rank(r.0[i].decision.proposed_changeset_bump) >= bump_rank(ps[i].decision.proposed_changeset_bump)
            &&& bump_rank(r.1) >= bump_rank(rec)
            &&& imps.len() > 0 ==> bump_rank(r.1) >= 1
            &&& forall|k: int| 0 <= k < imps.len() ==> exists|i: int| 0 <= i < r.0.len()
                && (#[trigger] r.0[i]).package_id == report_id((#[trigger] imps[k]).dependent)
                && bump_rank(r.0[i].decision.proposed_changeset_bump) >= 1
        }),
    decreases imps.len(),
{
    if imps.len() > 0 {
        let prev = propagate_impacts(ps, rec, imps.drop_last(), level);
        lemma_propagation_keeps(ps, rec, imps.drop_last(), level);
        lemma_step_keeps(prev, imps.last(), level);
        let r = propagate_impacts(ps, rec, imps, level);
        assert forall|k: int| 0 <= k < imps.len() implies exists|i: int| 0 <= i < r.0.len()
            && (#[trigger] r.0[i]).package_id == report_id((#[trigger] imps[k]).dependent)
            && bump_rank(r.0[i].decision.proposed_changeset_bump) >= 1 by {
            if k < imps.len() - 1 {
                assert(imps.drop_last()[k] == imps[k]);
                let i = choose|i: int| 0 <= i < prev.0.len() && (#[trigger] prev.0[i]).package_id == report_id(imps.drop_last()[k].dependent)
                    && bump_rank(prev.0[i].decision.proposed_changeset_bump) >= 1;
                assert(r.0[i].package_id == prev.0[i].package_id);
            }
        }
    }
}

/// Of packages that each recommend the bump their decision proposes,
/// propagation keeps every package, never lowers a package's proposed bump
/// or the overall recommendation, and leaves every runtime dependent of a
/// package with a minor or major change with at least a patch proposed (and
/// the overall recommendation at least a patch); every package still
/// recommends its proposed bump, and the packages end ordered by package id.
pub proof fn lemma_dependents_become_releasable(
    ps: Seq<PackageModel>,
    rec: BumpSeverity,
    imps: Seq<PublicDependencyImpact>,
    level: DetectionLevel,
)
    requires
        forall|i: int| 0 <= i < ps.len() ==> recommends_its_decision(#[trigger] ps[i]),
    ensures
        forall|m: PackageModel| stably_sorted(model_key(), propagate_impacts(ps, rec, imps, level).0).contains(m)
            ==> recommends_its_decision(m),
        ({
            let r = propagate_impacts(ps, rec, imps, level);
            let out = stably_sorted(model_key(), r.0);
            &&& crate::keyed_sort::key_ordered(model_key(), out)
            &&& out.len() >= ps.len()
            &&& forall|i: int| 0 <= i < ps.len() ==> out.contains(#[trigger] r.0[i]) && r.0[i].package_id == ps[i].package_id
                && bump_rank(r.0[i].decision.proposed_changeset_bump) >= bump_rank(ps[i].decision.proposed_changeset_bump)
            &&& bump_rank(r.1) >= bump_rank(rec)
            &&& imps.len() > 0 ==> bump_rank(r.1) >= 1
            &&& forall|k: int| 0 <= k < imps.len() ==> exists|m: PackageModel| out.contains(m)
                && m.package_id == report_id((#[trigger] imps[k]).dependent)
                && bump_rank(m.decision.proposed_changeset_bump) >= 1
        }),
{
    broadcast use vstd::seq_lib::to_multiset_contains;

    let r = propagate_impacts(ps, rec, imps, level);
    let out = stably_sorted(model_key(), r.0);
    lemma_propagation_keeps(ps, rec, imps, level);
    crate::keyed_sort::lemma_stably_sorted_ordered(model_key(), r.0);
    crate::keyed_sort::lemma_stably_sorted_permutes(model_key(), r.0);
    assert forall|i: int| 0 <= i < r.0.len() implies out.contains(#[trigger] r.0[i]) by {
        assert(r.0.contains(r.0[i]));
        assert(r.0.to_multiset().contains(r.0[i]));
    }
    assert forall|m: PackageModel| out.contains(m) implies recommends_its_decision(m) by {
        assert(out.to_multiset().contains(m));
        assert(r.0.contains(m));
    }
    assert forall|k: int| 0 <= k < imps.len() implies exists|m: PackageModel| out.contains(m)
        && m.package_id == report_id((#[trigger] imps[k]).dependent)
        && bump_rank(m.decision.proposed_changeset_bump) >= 1 by {
        let i = choose|i: int| 0 <= i < r.0.len() && (#[trigger] r.0[i]).package_id == report_id(imps[k].dependent)
            && bump_rank(r.0[i].decision.proposed_changeset_bump) >= 1;
        assert(out.contains(r.0[i]));
    }
}

/// The public dependency impacts name each dependent and upstream package
/// once, ordered by dependent report id and then upstream name, and each is
/// an impact of one of the edges.
pub proof fn lemma_impacts_sorted_and_distinct(
    analyses: Seq<AnalyzedPackage>,
    packages: Seq<DependentPackage>,
    edges: Seq<DependencyLink>,
)
    ensures
        ({
            let r = public_impacts(analyses, packages, edges);
            &&& forall|i: int, j: int| 0 <= i < j < r.len() ==> key_lt(
                (#[trigger] r[i]).text_key(),
                (#[trigger] r[j]).text_key(),
            )
            &&& forall|i: int| 0 <= i < r.len() ==> edge_impacts(analyses, packages, edges).contains(#[trigger] r[i])
        }),
{
    broadcast use vstd::seq_lib::to_multiset_contains;

    let raw = edge_impacts(analyses, packages, edges);
    let key = key_of::<PublicDependencyImpact>();
    let sorted = stably_sorted(key, raw);
    lemma_stably_sorted_ordered(key, raw);
    lemma_stably_sorted_permutes(key, raw);
    lemma_dedup_strictly_increasing(key, sorted);
    let r = dedup_keys(key, sorted);
    assert forall|i: int| 0 <= i < r.len() implies raw.contains(#[trigger] r[i]) by {
        assert(sorted.contains(r[i]));
        assert(sorted.to_multiset().contains(r[i]));
    }
}

} // verus!
