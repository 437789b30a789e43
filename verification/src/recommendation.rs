use vstd::prelude::*;

use crate::classify::{
    AnalysisCompleteness, BumpSeverity, ChangesetAction, ClassificationConfidence, ComparisonKind,
    CompatibilityImpact, DetectionLevel, bump_name, bump_of_rank, bump_rank, confidence_of_rank,
    confidence_rank,
};
use crate::assessment::{assessment_key, assessment_key_text, SemanticChangeAssessment};
use crate::fnv::{fnv_fold, fnv_offset_basis, fnv_step, update_input_fingerprint_hash};
use crate::text::{decimal, push_decimal, views};

verus! {

broadcast use vstd::string::group_string_axioms;

/// The analyzer that produced a finding.
pub struct FindingAnalyzer {
    pub id: String,
    /// The engine the analyzer ran, when it names one.
    pub engine: Option<String>,
    pub version: String,
}

/// What the analysis behind a finding covered.
pub struct FindingCoverage {
    pub detection_level: DetectionLevel,
    pub completeness: AnalysisCompleteness,
    pub note: String,
    /// Why the analyzer fell back to a weaker analysis, if it did.
    pub fallback_reason: Option<String>,
}

/// One compatibility finding of a package, with the comparisons that showed it.
pub struct ClassificationFinding {
    pub id: String,
    pub rule_id: String,
    pub surface: String,
    pub change: String,
    pub impact: CompatibilityImpact,
    pub bump: BumpSeverity,
    pub confidence: ClassificationConfidence,
    pub analyzer: FindingAnalyzer,
    pub coverage: FindingCoverage,
    pub before: Option<String>,
    pub after: Option<String>,
    pub location: String,
    pub comparisons: Vec<ComparisonKind>,
    pub summary: String,
}

/// The changeset a package should carry, decided from its findings.
pub struct ChangeRecommendation {
    pub compatibility_impact: CompatibilityImpact,
    pub proposed_changeset_bump: BumpSeverity,
    pub enforceable_minimum: BumpSeverity,
    pub release_floor: BumpSeverity,
    pub confidence: ClassificationConfidence,
    pub completeness: AnalysisCompleteness,
    pub review_required: bool,
    pub finding_ids: Vec<String>,
}

/// The text of an optional string.
pub open spec fn opt_text(o: Option<String>) -> Option<Seq<char>> {
    match o {
        Some(s) => Some(s@),
        None => None,
    }
}

/// A finding as a mathematical value.
pub struct FindingModel {
    pub id: Seq<char>,
    pub rule_id: Seq<char>,
    pub surface: Seq<char>,
    pub change: Seq<char>,
    pub impact: CompatibilityImpact,
    pub bump: BumpSeverity,
    pub confidence: ClassificationConfidence,
    pub analyzer_id: Seq<char>,
    pub analyzer_engine: Option<Seq<char>>,
    pub analyzer_version: Seq<char>,
    pub detection_level: DetectionLevel,
    pub completeness: AnalysisCompleteness,
    pub note: Seq<char>,
    pub fallback_reason: Option<Seq<char>>,
    pub before: Option<Seq<char>>,
    pub after: Option<Seq<char>>,
    pub location: Seq<char>,
    pub comparisons: Seq<ComparisonKind>,
    pub summary: Seq<char>,
}

impl View for ClassificationFinding {
    type V = FindingModel;

    open spec fn view(&self) -> FindingModel {
        FindingModel {
            id: self.id@,
            rule_id: self.rule_id@,
            surface: self.surface@,
            change: self.change@,
            impact: self.impact,
            bump: self.bump,
            confidence: self.confidence,
            analyzer_id: self.analyzer.id@,
            analyzer_engine: opt_text(self.analyzer.engine),
            analyzer_version: self.analyzer.version@,
            detection_level: self.coverage.detection_level,
            completeness: self.coverage.completeness,
            note: self.coverage.note@,
            fallback_reason: opt_text(self.coverage.fallback_reason),
            before: opt_text(self.before),
            after: opt_text(self.after),
            location: self.location@,
            comparisons: self.comparisons@,
            summary: self.summary@,
        }
    }
}

/// The views of a list of findings.
pub open spec fn finding_models(fs: Seq<ClassificationFinding>) -> Seq<FindingModel> {
    fs.map_values(|f: ClassificationFinding| f@)
}

/// A recommendation as a mathematical value.
pub struct DecisionModel {
    pub compatibility_impact: CompatibilityImpact,
    pub proposed_changeset_bump: BumpSeverity,
    pub enforceable_minimum: BumpSeverity,
    pub release_floor: BumpSeverity,
    pub confidence: ClassificationConfidence,
    pub completeness: AnalysisCompleteness,
    pub review_required: bool,
    pub finding_ids: Seq<Seq<char>>,
}

impl View for ChangeRecommendation {
    type V = DecisionModel;

    open spec fn view(&self) -> DecisionModel {
        DecisionModel {
            compatibility_impact: self.compatibility_impact,
            proposed_changeset_bump: self.proposed_changeset_bump,
            enforceable_minimum: self.enforceable_minimum,
            release_floor: self.release_floor,
            confidence: self.confidence,
            completeness: self.completeness,
            review_required: self.review_required,
            finding_ids: views(self.finding_ids@),
        }
    }
}

/// A changeset that is already pending for a package.
pub struct ExistingChangeset {
    pub path: String,
    pub bump: Option<BumpSeverity>,
    pub change_type: Option<String>,
}

/// The finding was seen in the pull-request comparison.
pub open spec fn in_pr(f: ClassificationFinding) -> bool {
    f.comparisons@.contains(ComparisonKind::PullRequest)
}

/// The finding was seen in the comparison against the latest release.
pub open spec fn in_release(f: ClassificationFinding) -> bool {
    f.comparisons@.contains(ComparisonKind::Release)
}

/// Highest bump rank of the pull-request findings (0 when there is none).
pub open spec fn pr_bump(fs: Seq<ClassificationFinding>) -> nat
    decreases fs.len(),
{
    if fs.len() == 0 {
        0
    } else {
        let rest = pr_bump(fs.drop_last());
        let f = fs.last();
        if in_pr(f) && bump_rank(f.bump) > rest { bump_rank(f.bump) } else { rest }
    }
}

/// Highest bump rank of the high-confidence pull-request findings.
pub open spec fn pr_high_bump(fs: Seq<ClassificationFinding>) -> nat
    decreases fs.len(),
{
    if fs.len() == 0 {
        0
    } else {
        let rest = pr_high_bump(fs.drop_last());
        let f = fs.last();
        if in_pr(f) && f.confidence == ClassificationConfidence::High && bump_rank(f.bump) > rest {
            bump_rank(f.bump)
        } else {
            rest
        }
    }
}

/// Highest bump rank of the findings against the latest release.
pub open spec fn release_bump(fs: Seq<ClassificationFinding>) -> nat
    decreases fs.len(),
{
    if fs.len() == 0 {
        0
    } else {
        let rest = release_bump(fs.drop_last());
        let f = fs.last();
        if in_release(f) && bump_rank(f.bump) > rest { bump_rank(f.bump) } else { rest }
    }
}

/// Highest confidence rank of the pull-request findings with bump `b`.
pub open spec fn pr_confidence_at(fs: Seq<ClassificationFinding>, b: BumpSeverity) -> nat
    decreases fs.len(),
{
    if fs.len() == 0 {
        0
    } else {
        let rest = pr_confidence_at(fs.drop_last(), b);
        let f = fs.last();
        if in_pr(f) && f.bump == b && confidence_rank(f.confidence) > rest {
            confidence_rank(f.confidence)
        } else {
            rest
        }
    }
}

/// The ids of the pull-request findings with bump `b`, in order.
pub open spec fn pr_ids_at(fs: Seq<ClassificationFinding>, b: BumpSeverity) -> Seq<Seq<char>>
    decreases fs.len(),
{
    if fs.len() == 0 {
        seq![]
    } else {
        let rest = pr_ids_at(fs.drop_last(), b);
        let f = fs.last();
        if in_pr(f) && f.bump == b { rest.push(f.id@) } else { rest }
    }
}

/// Some pull-request finding has bump `b`.
pub open spec fn pr_has_bump(fs: Seq<ClassificationFinding>, b: BumpSeverity) -> bool {
    exists|i: int| 0 <= i < fs.len() && in_pr(#[trigger] fs[i]) && fs[i].bump == b
}

/// Some finding chosen by `pr_only` (all findings when it is false) has impact `imp`.
pub open spec fn has_impact(fs: Seq<ClassificationFinding>, imp: CompatibilityImpact, pr_only: bool) -> bool {
    exists|i: int| 0 <= i < fs.len() && (!pr_only || in_pr(#[trigger] fs[i])) && fs[i].impact == imp
}

/// A major, high-confidence, completely covered pull-request finding.
pub open spec fn conclusive_major(fs: Seq<ClassificationFinding>) -> bool {
    exists|i: int|
        0 <= i < fs.len() && in_pr(#[trigger] fs[i]) && fs[i].bump == BumpSeverity::Major
            && fs[i].confidence == ClassificationConfidence::High
            && fs[i].coverage.completeness == AnalysisCompleteness::Complete
}

/// Some pull-request finding exists, and every one is of high confidence and
/// complete coverage (as an analyzer's complete assessment is).
pub open spec fn all_pr_conclusive(fs: Seq<ClassificationFinding>) -> bool {
    &&& exists|i: int| 0 <= i < fs.len() && in_pr(#[trigger] fs[i])
    &&& forall|i: int| 0 <= i < fs.len() && in_pr(#[trigger] fs[i]) ==> fs[i].confidence == ClassificationConfidence::High
        && fs[i].coverage.completeness == AnalysisCompleteness::Complete
}

/// The highest impact among the chosen findings: breaking, then additive, then
/// unknown; compatible when none of those occurs.
pub open spec fn highest_impact(fs: Seq<ClassificationFinding>, pr_only: bool) -> CompatibilityImpact {
    if has_impact(fs, CompatibilityImpact::Breaking, pr_only) {
        CompatibilityImpact::Breaking
    } else if has_impact(fs, CompatibilityImpact::Additive, pr_only) {
        CompatibilityImpact::Additive
    } else if has_impact(fs, CompatibilityImpact::Unknown, pr_only) {
        CompatibilityImpact::Unknown
    } else {
        CompatibilityImpact::Compatible
    }
}

/// The recommendation that the findings of a package call for.
///
/// The pull-request findings decide the proposed bump (their highest bump),
/// the enforceable minimum (the highest bump of the high-confidence ones),
/// the impact, the confidence (the highest among those at the proposed bump,
/// `High` when there is none) and the finding ids (those at the proposed bump).
/// The release floor adds the release findings when a release exists. The
/// analysis is complete when nothing changed or a conclusive major finding
/// exists, and review is required unless it is complete with a known impact.
pub open spec fn is_recommendation(
    r: ChangeRecommendation,
    fs: Seq<ClassificationFinding>,
    has_current_changes: bool,
    has_release: bool,
) -> bool {
    let proposed = bump_of_rank(pr_bump(fs));
    let floor = if has_release && release_bump(fs) > pr_bump(fs) { release_bump(fs) } else { pr_bump(fs) };
    let impact = highest_impact(fs, true);
    let completeness = if !has_current_changes || conclusive_major(fs) || all_pr_conclusive(fs) {
        AnalysisCompleteness::Complete
    } else {
        AnalysisCompleteness::Partial
    };
    &&& r.proposed_changeset_bump == proposed
    &&& r.enforceable_minimum == bump_of_rank(pr_high_bump(fs))
    &&& r.release_floor == bump_of_rank(floor)
    &&& r.compatibility_impact == impact
    &&& r.confidence == (if pr_has_bump(fs, proposed) {
        confidence_of_rank(pr_confidence_at(fs, proposed))
    } else {
        ClassificationConfidence::High
    })
    &&& r.completeness == completeness
    &&& r.review_required == (completeness != AnalysisCompleteness::Complete
        || impact == CompatibilityImpact::Unknown)
    &&& views(r.finding_ids@) == pr_ids_at(fs, proposed)
}

/// Whether `v` holds `k`.
pub fn has_comparison(v: &Vec<ComparisonKind>, k: ComparisonKind) -> (r: bool)
    ensures
        r == v@.contains(k),
{
    let mut i: usize = 0;
    while i < v.len()
        invariant
            i <= v@.len(),
            forall|j: int| 0 <= j < i ==> v@[j] != k,
        decreases v@.len() - i,
    {
        if v[i] == k {
            return true;
        }
        i = i + 1;
    }
    false
}

pub proof fn lemma_pr_bump_bounded(fs: Seq<ClassificationFinding>)
    ensures
        pr_bump(fs) <= 3,
        pr_high_bump(fs) <= 3,
        release_bump(fs) <= 3,
        pr_bump(fs) > 0 ==> pr_has_bump(fs, bump_of_rank(pr_bump(fs))),
        forall|i: int| 0 <= i < fs.len() && in_pr(#[trigger] fs[i]) ==> bump_rank(fs[i].bump) <= pr_bump(fs),
    decreases fs.len(),
{
    if fs.len() > 0 {
        let init = fs.drop_last();
        lemma_pr_bump_bounded(init);
        assert forall|i: int| 0 <= i < fs.len() && in_pr(#[trigger] fs[i]) implies bump_rank(fs[i].bump) <= pr_bump(fs) by {
            if i < fs.len() - 1 {
                assert(init[i] == fs[i]);
            }
        }
        if pr_bump(fs) > 0 {
            if in_pr(fs.last()) && bump_rank(fs.last().bump) > pr_bump(init) {
                assert(in_pr(fs[fs.len() - 1]));
            } else {
                let w = choose|i: int| 0 <= i < init.len() && in_pr(#[trigger] init[i]) && init[i].bump == bump_of_rank(pr_bump(init));
                assert(fs[w] == init[w]);
            }
        }
    }
}

/// The first pass: the highest bumps and the impacts of the findings.
fn scan_bumps(findings: &[ClassificationFinding]) -> (r: (u8, u8, u8, bool, bool, bool, bool))
    ensures
        r.0 as nat == pr_bump(findings@),
        r.1 as nat == pr_high_bump(findings@),
        r.2 as nat == release_bump(findings@),
        r.3 == has_impact(findings@, CompatibilityImpact::Breaking, true),
        r.4 == has_impact(findings@, CompatibilityImpact::Additive, true),
        r.5 == has_impact(findings@, CompatibilityImpact::Unknown, true),
        r.6 == conclusive_major(findings@),
{
    let mut pr: u8 = 0;
    let mut high: u8 = 0;
    let mut rel: u8 = 0;
    let mut breaking = false;
    let mut additive = false;
    let mut unknown = false;
    let mut major = false;
    let mut i: usize = 0;
    while i < findings.len()
        invariant
            i <= findings@.len(),
            pr as nat == pr_bump(findings@.take(i as int)),
            high as nat == pr_high_bump(findings@.take(i as int)),
            rel as nat == release_bump(findings@.take(i as int)),
            breaking == has_impact(findings@.take(i as int), CompatibilityImpact::Breaking, true),
            additive == has_impact(findings@.take(i as int), CompatibilityImpact::Additive, true),
            unknown == has_impact(findings@.take(i as int), CompatibilityImpact::Unknown, true),
            major == conclusive_major(findings@.take(i as int)),
        decreases findings@.len() - i,
    {
        let ghost before = findings@.take(i as int);
        let ghost after = findings@.take(i + 1);
        proof {
            assert(after.drop_last() =~= before);
            assert(after.last() == findings@[i as int]);
            lemma_pr_bump_bounded(before);
        }
        let f = &findings[i];
        let pr_here = has_comparison(&f.comparisons, ComparisonKind::PullRequest);
        let rel_here = has_comparison(&f.comparisons, ComparisonKind::Release);
        let b = f.bump.rank();
        if pr_here && b > pr {
            pr = b;
        }
        if pr_here && f.confidence == ClassificationConfidence::High && b > high {
            high = b;
        }
        if rel_here && b > rel {
            rel = b;
        }
        if pr_here && f.impact == CompatibilityImpact::Breaking {
            breaking = true;
        }
        if pr_here && f.impact == CompatibilityImpact::Additive {
            additive = true;
        }
        if pr_here && f.impact == CompatibilityImpact::Unknown {
            unknown = true;
        }
        if pr_here && f.bump == BumpSeverity::Major && f.confidence == ClassificationConfidence::High
            && f.coverage.completeness == AnalysisCompleteness::Complete {
            major = true;
        }
        proof {
            assert forall|imp: CompatibilityImpact| #![auto]
                has_impact(after, imp, true) == (has_impact(before, imp, true) || (in_pr(after.last()) && after.last().impact == imp)) by {
                if has_impact(after, imp, true) {
                    let w = choose|j: int| 0 <= j < after.len() && (!true || in_pr(#[trigger] after[j])) && after[j].impact == imp;
                    if w < before.len() {
                        assert(before[w] == after[w]);
                    }
                }
                if has_impact(before, imp, true) {
                    let w = choose|j: int| 0 <= j < before.len() && (!true || in_pr(#[trigger] before[j])) && before[j].impact == imp;
                    assert(before[w] == after[w]);
                }
                if in_pr(after.last()) && after.last().impact == imp {
                    assert(in_pr(after[after.len() - 1]));
                }
            }
            if conclusive_major(after) {
                let w = choose|j: int|
                    0 <= j < after.len() && in_pr(#[trigger] after[j]) && after[j].bump == BumpSeverity::Major
                        && after[j].confidence == ClassificationConfidence::High
                        && after[j].coverage.completeness == AnalysisCompleteness::Complete;
                if w < before.len() {
                    assert(before[w] == after[w]);
                }
            }
            if conclusive_major(before) {
                let w = choose|j: int|
                    0 <= j < before.len() && in_pr(#[trigger] before[j]) && before[j].bump == BumpSeverity::Major
                        && before[j].confidence == ClassificationConfidence::High
                        && before[j].coverage.completeness == AnalysisCompleteness::Complete;
                assert(before[w] == after[w]);
            }
            if major && !conclusive_major(before) {
                assert(in_pr(after[after.len() - 1]));
            }
        }
        i = i + 1;
    }
    assert(findings@.take(findings@.len() as int) =~= findings@);
    (pr, high, rel, breaking, additive, unknown, major)
}

/// The second pass: the confidence and the ids of the findings at the proposed bump.
fn scan_at(findings: &[ClassificationFinding], proposed: BumpSeverity) -> (r: (u8, bool, Vec<String>))
    ensures
        r.0 as nat == pr_confidence_at(findings@, proposed),
        r.1 == pr_has_bump(findings@, proposed),
        views(r.2@) == pr_ids_at(findings@, proposed),
{
    let mut conf: u8 = 0;
    let mut any = false;
    let mut ids: Vec<String> = Vec::new();
    let mut i: usize = 0;
    while i < findings.len()
        invariant
            i <= findings@.len(),
            conf as nat == pr_confidence_at(findings@.take(i as int), proposed),
            conf <= 2,
            any == pr_has_bump(findings@.take(i as int), proposed),
            views(ids@) == pr_ids_at(findings@.take(i as int), proposed),
        decreases findings@.len() - i,
    {
        let ghost before = findings@.take(i as int);
        let ghost after = findings@.take(i + 1);
        proof {
            assert(after.drop_last() =~= before);
            assert(after.last() == findings@[i as int]);
        }
        let f = &findings[i];
        let pr_here = has_comparison(&f.comparisons, ComparisonKind::PullRequest);
        if pr_here && f.bump == proposed {
            let c: u8 = match f.confidence {
                ClassificationConfidence::Low => 0,
                ClassificationConfidence::Medium => 1,
                ClassificationConfidence::High => 2,
            };
            if c > conf {
                conf = c;
            }
            any = true;
            let ghost old_ids = ids@;
            ids.push(f.id.clone());
            assert(views(ids@) =~= views(old_ids).push(f.id@));
            assert(in_pr(after[after.len() - 1]));
        }
        proof {
            if pr_has_bump(after, proposed) {
                let w = choose|j: int| 0 <= j < after.len() && in_pr(#[trigger] after[j]) && after[j].bump == proposed;
                if w < before.len() {
                    assert(before[w] == after[w]);
                }
            }
            if pr_has_bump(before, proposed) {
                let w = choose|j: int| 0 <= j < before.len() && in_pr(#[trigger] before[j]) && before[j].bump == proposed;
                assert(before[w] == after[w]);
            }
        }
        i = i + 1;
    }
    assert(findings@.take(findings@.len() as int) =~= findings@);
    (conf, any, ids)
}

/// Whether every pull-request finding (and at least one) is of high
/// confidence and complete coverage.
fn all_pr_findings_conclusive(findings: &[ClassificationFinding]) -> (r: bool)
    ensures
        r == all_pr_conclusive(findings@),
{
    let mut any = false;
    let mut i: usize = 0;
    while i < findings.len()
        invariant
            i <= findings@.len(),
            any == exists|j: int| 0 <= j < i && in_pr(#[trigger] findings@[j]),
            forall|j: int| 0 <= j < i && in_pr(#[trigger] findings@[j]) ==> findings@[j].confidence == ClassificationConfidence::High
                && findings@[j].coverage.completeness == AnalysisCompleteness::Complete,
        decreases findings@.len() - i,
    {
        let f = &findings[i];
        if has_comparison(&f.comparisons, ComparisonKind::PullRequest) {
            assert(in_pr(findings@[i as int]));
            if !(f.confidence == ClassificationConfidence::High && f.coverage.completeness == AnalysisCompleteness::Complete) {
                return false;
            }
            any = true;
        }
        i = i + 1;
    }
    any
}

/// Decides the changeset recommendation of a package from its findings.
pub fn build_recommendation(
    findings: &[ClassificationFinding],
    has_current_changes: bool,
    has_release: bool,
) -> (r: ChangeRecommendation)
    ensures
        is_recommendation(r, findings@, has_current_changes, has_release),
{
    let (pr, high, rel, breaking, additive, unknown, major) = scan_bumps(findings);
    proof {
        lemma_pr_bump_bounded(findings@);
    }
    let proposed = BumpSeverity::from_rank(pr);
    let floor_rank: u8 = if has_release && rel > pr { rel } else { pr };
    let impact = if breaking {
        CompatibilityImpact::Breaking
    } else if additive {
        CompatibilityImpact::Additive
    } else if unknown {
        CompatibilityImpact::Unknown
    } else {
        CompatibilityImpact::Compatible
    };
    let (conf, any, ids) = scan_at(findings, proposed);
    let confidence = if any {
        if conf == 0 {
            ClassificationConfidence::Low
        } else if conf == 1 {
            ClassificationConfidence::Medium
        } else {
            ClassificationConfidence::High
        }
    } else {
        ClassificationConfidence::High
    };
    let conclusive = all_pr_findings_conclusive(findings);
    let completeness = if !has_current_changes || major || conclusive {
        AnalysisCompleteness::Complete
    } else {
        AnalysisCompleteness::Partial
    };
    let review_required = completeness != AnalysisCompleteness::Complete
        || impact == CompatibilityImpact::Unknown;
    ChangeRecommendation {
        compatibility_impact: impact,
        proposed_changeset_bump: proposed,
        enforceable_minimum: BumpSeverity::from_rank(high),
        release_floor: BumpSeverity::from_rank(floor_rank),
        confidence,
        completeness,
        review_required,
        finding_ids: ids,
    }
}

/// The highest impact among all the given findings.
pub fn highest_compatibility_impact(findings: &[ClassificationFinding]) -> (r: CompatibilityImpact)
    ensures
        r == highest_impact(findings@, false),
{
    let mut breaking = false;
    let mut additive = false;
    let mut unknown = false;
    let mut i: usize = 0;
    while i < findings.len()
        invariant
            i <= findings@.len(),
            breaking == has_impact(findings@.take(i as int), CompatibilityImpact::Breaking, false),
            additive == has_impact(findings@.take(i as int), CompatibilityImpact::Additive, false),
            unknown == has_impact(findings@.take(i as int), CompatibilityImpact::Unknown, false),
        decreases findings@.len() - i,
    {
        let ghost before = findings@.take(i as int);
        let ghost after = findings@.take(i + 1);
        let imp = findings[i].impact;
        if imp == CompatibilityImpact::Breaking {
            breaking = true;
        } else if imp == CompatibilityImpact::Additive {
            additive = true;
        } else if imp == CompatibilityImpact::Unknown {
            unknown = true;
        }
        proof {
            assert forall|x: CompatibilityImpact| #![auto]
                has_impact(after, x, false) == (has_impact(before, x, false) || imp == x) by {
                if has_impact(after, x, false) {
                    let w = choose|j: int| 0 <= j < after.len() && (!false || in_pr(#[trigger] after[j])) && after[j].impact == x;
                    if w < before.len() {
                        assert(before[w] == after[w]);
                    }
                }
                if has_impact(before, x, false) {
                    let w = choose|j: int| 0 <= j < before.len() && (!false || in_pr(#[trigger] before[j])) && before[j].impact == x;
                    assert(before[w] == after[w]);
                }
                if imp == x {
                    assert(after[i as int] == findings@[i as int]);
                }
            }
        }
        i = i + 1;
    }
    assert(findings@.take(findings@.len() as int) =~= findings@);
    if breaking {
        CompatibilityImpact::Breaking
    } else if additive {
        CompatibilityImpact::Additive
    } else if unknown {
        CompatibilityImpact::Unknown
    } else {
        CompatibilityImpact::Compatible
    }
}

/// Highest bump rank that the pending changesets declare (0 when none declares one).
pub open spec fn declared_bump(es: Seq<ExistingChangeset>) -> nat
    decreases es.len(),
{
    if es.len() == 0 {
        0
    } else {
        let rest = declared_bump(es.drop_last());
        match es.last().bump {
            Some(b) => if bump_rank(b) > rest { bump_rank(b) } else { rest },
            None => rest,
        }
    }
}

pub proof fn lemma_declared_bump_bounded(es: Seq<ExistingChangeset>)
    ensures
        declared_bump(es) <= 3,
    decreases es.len(),
{
    if es.len() > 0 {
        lemma_declared_bump_bounded(es.drop_last());
    }
}

/// The highest bump the pending changesets declare.
pub fn declared_changeset_bump(existing: &[ExistingChangeset]) -> (r: BumpSeverity)
    ensures
        r == bump_of_rank(declared_bump(existing@)),
{
    let mut best: u8 = 0;
    let mut i: usize = 0;
    while i < existing.len()
        invariant
            i <= existing@.len(),
            best as nat == declared_bump(existing@.take(i as int)),
        decreases existing@.len() - i,
    {
        proof {
            assert(existing@.take(i + 1).drop_last() =~= existing@.take(i as int));
            lemma_declared_bump_bounded(existing@.take(i as int));
        }
        match existing[i].bump {
            Some(b) => {
                let r = b.rank();
                if r > best {
                    best = r;
                }
            },
            None => {},
        }
        i = i + 1;
    }
    assert(existing@.take(existing@.len() as int) =~= existing@);
    BumpSeverity::from_rank(best)
}

/// The proposed bump is the highest bump of the pull-request findings (none
/// when there is none), and the release bump the highest of the findings
/// against the latest release.
pub proof fn lemma_bumps_are_highest(fs: Seq<ClassificationFinding>)
    ensures
        pr_bump(fs) <= 3,
        release_bump(fs) <= 3,
        forall|i: int| 0 <= i < fs.len() && in_pr(#[trigger] fs[i]) ==> bump_rank(fs[i].bump) <= pr_bump(fs),
        forall|i: int| 0 <= i < fs.len() && in_release(#[trigger] fs[i]) ==> bump_rank(fs[i].bump) <= release_bump(fs),
        pr_bump(fs) > 0 ==> exists|i: int| 0 <= i < fs.len() && in_pr(#[trigger] fs[i]) && bump_rank(fs[i].bump) == pr_bump(fs),
        release_bump(fs) > 0 ==> exists|i: int|
            0 <= i < fs.len() && in_release(#[trigger] fs[i]) && bump_rank(fs[i].bump) == release_bump(fs),
    decreases fs.len(),
{
    if fs.len() > 0 {
        let init = fs.drop_last();
        let n = fs.len() - 1;
        lemma_bumps_are_highest(init);
        assert forall|i: int| 0 <= i < n implies fs[i] == init[i] by {}
        assert(fs[n] == fs.last());
        if pr_bump(fs) > 0 {
            if !(in_pr(fs.last()) && bump_rank(fs.last().bump) > pr_bump(init)) {
                let w = choose|i: int| 0 <= i < init.len() && in_pr(#[trigger] init[i]) && bump_rank(init[i].bump) == pr_bump(init);
                assert(fs[w] == init[w]);
            }
        }
        if release_bump(fs) > 0 {
            if !(in_release(fs.last()) && bump_rank(fs.last().bump) > release_bump(init)) {
                let w = choose|i: int| 0 <= i < init.len() && in_release(#[trigger] init[i]) && bump_rank(init[i].bump) == release_bump(init);
                assert(fs[w] == init[w]);
            }
        }
    }
}

/// What a recommendation says of its bumps: the proposed bump is the highest
/// bump of the pull-request findings; with a release, the release floor is at
/// least the bump of every finding against the latest release and at least the
/// proposed bump, and it is one of those bumps; without a release it is the
/// proposed bump.
pub proof fn lemma_recommendation_bumps(
    r: ChangeRecommendation,
    fs: Seq<ClassificationFinding>,
    has_current_changes: bool,
    has_release: bool,
)
    requires
        is_recommendation(r, fs, has_current_changes, has_release),
    ensures
        forall|i: int| 0 <= i < fs.len() && in_pr(#[trigger] fs[i])
            ==> bump_rank(fs[i].bump) <= bump_rank(r.proposed_changeset_bump),
        r.proposed_changeset_bump == BumpSeverity::NoBump
            || exists|i: int| 0 <= i < fs.len() && in_pr(#[trigger] fs[i]) && fs[i].bump == r.proposed_changeset_bump,
        bump_rank(r.proposed_changeset_bump) <= bump_rank(r.release_floor),
        has_release ==> forall|i: int| 0 <= i < fs.len() && in_release(#[trigger] fs[i])
            ==> bump_rank(fs[i].bump) <= bump_rank(r.release_floor),
        !has_release ==> r.release_floor == r.proposed_changeset_bump,
        r.release_floor == r.proposed_changeset_bump || (has_release && exists|i: int|
            0 <= i < fs.len() && in_release(#[trigger] fs[i]) && fs[i].bump == r.release_floor),
{
    lemma_floor_bumps(r, fs, has_release);
}

/// The bump facts shared by every recommendation of these findings.
pub(crate) proof fn lemma_floor_bumps(r: ChangeRecommendation, fs: Seq<ClassificationFinding>, has_release: bool)
    requires
        r.proposed_changeset_bump == bump_of_rank(pr_bump(fs)),
        r.release_floor == bump_of_rank(
            if has_release && release_bump(fs) > pr_bump(fs) { release_bump(fs) } else { pr_bump(fs) },
        ),
    ensures
        forall|i: int| 0 <= i < fs.len() && in_pr(#[trigger] fs[i])
            ==> bump_rank(fs[i].bump) <= bump_rank(r.proposed_changeset_bump),
        r.proposed_changeset_bump == BumpSeverity::NoBump
            || exists|i: int| 0 <= i < fs.len() && in_pr(#[trigger] fs[i]) && fs[i].bump == r.proposed_changeset_bump,
        bump_rank(r.proposed_changeset_bump) <= bump_rank(r.release_floor),
        has_release ==> forall|i: int| 0 <= i < fs.len() && in_release(#[trigger] fs[i])
            ==> bump_rank(fs[i].bump) <= bump_rank(r.release_floor),
        !has_release ==> r.release_floor == r.proposed_changeset_bump,
        r.release_floor == r.proposed_changeset_bump || (has_release && exists|i: int|
            0 <= i < fs.len() && in_release(#[trigger] fs[i]) && fs[i].bump == r.release_floor),
{
    lemma_bumps_are_highest(fs);
    let p = pr_bump(fs);
    let q = release_bump(fs);
    assert(bump_rank(bump_of_rank(p)) == p);
    assert(bump_rank(bump_of_rank(q)) == q);
    assert forall|i: int| 0 <= i < fs.len() implies bump_of_rank(bump_rank(#[trigger] fs[i].bump)) == fs[i].bump by {}
    if p > 0 {
        let w = choose|i: int| 0 <= i < fs.len() && in_pr(#[trigger] fs[i]) && bump_rank(fs[i].bump) == p;
        assert(fs[w].bump == bump_of_rank(bump_rank(fs[w].bump)));
    }
    if has_release && q > p {
        let w = choose|i: int| 0 <= i < fs.len() && in_release(#[trigger] fs[i]) && bump_rank(fs[i].bump) == q;
        assert(fs[w].bump == bump_of_rank(bump_rank(fs[w].bump)));
    }
}

/// The highest declared bump is the highest bump any pending changeset
/// declares, and one of them declares it when it is above none.
pub proof fn lemma_declared_bump_highest(es: Seq<ExistingChangeset>)
    ensures
        forall|i: int| 0 <= i < es.len() ==> match (#[trigger] es[i]).bump {
            Some(b) => bump_rank(b) <= declared_bump(es),
            None => true,
        },
        declared_bump(es) > 0 ==> exists|i: int| 0 <= i < es.len() && match (#[trigger] es[i]).bump {
            Some(b) => bump_rank(b) == declared_bump(es),
            None => false,
        },
    decreases es.len(),
{
    if es.len() > 0 {
        let init = es.drop_last();
        let n = es.len() - 1;
        lemma_declared_bump_highest(init);
        assert forall|i: int| 0 <= i < n implies es[i] == init[i] by {}
        assert(es[n] == es.last());
        if declared_bump(es) > 0 && declared_bump(es) == declared_bump(init) {
            let w = choose|i: int| 0 <= i < init.len() && match (#[trigger] init[i]).bump {
                Some(b) => bump_rank(b) == declared_bump(init),
                None => false,
            };
            assert(es[w] == init[w]);
        }
    }
}

/// With a bump proposed and changesets pending, they are kept exactly when one
/// of them already declares at least the proposed bump, and updated otherwise.
pub proof fn lemma_changeset_action_keeps_sufficient_changesets(proposed: BumpSeverity, es: Seq<ExistingChangeset>)
    requires
        proposed != BumpSeverity::NoBump,
        es.len() > 0,
    ensures
        action_for(proposed, es) == ChangesetAction::Keep <==> exists|i: int| 0 <= i < es.len()
            && match (#[trigger] es[i]).bump {
                Some(b) => bump_rank(b) >= bump_rank(proposed),
                None => false,
            },
        action_for(proposed, es) == ChangesetAction::Update <==> forall|i: int| 0 <= i < es.len()
            ==> match (#[trigger] es[i]).bump {
                Some(b) => bump_rank(b) < bump_rank(proposed),
                None => true,
            },
{
    lemma_declared_bump_highest(es);
    if declared_bump(es) >= bump_rank(proposed) {
        let w = choose|i: int| 0 <= i < es.len() && match (#[trigger] es[i]).bump {
            Some(b) => bump_rank(b) == declared_bump(es),
            None => false,
        };
        assert(match es[w].bump {
            Some(b) => bump_rank(b) >= bump_rank(proposed),
            None => false,
        });
    }
}

/// What to do about a package's changesets: with nothing proposed, review any
/// pending intent; otherwise create one, update one that declares less, or keep it.
pub open spec fn action_for(proposed: BumpSeverity, es: Seq<ExistingChangeset>) -> ChangesetAction {
    if proposed == BumpSeverity::NoBump {
        if es.len() == 0 { ChangesetAction::NoChangeset } else { ChangesetAction::Review }
    } else if es.len() == 0 {
        ChangesetAction::Create
    } else if declared_bump(es) < bump_rank(proposed) {
        ChangesetAction::Update
    } else {
        ChangesetAction::Keep
    }
}

/// Decides what to do about the pending changesets of a package.
pub fn changeset_action(decision: &ChangeRecommendation, existing: &[ExistingChangeset]) -> (r: ChangesetAction)
    ensures
        r == action_for(decision.proposed_changeset_bump, existing@),
{
    if decision.proposed_changeset_bump == BumpSeverity::NoBump {
        return if existing.len() == 0 {
            ChangesetAction::NoChangeset
        } else {
            ChangesetAction::Review
        };
    }
    if existing.len() == 0 {
        return ChangesetAction::Create;
    }
    let declared = declared_changeset_bump(existing);
    proof {
        lemma_declared_bump_bounded(existing@);
    }
    if declared.rank() < decision.proposed_changeset_bump.rank() {
        ChangesetAction::Update
    } else {
        ChangesetAction::Keep
    }
}

/// The one-line summary of a recommendation.
pub open spec fn summary_text(decision: ChangeRecommendation, fs: Seq<ClassificationFinding>) -> Seq<char> {
    let count = decimal(decision.finding_ids@.len());
    match decision.proposed_changeset_bump {
        BumpSeverity::Major => count + " breaking finding(s) propose a major changeset"@,
        BumpSeverity::Minor => count + " additive finding(s) propose a minor changeset"@,
        BumpSeverity::Patch => if has_impact(fs, CompatibilityImpact::Unknown, false) {
            "unclassified package changes propose a patch changeset and require review"@
        } else {
            count + " compatible finding(s) propose a patch changeset"@
        },
        BumpSeverity::NoBump => if decision.review_required {
            "pending changeset intent has no matching package change and requires review"@
        } else {
            "no package change requires a changeset"@
        },
    }
}

/// Summarizes a recommendation in one line.
pub fn recommendation_summary(decision: &ChangeRecommendation, findings: &[ClassificationFinding]) -> (r: String)
    ensures
        r@ == summary_text(*decision, findings@),
{
    let count = decision.finding_ids.len();
    match decision.proposed_changeset_bump {
        BumpSeverity::Major => {
            let mut s = String::new();
            push_decimal(&mut s, count as u128);
            s.append(" breaking finding(s) propose a major changeset");
            s
        },
        BumpSeverity::Minor => {
            let mut s = String::new();
            push_decimal(&mut s, count as u128);
            s.append(" additive finding(s) propose a minor changeset");
            s
        },
        BumpSeverity::Patch => {
            if highest_compatibility_impact_is_unknown(findings) {
                "unclassified package changes propose a patch changeset and require review".to_string()
            } else {
                let mut s = String::new();
                push_decimal(&mut s, count as u128);
                s.append(" compatible finding(s) propose a patch changeset");
                s
            }
        },
        BumpSeverity::NoBump => {
            if decision.review_required {
                "pending changeset intent has no matching package change and requires review".to_string()
            } else {
                "no package change requires a changeset".to_string()
            }
        },
    }
}

/// Whether some finding has an unknown impact.
fn highest_compatibility_impact_is_unknown(findings: &[ClassificationFinding]) -> (r: bool)
    ensures
        r == has_impact(findings@, CompatibilityImpact::Unknown, false),
{
    let mut i: usize = 0;
    while i < findings.len()
        invariant
            i <= findings@.len(),
            forall|j: int| 0 <= j < i ==> findings@[j].impact != CompatibilityImpact::Unknown,
        decreases findings@.len() - i,
    {
        if findings[i].impact == CompatibilityImpact::Unknown {
            assert((!false || in_pr(findings@[i as int])) && findings@[i as int].impact == CompatibilityImpact::Unknown);
            return true;
        }
        i = i + 1;
    }
    false
}

/// What tells two findings apart: the signatures before and after, the file,
/// the summary and the analyzer's assessment.
pub struct FindingEvidenceKey {
    pub before: Option<String>,
    pub after: Option<String>,
    pub location: String,
    pub summary: String,
    pub assessment: Option<SemanticChangeAssessment>,
}

/// The bytes a part of the key contributes: its text, or a NUL when it is absent.
pub open spec fn evidence_bytes(part: Option<Seq<char>>) -> Seq<u8> {
    vstd::utf8::encode_utf8(match part {
        Some(s) => s,
        None => "\0"@,
    })
}

/// Hashes one part of the key and then a 0xff separator.
pub open spec fn evidence_step(hash: u64, part: Option<Seq<char>>) -> u64 {
    fnv_step(fnv_fold(hash, evidence_bytes(part)), 0xffu8)
}

pub open spec fn opt_view(o: Option<String>) -> Option<Seq<char>> {
    match o {
        Some(s) => Some(s@),
        None => None,
    }
}

/// The key text of an optional assessment.
pub open spec fn assessment_part(a: Option<SemanticChangeAssessment>) -> Option<Seq<char>> {
    match a {
        Some(x) => Some(assessment_key_text(x)),
        None => None,
    }
}

/// The FNV-1a hash of the key's parts in order, each followed by 0xff; an
/// assessment takes part by its key text.
pub open spec fn evidence_hash(k: FindingEvidenceKey) -> u64 {
    let h1 = evidence_step(fnv_offset_basis(), opt_view(k.before));
    let h2 = evidence_step(h1, opt_view(k.after));
    let h3 = evidence_step(h2, Some(k.location@));
    let h4 = evidence_step(h3, Some(k.summary@));
    evidence_step(h4, assessment_part(k.assessment))
}

fn hash_evidence_part(hash: u64, part: Option<&str>) -> (r: u64)
    ensures
        r == evidence_step(hash, match part {
            Some(s) => Some(s@),
            None => None,
        }),
{
    let text: &str = match part {
        Some(s) => s,
        None => "\0",
    };
    let h = update_input_fingerprint_hash(hash, text.as_bytes());
    (h ^ 0xffu64).wrapping_mul(1_099_511_628_211)
}

impl FindingEvidenceKey {
    /// A hash of the key that stays the same from run to run.
    pub fn stable_fingerprint(&self) -> (r: u64)
        ensures
            r == evidence_hash(*self),
    {
        let b: Option<&str> = match &self.before {
            Some(s) => Some(s.as_str()),
            None => None,
        };
        let a: Option<&str> = match &self.after {
            Some(s) => Some(s.as_str()),
            None => None,
        };
        let mut hash: u64 = 14_695_981_039_346_656_037;
        hash = hash_evidence_part(hash, b);
        hash = hash_evidence_part(hash, a);
        hash = hash_evidence_part(hash, Some(self.location.as_str()));
        hash = hash_evidence_part(hash, Some(self.summary.as_str()));
        match &self.assessment {
            Some(a) => {
                let text = assessment_key(a);
                hash_evidence_part(hash, Some(text.as_str()))
            },
            None => hash_evidence_part(hash, None),
        }
    }
}

} // verus!
