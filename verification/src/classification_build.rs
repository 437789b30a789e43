use vstd::prelude::*;

use crate::classification_report::{
    package_models, ChangeClassificationReport, ensure_unclassified_finding, is_unclassified_finding, owner_kind_text, release_owner, PackageClassification,
    ReleaseIdentity, ReleaseOwner, ResolvedComparison,
};
use crate::classify::{
    bump_of_rank, bump_rank, confidence_of_rank, BumpSeverity, ChangesetAction, DependencyPropagation, short_revision, short_revision_text, AnalysisCompleteness,
    ClassificationConfidence, ComparisonKind, ComparisonStatus, CompatibilityImpact, DetectionLevel,
};
use crate::error::MonochangeError;
use crate::keyed_sort::{
    dedup_by_text_key, dedup_keys, key_lt, key_of, lemma_dedup_keeps_keys, lemma_dedup_strictly_increasing,
    lemma_stably_sorted_ordered, lemma_stably_sorted_permutes, sort_by_text_key, stably_sorted,
};
use crate::model::Ecosystem;
use crate::order_findings::join_strings;
use crate::propagation::{
    model_key, preferred_report_package_id, propagate_impacts, propagate_public_dependency_impacts, public_impacts,
    report_id, AnalyzedPackage, DependencyLink, DependentPackage,
};
use crate::readiness::join;
use crate::recommendation::{
    action_for, build_recommendation, changeset_action, in_pr, in_release, lemma_floor_bumps, is_recommendation, opt_text, pr_bump,
    pr_confidence_at, pr_has_bump, pr_high_bump, pr_ids_at, recommendation_summary, release_bump, summary_text,
    ChangeRecommendation, ClassificationFinding, ExistingChangeset,
};
use crate::text::{lemma_lex_irreflexive, lex_lt, lines, lines_of, push_str, str_eq, trim, trim_str, views};

verus! {

broadcast use vstd::string::group_string_axioms;

/// The candidate revision a classification compares against its base, and the
/// source revision it was built from.
pub struct CandidateResolution {
    pub reference: String,
    pub display: String,
    pub source_reference: String,
    pub source_display: String,
    pub includes_working_tree: bool,
    pub status: ComparisonStatus,
    pub note: Option<String>,
}

/// A comparison as a mathematical value.
pub struct ComparisonModel {
    pub kind: ComparisonKind,
    pub base: Option<Seq<char>>,
    pub head: Seq<char>,
    pub status: ComparisonStatus,
    pub note: Option<Seq<char>>,
}

impl View for ResolvedComparison {
    type V = ComparisonModel;

    open spec fn view(&self) -> ComparisonModel {
        ComparisonModel {
            kind: self.kind,
            base: opt_text(self.base),
            head: self.head@,
            status: self.status,
            note: opt_text(self.note),
        }
    }
}

/// The views of a list of comparisons.
pub open spec fn comparison_models(cs: Seq<ResolvedComparison>) -> Seq<ComparisonModel> {
    cs.map_values(|c: ResolvedComparison| c@)
}

/// The source revision of a candidate: the commit that materialized the
/// working tree when there was one, the requested head otherwise. The third
/// part says whether the working tree is included.
pub open spec fn source_candidate_of(head: Seq<char>, materialized: Option<Seq<char>>) -> (Seq<char>, Seq<char>, bool) {
    match materialized {
        Some(reference) => (reference, "working-tree:"@ + short_revision_text(reference), true),
        None => (head, head, false),
    }
}

/// Picks the source revision of a candidate (see `source_candidate_of`).
pub fn source_candidate(head: &str, materialized: Option<String>) -> (r: (String, String, bool))
    ensures
        (r.0@, r.1@, r.2) == source_candidate_of(head@, opt_text(materialized)),
{
    match materialized {
        Some(reference) => {
            let short = short_revision(reference.as_str());
            let mut display = "working-tree:".to_string();
            push_str(&mut display, short.as_str());
            proof {
                reveal_strlit("working-tree:");
            }
            (reference, display, true)
        },
        None => (head.to_string(), head.to_string(), false),
    }
}

/// The note on a merge candidate that includes the working tree.
pub open spec fn merge_working_tree_note() -> Seq<char> {
    "the merge candidate includes staged, unstaged, deleted, and untracked files"@
}

/// The note on a candidate whose merge could not be built.
pub open spec fn conflict_note(base: Seq<char>, head: Seq<char>, error: Seq<char>) -> Seq<char> {
    "could not build a merge candidate for `"@ + base + "` and `"@ + head
        + "`; the pull request comparison falls back to the source candidate: "@ + error
}

/// The tree a merge printed: its first line, trimmed (the source revision,
/// trimmed, when it printed nothing).
pub open spec fn merge_tree_of(output: Seq<char>, source_reference: Seq<char>) -> Seq<char> {
    if lines(output).len() > 0 {
        trim(lines(output)[0])
    } else {
        trim(source_reference)
    }
}

/// The candidate that the merge of the source revision into the base gives:
/// the merged tree when the merge was built, the source revision, marked
/// conflicted, when it failed with the given error text.
pub open spec fn is_merge_candidate(
    c: CandidateResolution,
    base: Seq<char>,
    head: Seq<char>,
    source: (Seq<char>, Seq<char>, bool),
    merge_tree: Result<Seq<char>, Seq<char>>,
) -> bool {
    &&& c.source_reference@ == source.0
    &&& c.source_display@ == source.1
    &&& c.includes_working_tree == source.2
    &&& match merge_tree {
        Ok(output) => {
            let tree = merge_tree_of(output, source.0);
            &&& c.reference@ == tree
            &&& c.display@ == "merge-tree:"@ + short_revision_text(tree)
            &&& c.status == ComparisonStatus::Analyzed
            &&& opt_text(c.note) == (if source.2 { Some(merge_working_tree_note()) } else { None })
        },
        Err(error) => {
            &&& c.reference@ == source.0
            &&& c.display@ == source.1
            &&& c.status == ComparisonStatus::Conflicted
            &&& opt_text(c.note) == Some(conflict_note(base, head, error))
        },
    }
}

/// The text of an outcome.
pub open spec fn outcome_text(r: Result<String, String>) -> Result<Seq<char>, Seq<char>> {
    match r {
        Ok(s) => Ok(s@),
        Err(e) => Err(e@),
    }
}

/// Builds the candidate from the outcome of merging the source revision into
/// the base (the merge's output, or the text of its error).
pub fn merge_candidate(
    base: &str,
    head: &str,
    source_reference: String,
    source_display: String,
    includes_working_tree: bool,
    merge_tree: Result<String, String>,
) -> (c: CandidateResolution)
    ensures
        is_merge_candidate(c, base@, head@, (source_reference@, source_display@, includes_working_tree), outcome_text(merge_tree)),
{
    match merge_tree {
        Ok(output) => {
            let first = lines_of(output.as_str());
            let tree = if first.len() > 0 {
                trim_str(first[0].as_str())
            } else {
                trim_str(source_reference.as_str())
            };
            let short = short_revision(tree.as_str());
            let mut display = "merge-tree:".to_string();
            push_str(&mut display, short.as_str());
            proof {
                reveal_strlit("merge-tree:");
            }
            let note = if includes_working_tree {
                Some("the merge candidate includes staged, unstaged, deleted, and untracked files".to_string())
            } else {
                None
            };
            CandidateResolution {
                reference: tree,
                display,
                source_reference,
                source_display,
                includes_working_tree,
                status: ComparisonStatus::Analyzed,
                note,
            }
        },
        Err(error) => {
            let mut note = "could not build a merge candidate for `".to_string();
            push_str(&mut note, base);
            push_str(&mut note, "` and `");
            push_str(&mut note, head);
            push_str(&mut note, "`; the pull request comparison falls back to the source candidate: ");
            push_str(&mut note, error.as_str());
            proof {
                reveal_strlit("could not build a merge candidate for `");
                reveal_strlit("` and `");
                reveal_strlit("`; the pull request comparison falls back to the source candidate: ");
            }
            let reference = source_reference.clone();
            let display = source_display.clone();
            CandidateResolution {
                reference,
                display,
                source_reference,
                source_display,
                includes_working_tree,
                status: ComparisonStatus::Conflicted,
                note: Some(note),
            }
        },
    }
}

/// A comparison as a value.
pub open spec fn comparison_of(
    kind: ComparisonKind,
    base: Option<Seq<char>>,
    head: Seq<char>,
    status: ComparisonStatus,
    note: Option<Seq<char>>,
) -> ComparisonModel {
    ComparisonModel { kind, base, head, status, note }
}

/// The note on a source comparison that includes the working tree.
pub open spec fn source_working_tree_note() -> Seq<char> {
    "the source comparison includes staged, unstaged, deleted, and untracked files"@
}

/// The note on a release comparison when no release tag matched.
pub open spec fn no_release_note() -> Seq<char> {
    "no reachable release tag matched this package"@
}

/// The comparisons every classification starts with: the pull request (base
/// against candidate) and the source delta (merge base against source).
pub open spec fn leading_comparisons(
    default_branch: Seq<char>,
    c: CandidateResolution,
    source_base: Seq<char>,
) -> Seq<ComparisonModel> {
    seq![
        comparison_of(ComparisonKind::PullRequest, Some(default_branch), c.display@, c.status, opt_text(c.note)),
        comparison_of(
            ComparisonKind::SourceDelta,
            Some(source_base),
            c.source_display@,
            ComparisonStatus::Analyzed,
            if c.includes_working_tree { Some(source_working_tree_note()) } else { None },
        ),
    ]
}

/// The comparisons of one package: the leading ones, the working tree (when
/// it was analyzed against `working_tree_base`), then the release against the
/// candidate and against the default branch, unavailable without a release.
pub open spec fn package_comparison_models(
    default_branch: Seq<char>,
    c: CandidateResolution,
    source_base: Seq<char>,
    working_tree_base: Option<Seq<char>>,
    latest_release: Option<Seq<char>>,
) -> Seq<ComparisonModel> {
    let wt = match working_tree_base {
        Some(b) => seq![comparison_of(
            ComparisonKind::WorkingTree,
            Some(b),
            "working tree"@,
            ComparisonStatus::Analyzed,
            Some("staged, unstaged, deleted, and untracked files are included"@),
        )],
        None => Seq::<ComparisonModel>::empty(),
    };
    let release = match latest_release {
        Some(r) => seq![
            comparison_of(ComparisonKind::Release, Some(r), c.display@, c.status, opt_text(c.note)),
            comparison_of(ComparisonKind::ReleaseToDefault, Some(r), default_branch, ComparisonStatus::Analyzed, None),
        ],
        None => seq![
            comparison_of(ComparisonKind::Release, None, c.display@, ComparisonStatus::Unavailable, Some(no_release_note())),
            comparison_of(
                ComparisonKind::ReleaseToDefault,
                None,
                default_branch,
                ComparisonStatus::Unavailable,
                Some(no_release_note()),
            ),
        ],
    };
    leading_comparisons(default_branch, c, source_base) + wt + release
}

/// The comparisons of the whole report: the leading ones, then the working
/// tree when it was analyzed.
pub open spec fn report_comparison_models(
    default_branch: Seq<char>,
    c: CandidateResolution,
    source_base: Seq<char>,
    working_tree_base: Option<Seq<char>>,
) -> Seq<ComparisonModel> {
    let wt = match working_tree_base {
        Some(b) => seq![comparison_of(
            ComparisonKind::WorkingTree,
            Some(b),
            "working tree"@,
            ComparisonStatus::Analyzed,
            Some("local changes are reported separately and are also materialized into the final candidate"@),
        )],
        None => Seq::<ComparisonModel>::empty(),
    };
    leading_comparisons(default_branch, c, source_base) + wt
}

fn opt_clone(o: &Option<String>) -> (r: Option<String>)
    ensures
        opt_text(r) == opt_text(*o),
{
    match o {
        Some(s) => Some(s.clone()),
        None => None,
    }
}

fn push_leading(
    out: &mut Vec<ResolvedComparison>,
    default_branch: &str,
    c: &CandidateResolution,
    source_base: &str,
)
    ensures
        comparison_models(final(out)@) == comparison_models(old(out)@) + leading_comparisons(default_branch@, *c, source_base@),
{
    let ghost start = comparison_models(out@);
    out.push(ResolvedComparison {
        kind: ComparisonKind::PullRequest,
        base: Some(default_branch.to_string()),
        head: c.display.clone(),
        status: c.status,
        note: opt_clone(&c.note),
    });
    let note = if c.includes_working_tree {
        Some("the source comparison includes staged, unstaged, deleted, and untracked files".to_string())
    } else {
        None
    };
    out.push(ResolvedComparison {
        kind: ComparisonKind::SourceDelta,
        base: Some(source_base.to_string()),
        head: c.source_display.clone(),
        status: ComparisonStatus::Analyzed,
        note,
    });
    assert(comparison_models(out@) =~= start + leading_comparisons(default_branch@, *c, source_base@));
}

/// The comparisons of one package (see `package_comparison_models`).
pub fn package_comparisons(
    default_branch: &str,
    candidate: &CandidateResolution,
    source_base: &str,
    working_tree_base: Option<&str>,
    latest_release: Option<&str>,
) -> (r: Vec<ResolvedComparison>)
    ensures
        comparison_models(r@) == package_comparison_models(
            default_branch@,
            *candidate,
            source_base@,
            match working_tree_base { Some(b) => Some(b@), None => None },
            match latest_release { Some(b) => Some(b@), None => None },
        ),
{
    let mut out: Vec<ResolvedComparison> = Vec::new();
    push_leading(&mut out, default_branch, candidate, source_base);
    let ghost lead = comparison_models(out@);
    if let Some(b) = working_tree_base {
        out.push(ResolvedComparison {
            kind: ComparisonKind::WorkingTree,
            base: Some(b.to_string()),
            head: "working tree".to_string(),
            status: ComparisonStatus::Analyzed,
            note: Some("staged, unstaged, deleted, and untracked files are included".to_string()),
        });
    }
    let ghost with_wt = comparison_models(out@);
    match latest_release {
        Some(r) => {
            out.push(ResolvedComparison {
                kind: ComparisonKind::Release,
                base: Some(r.to_string()),
                head: candidate.display.clone(),
                status: candidate.status,
                note: opt_clone(&candidate.note),
            });
            out.push(ResolvedComparison {
                kind: ComparisonKind::ReleaseToDefault,
                base: Some(r.to_string()),
                head: default_branch.to_string(),
                status: ComparisonStatus::Analyzed,
                note: None,
            });
        },
        None => {
            out.push(ResolvedComparison {
                kind: ComparisonKind::Release,
                base: None,
                head: candidate.display.clone(),
                status: ComparisonStatus::Unavailable,
                note: Some("no reachable release tag matched this package".to_string()),
            });
            out.push(ResolvedComparison {
                kind: ComparisonKind::ReleaseToDefault,
                base: None,
                head: default_branch.to_string(),
                status: ComparisonStatus::Unavailable,
                note: Some("no reachable release tag matched this package".to_string()),
            });
        },
    }
    proof {
        reveal_strlit("working tree");
        reveal_strlit("staged, unstaged, deleted, and untracked files are included");
        reveal_strlit("no reachable release tag matched this package");
    }
    assert(comparison_models(out@) =~= package_comparison_models(
        default_branch@,
        *candidate,
        source_base@,
        match working_tree_base { Some(b) => Some(b@), None => None },
        match latest_release { Some(b) => Some(b@), None => None },
    ));
    out
}

/// The comparisons of the whole report (see `report_comparison_models`).
pub fn report_comparisons(
    default_branch: &str,
    candidate: &CandidateResolution,
    source_base: &str,
    working_tree_base: Option<&str>,
) -> (r: Vec<ResolvedComparison>)
    ensures
        comparison_models(r@) == report_comparison_models(
            default_branch@,
            *candidate,
            source_base@,
            match working_tree_base { Some(b) => Some(b@), None => None },
        ),
{
    let mut out: Vec<ResolvedComparison> = Vec::new();
    push_leading(&mut out, default_branch, candidate, source_base);
    if let Some(b) = working_tree_base {
        out.push(ResolvedComparison {
            kind: ComparisonKind::WorkingTree,
            base: Some(b.to_string()),
            head: "working tree".to_string(),
            status: ComparisonStatus::Analyzed,
            note: Some("local changes are reported separately and are also materialized into the final candidate".to_string()),
        });
    }
    proof {
        reveal_strlit("working tree");
        reveal_strlit("local changes are reported separately and are also materialized into the final candidate");
    }
    assert(comparison_models(out@) =~= report_comparison_models(
        default_branch@,
        *candidate,
        source_base@,
        match working_tree_base { Some(b) => Some(b@), None => None },
    ));
    out
}

/// The parts of a recommendation that the findings alone decide.
pub open spec fn decision_core(d: ChangeRecommendation, fs: Seq<ClassificationFinding>, has_release: bool) -> bool {
    let proposed = bump_of_rank(pr_bump(fs));
    let floor = if has_release && release_bump(fs) > pr_bump(fs) { release_bump(fs) } else { pr_bump(fs) };
    &&& d.proposed_changeset_bump == proposed
    &&& d.enforceable_minimum == bump_of_rank(pr_high_bump(fs))
    &&& d.release_floor == bump_of_rank(floor)
    &&& d.confidence == (if pr_has_bump(fs, proposed) {
        confidence_of_rank(pr_confidence_at(fs, proposed))
    } else {
        ClassificationConfidence::High
    })
    &&& views(d.finding_ids@) == pr_ids_at(fs, proposed)
}

/// What a package decision says of its bumps: the proposed bump is the highest
/// bump of the pull-request findings; with a release, the release floor is at
/// least the bump of every finding against the latest release and at least the
/// proposed bump, and it is one of those bumps; without a release it is the
/// proposed bump.
pub proof fn lemma_decision_bumps(d: ChangeRecommendation, fs: Seq<ClassificationFinding>, has_release: bool)
    requires
        decision_core(d, fs, has_release),
    ensures
        forall|i: int| 0 <= i < fs.len() && in_pr(#[trigger] fs[i])
            ==> bump_rank(fs[i].bump) <= bump_rank(d.proposed_changeset_bump),
        d.proposed_changeset_bump == BumpSeverity::NoBump
            || exists|i: int| 0 <= i < fs.len() && in_pr(#[trigger] fs[i]) && fs[i].bump == d.proposed_changeset_bump,
        bump_rank(d.proposed_changeset_bump) <= bump_rank(d.release_floor),
        has_release ==> forall|i: int| 0 <= i < fs.len() && in_release(#[trigger] fs[i])
            ==> bump_rank(fs[i].bump) <= bump_rank(d.release_floor),
        !has_release ==> d.release_floor == d.proposed_changeset_bump,
        d.release_floor == d.proposed_changeset_bump || (has_release && exists|i: int|
            0 <= i < fs.len() && in_release(#[trigger] fs[i]) && fs[i].bump == d.release_floor),
{
    lemma_floor_bumps(d, fs, has_release);
}

/// The decision for one package: the recommendation of its findings, except
/// that pending changesets on a package with no changed file make the impact
/// unknown, the analysis unsupported and a review required.
pub open spec fn is_package_decision(
    d: ChangeRecommendation,
    fs: Seq<ClassificationFinding>,
    has_changes: bool,
    has_release: bool,
    has_pending: bool,
) -> bool {
    if !has_changes && has_pending {
        &&& decision_core(d, fs, has_release)
        &&& d.compatibility_impact == CompatibilityImpact::Unknown
        &&& d.completeness == AnalysisCompleteness::Unsupported
        &&& d.review_required
    } else {
        is_recommendation(d, fs, has_changes, has_release)
    }
}

/// The findings of a package once the fallback finding is added where one is
/// owed (see `ensure_unclassified_finding`).
pub open spec fn is_ensured_findings(
    r: Seq<ClassificationFinding>,
    fs: Seq<ClassificationFinding>,
    package_id: Seq<char>,
    ecosystem: Ecosystem,
    level: DetectionLevel,
    changed_files: Seq<String>,
) -> bool {
    if changed_files.len() == 0 || exists|i: int| 0 <= i < fs.len() && in_pr(#[trigger] fs[i]) {
        r == fs
    } else {
        &&& r.len() == fs.len() + 1
        &&& r.take(fs.len() as int) == fs
        &&& is_unclassified_finding(r.last(), package_id, ecosystem, level, changed_files[0]@)
    }
}

/// The release owner of a package (see `release_owner`).
pub open spec fn is_release_owner(r: Option<ReleaseOwner>, identity: Option<ReleaseIdentity>, latest_release: Option<String>) -> bool {
    match identity {
        None => r is None,
        Some(ident) => r matches Some(o) && o.kind@ == owner_kind_text(ident.owner_kind) && o.id@ == ident.owner_id@
            && o.latest_release == latest_release,
    }
}

/// Classifies one package: its findings (with the fallback finding where owed),
/// the decision on them, the changeset action, the summary and the release owner.
pub fn package_classification(
    package_id: String,
    package_name: String,
    ecosystem: Ecosystem,
    release_identity: Option<&ReleaseIdentity>,
    latest_release: Option<String>,
    comparisons: Vec<ResolvedComparison>,
    findings: Vec<ClassificationFinding>,
    detection_level: DetectionLevel,
    changed_files: &[String],
    changesets: Vec<ExistingChangeset>,
    warnings: Vec<String>,
) -> (p: PackageClassification)
    ensures
        p.package_id == package_id,
        p.package_name == package_name,
        p.ecosystem == ecosystem,
        is_release_owner(p.release_owner, match release_identity { Some(i) => Some(*i), None => None }, latest_release),
        p.comparisons == comparisons,
        is_ensured_findings(p.findings@, findings@, package_id@, ecosystem, detection_level, changed_files@),
        is_package_decision(p.decision, p.findings@, changed_files@.len() > 0, latest_release is Some, changesets@.len() > 0),
        p.recommendation == p.decision.proposed_changeset_bump,
        p.action == action_for(p.decision.proposed_changeset_bump, changesets@),
        p.summary@ == summary_text(p.decision, p.findings@),
        p.existing_changesets == changesets,
        p.warnings == warnings,
{
    let mut findings = findings;
    ensure_unclassified_finding(package_id.as_str(), ecosystem, detection_level, changed_files, &mut findings);
    let has_changes = changed_files.len() > 0;
    let mut decision = build_recommendation(findings.as_slice(), has_changes, latest_release.is_some());
    if !has_changes && changesets.len() > 0 {
        decision.compatibility_impact = CompatibilityImpact::Unknown;
        decision.completeness = AnalysisCompleteness::Unsupported;
        decision.review_required = true;
    }
    let action = changeset_action(&decision, changesets.as_slice());
    let summary = recommendation_summary(&decision, findings.as_slice());
    let owner = release_owner(release_identity, latest_release);
    PackageClassification {
        package_id,
        package_name,
        ecosystem,
        release_owner: owner,
        comparisons,
        recommendation: decision.proposed_changeset_bump,
        decision,
        summary,
        findings,
        existing_changesets: changesets,
        action,
        warnings,
    }
}

/// The highest recommendation rank among the packages (0 for none).
pub open spec fn highest_rank(ps: Seq<PackageClassification>) -> nat
    decreases ps.len(),
{
    if ps.len() == 0 {
        0
    } else {
        let r = highest_rank(ps.drop_last());
        let b = bump_rank(ps.last().recommendation);
        if b > r { b } else { r }
    }
}

proof fn lemma_highest_rank_bounded(ps: Seq<PackageClassification>)
    ensures
        highest_rank(ps) <= 3,
    decreases ps.len(),
{
    if ps.len() > 0 {
        lemma_highest_rank_bounded(ps.drop_last());
    }
}

/// The highest recommendation among the packages (`NoBump` when there are none).
pub fn highest_recommendation(packages: &[PackageClassification]) -> (r: BumpSeverity)
    ensures
        r == bump_of_rank(highest_rank(packages@)),
{
    let mut best: u8 = 0;
    let mut i: usize = 0;
    while i < packages.len()
        invariant
            i <= packages@.len(),
            best as nat == highest_rank(packages@.take(i as int)),
        decreases packages@.len() - i,
    {
        proof {
            assert(packages@.take(i + 1).drop_last() =~= packages@.take(i as int));
            lemma_highest_rank_bounded(packages@.take(i as int));
        }
        let b = packages[i].recommendation.rank();
        if b > best {
            best = b;
        }
        i = i + 1;
    }
    assert(packages@.take(packages@.len() as int) =~= packages@);
    proof {
        lemma_highest_rank_bounded(packages@);
    }
    BumpSeverity::from_rank(best)
}

/// The warnings of a report: sorted, each once.
pub open spec fn report_warnings(ws: Seq<String>) -> Seq<String> {
    dedup_keys(key_of::<String>(), stably_sorted(key_of::<String>(), ws))
}

/// Sorts the warnings and keeps each once.
pub fn sorted_unique_warnings(warnings: Vec<String>) -> (r: Vec<String>)
    ensures
        r@ == report_warnings(warnings@),
{
    dedup_by_text_key(sort_by_text_key(warnings))
}

/// Completes a classification report: the packages ordered by id, the overall
/// recommendation the highest of theirs, the warnings sorted and each once.
pub fn finish_classification_report(
    default_branch: String,
    candidate: String,
    comparisons: Vec<ResolvedComparison>,
    packages: Vec<PackageClassification>,
    warnings: Vec<String>,
) -> (r: ChangeClassificationReport)
    ensures
        r.schema_version == 1,
        r.default_branch == default_branch,
        r.candidate == candidate,
        r.comparisons == comparisons,
        r.packages@ == stably_sorted(key_of::<PackageClassification>(), packages@),
        r.recommendation == bump_of_rank(highest_rank(packages@)),
        r.warnings@ == report_warnings(warnings@),
{
    let recommendation = highest_recommendation(packages.as_slice());
    let packages = sort_by_text_key(packages);
    let warnings = sorted_unique_warnings(warnings);
    ChangeClassificationReport {
        schema_version: 1,
        default_branch,
        candidate,
        comparisons,
        recommendation,
        packages,
        warnings,
    }
}

/// The ids a classification reports on: the packages asked for, or else all
/// packages when unchanged ones are included, or else the analyzed ones; then
/// the dependents of public changes, and, unless packages were asked for, the
/// packages with pending changesets.
pub open spec fn selection_of(
    explicit: Seq<Seq<char>>,
    include_unchanged: bool,
    all_ids: Seq<Seq<char>>,
    analyzed_ids: Seq<Seq<char>>,
    impacted_ids: Seq<Seq<char>>,
    changeset_ids: Seq<Seq<char>>,
) -> Seq<Seq<char>> {
    let base = if explicit.len() > 0 {
        explicit
    } else if include_unchanged {
        all_ids
    } else {
        analyzed_ids
    };
    base + impacted_ids + (if explicit.len() > 0 { Seq::<Seq<char>>::empty() } else { changeset_ids })
}

fn push_all(out: &mut Vec<String>, xs: &[String])
    ensures
        views(final(out)@) == views(old(out)@) + views(xs@),
{
    let ghost start = views(out@);
    let mut i: usize = 0;
    while i < xs.len()
        invariant
            i <= xs@.len(),
            views(out@) == start + views(xs@.take(i as int)),
        decreases xs@.len() - i,
    {
        let ghost before = views(out@);
        let x = xs[i].clone();
        out.push(x);
        proof {
            assert(views(out@) =~= before.push(x@));
            assert(views(xs@.take(i + 1)) =~= views(xs@.take(i as int)).push(xs@[i as int]@));
            assert(views(out@) =~= start + views(xs@.take(i + 1)));
        }
        i = i + 1;
    }
    assert(xs@.take(xs@.len() as int) =~= xs@);
}

/// Gathers the ids a classification reports on (see `selection_of`).
pub fn report_selection(
    explicit: &[String],
    include_unchanged: bool,
    all_ids: &[String],
    analyzed_ids: &[String],
    impacted_ids: &[String],
    changeset_ids: &[String],
) -> (r: Vec<String>)
    ensures
        views(r@) == selection_of(
            views(explicit@),
            include_unchanged,
            views(all_ids@),
            views(analyzed_ids@),
            views(impacted_ids@),
            views(changeset_ids@),
        ),
{
    let mut out: Vec<String> = Vec::new();
    if explicit.len() > 0 {
        push_all(&mut out, explicit);
    } else if include_unchanged {
        push_all(&mut out, all_ids);
    } else {
        push_all(&mut out, analyzed_ids);
    }
    push_all(&mut out, impacted_ids);
    if explicit.len() == 0 {
        push_all(&mut out, changeset_ids);
    }
    proof {
        assert(views(Seq::<String>::empty()) =~= Seq::<Seq<char>>::empty());
    }
    out
}

/// The package at `i` is reported: its id was selected and no earlier package has it.
pub open spec fn chosen_at(ids: Seq<Seq<char>>, selected: Seq<Seq<char>>, i: int) -> bool {
    selected.contains(ids[i]) && !ids.take(i).contains(ids[i])
}

/// The positions of the reported packages, in order.
pub open spec fn chosen_positions(ids: Seq<Seq<char>>, selected: Seq<Seq<char>>, n: nat) -> Seq<usize>
    decreases n,
{
    if n == 0 {
        seq![]
    } else {
        let rest = chosen_positions(ids, selected, (n - 1) as nat);
        if chosen_at(ids, selected, n - 1) { rest.push((n - 1) as usize) } else { rest }
    }
}

/// The selected ids that no package has, in their order.
pub open spec fn unmatched_ids(selected: Seq<String>, ids: Seq<Seq<char>>) -> Seq<String>
    decreases selected.len(),
{
    if selected.len() == 0 {
        seq![]
    } else {
        let rest = unmatched_ids(selected.drop_last(), ids);
        if ids.contains(selected.last()@) { rest } else { rest.push(selected.last()) }
    }
}

/// The error for selected ids that match no package: the ids sorted, each once.
pub open spec fn unmatched_message(selected: Seq<String>, ids: Seq<Seq<char>>) -> Seq<char> {
    "package selection did not match a discovered package: "@ + join(views(report_warnings(unmatched_ids(selected, ids))), ", "@)
}

fn contains_text_before(v: &[String], n: usize, x: &str) -> (r: bool)
    requires
        n <= v@.len(),
    ensures
        r == views(v@.take(n as int)).contains(x@),
{
    let mut i: usize = 0;
    while i < n
        invariant
            i <= n <= v@.len(),
            forall|j: int| 0 <= j < i ==> v@[j]@ != x@,
        decreases n - i,
    {
        if str_eq(v[i].as_str(), x) {
            assert(views(v@.take(n as int))[i as int] == x@);
            return true;
        }
        i = i + 1;
    }
    assert forall|j: int| 0 <= j < views(v@.take(n as int)).len() implies views(v@.take(n as int))[j] != x@ by {
        assert(views(v@.take(n as int))[j] == v@[j]@);
    }
    false
}

fn contains_text(v: &[String], x: &str) -> (r: bool)
    ensures
        r == views(v@).contains(x@),
{
    assert(v@.take(v@.len() as int) =~= v@);
    contains_text_before(v, v.len(), x)
}

/// Picks the packages a classification reports on, by position: each package
/// whose id was selected, once per id (the first package with it). Fails when
/// a selected id matches no package.
pub fn select_report_packages(package_ids: &[String], selected: &[String]) -> (r: Result<Vec<usize>, MonochangeError>)
    ensures
        match r {
            Ok(v) => unmatched_ids(selected@, views(package_ids@)).len() == 0
                && v@ == chosen_positions(views(package_ids@), views(selected@), package_ids@.len()),
            Err(e) => unmatched_ids(selected@, views(package_ids@)).len() > 0
                && e == MonochangeError::Config(e->Config_0)
                && e->Config_0@ == unmatched_message(selected@, views(package_ids@)),
        },
{
    let ghost ids = views(package_ids@);
    let ghost sel = views(selected@);
    let mut missing: Vec<String> = Vec::new();
    let mut j: usize = 0;
    while j < selected.len()
        invariant
            j <= selected@.len(),
            ids == views(package_ids@),
            missing@ == unmatched_ids(selected@.take(j as int), ids),
        decreases selected@.len() - j,
    {
        proof {
            assert(selected@.take(j + 1).drop_last() =~= selected@.take(j as int));
        }
        if !contains_text(package_ids, selected[j].as_str()) {
            missing.push(selected[j].clone());
        }
        j = j + 1;
    }
    assert(selected@.take(selected@.len() as int) =~= selected@);
    if missing.len() > 0 {
        let sorted = sorted_unique_warnings(missing);
        let listed = join_strings(sorted.as_slice(), ", ");
        let mut message = "package selection did not match a discovered package: ".to_string();
        push_str(&mut message, listed.as_str());
        proof {
            reveal_strlit("package selection did not match a discovered package: ");
        }
        return Err(MonochangeError::Config(message));
    }
    let mut out: Vec<usize> = Vec::new();
    let mut i: usize = 0;
    while i < package_ids.len()
        invariant
            i <= package_ids@.len(),
            ids == views(package_ids@),
            sel == views(selected@),
            out@ == chosen_positions(ids, sel, i as nat),
        decreases package_ids@.len() - i,
    {
        let id = package_ids[i].as_str();
        let wanted = contains_text(selected, id);
        let seen = contains_text_before(package_ids, i, id);
        proof {
            assert(views(package_ids@.take(i as int)) =~= ids.take(i as int));
            assert(ids[i as int] == id@);
        }
        if wanted && !seen {
            out.push(i);
        }
        i = i + 1;
    }
    Ok(out)
}

/// The report id a changeset signal belongs to: that of the first package
/// whose record id or report id is the signal's package id, the signal's
/// package id itself when none is.
pub open spec fn signal_report_id(packages: Seq<DependentPackage>, signal: Seq<char>) -> Seq<char>
    decreases packages.len(),
{
    if packages.len() == 0 {
        signal
    } else if packages[0].record_id@ == signal || report_id(packages[0]) == signal {
        report_id(packages[0])
    } else {
        signal_report_id(packages.drop_first(), signal)
    }
}

/// Maps the package id of a changeset signal to the id the report uses.
pub fn report_package_id_for_signal(packages: &[DependentPackage], signal_package_id: String) -> (r: String)
    ensures
        r@ == signal_report_id(packages@, signal_package_id@),
{
    let mut i: usize = 0;
    assert(packages@.skip(0) =~= packages@);
    while i < packages.len()
        invariant
            i <= packages@.len(),
            signal_report_id(packages@, signal_package_id@) == signal_report_id(packages@.skip(i as int), signal_package_id@),
        decreases packages@.len() - i,
    {
        let id = preferred_report_package_id(&packages[i]);
        proof {
            assert(packages@.skip(i as int)[0] == packages@[i as int]);
            assert(packages@.skip(i as int).drop_first() =~= packages@.skip(i + 1));
        }
        if str_eq(packages[i].record_id.as_str(), signal_package_id.as_str()) || str_eq(id.as_str(), signal_package_id.as_str()) {
            return id;
        }
        i = i + 1;
    }
    signal_package_id
}

/// A package of a change analysis: its files that changed and the analysis warnings about it.
pub struct AnalyzedPackageChanges {
    pub package_id: String,
    pub package_name: String,
    pub ecosystem: Ecosystem,
    pub changed_files: Vec<String>,
    pub warnings: Vec<String>,
}

/// Classifies one package of a single change analysis, which knows of no
/// release and no pending changeset: the action is always to create one.
pub fn analysis_package_classification(
    package: AnalyzedPackageChanges,
    findings: Vec<ClassificationFinding>,
    detection_level: DetectionLevel,
) -> (p: PackageClassification)
    ensures
        p.package_id == package.package_id,
        p.package_name == package.package_name,
        p.ecosystem == package.ecosystem,
        p.release_owner is None,
        p.comparisons@.len() == 0,
        is_ensured_findings(p.findings@, findings@, package.package_id@, package.ecosystem, detection_level, package.changed_files@),
        is_recommendation(p.decision, p.findings@, package.changed_files@.len() > 0, false),
        p.recommendation == p.decision.proposed_changeset_bump,
        p.summary@ == summary_text(p.decision, p.findings@),
        p.existing_changesets@.len() == 0,
        p.action == ChangesetAction::Create,
        p.warnings == package.warnings,
{
    let mut findings = findings;
    ensure_unclassified_finding(
        package.package_id.as_str(),
        package.ecosystem,
        detection_level,
        package.changed_files.as_slice(),
        &mut findings,
    );
    let decision = build_recommendation(findings.as_slice(), package.changed_files.len() > 0, false);
    let summary = recommendation_summary(&decision, findings.as_slice());
    PackageClassification {
        package_id: package.package_id,
        package_name: package.package_name,
        ecosystem: package.ecosystem,
        release_owner: None,
        comparisons: Vec::new(),
        recommendation: decision.proposed_changeset_bump,
        decision,
        summary,
        findings,
        existing_changesets: Vec::new(),
        action: ChangesetAction::Create,
        warnings: package.warnings,
    }
}

/// The warnings of every package, in order.
pub open spec fn all_package_warnings(ps: Seq<PackageClassification>) -> Seq<Seq<char>>
    decreases ps.len(),
{
    if ps.len() == 0 {
        seq![]
    } else {
        all_package_warnings(ps.drop_last()) + views(ps.last().warnings@)
    }
}

/// The classification report of a single change analysis over the given
/// package classifications: the comparison is the analysis's own range (the
/// base revision, `HEAD` when it has none, against the head revision or the
/// working tree); the recommendation is the highest of the packages'; with
/// public propagation the dependents of public changes are raised (and the
/// packages ordered by id); the warnings are the analysis's, then each package's.
pub fn classification_report(
    base_revision: Option<String>,
    head_revision: Option<String>,
    analysis_warnings: Vec<String>,
    packages: Vec<PackageClassification>,
    detection_level: DetectionLevel,
    dependency_propagation: DependencyPropagation,
    analyses: &[AnalyzedPackage],
    dependents: &[DependentPackage],
    edges: &[DependencyLink],
) -> (r: ChangeClassificationReport)
    ensures
        r.schema_version == 1,
        r.default_branch@ == (match base_revision { Some(b) => b@, None => "HEAD"@ }),
        r.candidate@ == (match head_revision { Some(h) => h@, None => "working tree"@ }),
        comparison_models(r.comparisons@) == seq![comparison_of(
            ComparisonKind::PullRequest,
            opt_text(base_revision),
            r.candidate@,
            ComparisonStatus::Analyzed,
            None,
        )],
        views(r.warnings@) == views(analysis_warnings@) + all_package_warnings(packages@),
        dependency_propagation != DependencyPropagation::Public ==> r.packages@ == packages@
            && r.recommendation == bump_of_rank(highest_rank(packages@)),
        dependency_propagation == DependencyPropagation::Public ==> ({
            let p = propagate_impacts(
                package_models(packages@),
                bump_of_rank(highest_rank(packages@)),
                public_impacts(analyses@, dependents@, edges@),
                detection_level,
            );
            &&& package_models(r.packages@) == stably_sorted(model_key(), p.0)
            &&& r.recommendation == p.1
        }),
{
    let mut warnings: Vec<String> = Vec::new();
    push_all(&mut warnings, analysis_warnings.as_slice());
    let mut i: usize = 0;
    while i < packages.len()
        invariant
            i <= packages@.len(),
            views(warnings@) == views(analysis_warnings@) + all_package_warnings(packages@.take(i as int)),
        decreases packages@.len() - i,
    {
        proof {
            assert(packages@.take(i + 1).drop_last() =~= packages@.take(i as int));
        }
        push_all(&mut warnings, packages[i].warnings.as_slice());
        proof {
            assert(views(warnings@) =~= views(analysis_warnings@) + all_package_warnings(packages@.take(i + 1)));
        }
        i = i + 1;
    }
    assert(packages@.take(packages@.len() as int) =~= packages@);
    let mut recommendation = highest_recommendation(packages.as_slice());
    let mut packages = packages;
    if dependency_propagation == DependencyPropagation::Public {
        propagate_public_dependency_impacts(analyses, dependents, edges, detection_level, &mut packages, &mut recommendation);
    }
    let default_branch = match &base_revision {
        Some(b) => b.clone(),
        None => "HEAD".to_string(),
    };
    let candidate = match &head_revision {
        Some(h) => h.clone(),
        None => "working tree".to_string(),
    };
    let mut comparisons: Vec<ResolvedComparison> = Vec::new();
    comparisons.push(ResolvedComparison {
        kind: ComparisonKind::PullRequest,
        base: base_revision,
        head: candidate.clone(),
        status: ComparisonStatus::Analyzed,
        note: None,
    });
    assert(comparison_models(comparisons@) =~= seq![comparison_of(
        ComparisonKind::PullRequest,
        opt_text(base_revision),
        candidate@,
        ComparisonStatus::Analyzed,
        None,
    )]);
    ChangeClassificationReport {
        schema_version: 1,
        default_branch,
        candidate,
        comparisons,
        recommendation,
        packages,
        warnings,
    }
}

/// The warnings of a report are sorted, each appears once, and each warning
/// given appears: no warning is lost and none is repeated.
pub proof fn lemma_report_warnings_sorted_and_complete(ws: Seq<String>)
    ensures
        forall|i: int, j: int| 0 <= i < j < report_warnings(ws).len()
            ==> lex_lt(#[trigger] report_warnings(ws)[i]@, #[trigger] report_warnings(ws)[j]@),
        forall|i: int| 0 <= i < report_warnings(ws).len() ==> ws.contains(#[trigger] report_warnings(ws)[i]),
        forall|k: int| 0 <= k < ws.len() ==> exists|i: int| 0 <= i < report_warnings(ws).len()
            && (#[trigger] report_warnings(ws)[i])@ == (#[trigger] ws[k])@,
{
    broadcast use vstd::seq_lib::group_to_multiset_ensures;
    let key = key_of::<String>();
    let sorted = stably_sorted(key, ws);
    let r = report_warnings(ws);
    lemma_stably_sorted_ordered(key, ws);
    lemma_stably_sorted_permutes(key, ws);
    lemma_dedup_strictly_increasing(key, sorted);
    lemma_dedup_keeps_keys(key, sorted);
    assert forall|i: int, j: int| 0 <= i < j < r.len() implies lex_lt(#[trigger] r[i]@, #[trigger] r[j]@) by {
        assert(key_lt(key(r[i]), key(r[j])));
        lemma_lex_irreflexive(Seq::<char>::empty());
    }
    assert forall|i: int| 0 <= i < r.len() implies ws.contains(#[trigger] r[i]) by {
        assert(sorted.contains(r[i]));
        assert(sorted.to_multiset().count(r[i]) > 0);
        assert(ws.to_multiset().count(r[i]) > 0);
    }
    assert forall|k: int| 0 <= k < ws.len() implies exists|i: int| 0 <= i < r.len()
        && (#[trigger] r[i])@ == (#[trigger] ws[k])@ by {
        assert(ws.to_multiset().count(ws[k]) > 0);
        assert(sorted.to_multiset().count(ws[k]) > 0);
        assert(sorted.contains(ws[k]));
        let m = choose|m: int| 0 <= m < sorted.len() && sorted[m] == ws[k];
        let i = choose|i: int| 0 <= i < r.len() && key(#[trigger] r[i]) == key(#[trigger] sorted[m]);
        assert(r[i]@ == ws[k]@);
    }
}

/// The reported positions increase, and no two of them hold the same id:
/// each selected package is reported once.
pub proof fn lemma_selection_reports_each_id_once(ids: Seq<Seq<char>>, selected: Seq<Seq<char>>, n: nat)
    requires
        n <= ids.len() <= usize::MAX,
    ensures
        forall|a: int, b: int| 0 <= a < b < chosen_positions(ids, selected, n).len() ==>
            #[trigger] chosen_positions(ids, selected, n)[a] < #[trigger] chosen_positions(ids, selected, n)[b]
            && ids[chosen_positions(ids, selected, n)[a] as int] != ids[chosen_positions(ids, selected, n)[b] as int],
        forall|a: int| 0 <= a < chosen_positions(ids, selected, n).len()
            ==> (#[trigger] chosen_positions(ids, selected, n)[a]) < n
                && selected.contains(ids[chosen_positions(ids, selected, n)[a] as int]),
    decreases n,
{
    if n > 0 {
        lemma_selection_reports_each_id_once(ids, selected, (n - 1) as nat);
        let rest = chosen_positions(ids, selected, (n - 1) as nat);
        let p = chosen_positions(ids, selected, n);
        if chosen_at(ids, selected, n - 1) {
            assert forall|a: int, b: int| 0 <= a < b < p.len() implies p[a] < p[b] && ids[p[a] as int] != ids[p[b] as int] by {
                if b == p.len() - 1 {
                    assert(p[a] == rest[a]);
                    assert(p[b] == (n - 1) as usize);
                    assert(rest[a] < n - 1);
                    assert(ids.take(n - 1)[rest[a] as int] == ids[rest[a] as int]);
                } else {
                    assert(p[a] == rest[a] && p[b] == rest[b]);
                }
            }
            assert forall|a: int| 0 <= a < p.len() implies (#[trigger] p[a]) < n && selected.contains(ids[p[a] as int]) by {
                if a < rest.len() {
                    assert(p[a] == rest[a]);
                }
            }
        }
    }
}

/// The ids of the candidate classifications, in order.
pub open spec fn candidate_ids(ps: Seq<PackageClassification>) -> Seq<Seq<char>> {
    ps.map_values(|p: PackageClassification| p.package_id@)
}

fn classification_ids(ps: &Vec<PackageClassification>) -> (r: Vec<String>)
    ensures
        views(r@) == candidate_ids(ps@),
{
    let mut out: Vec<String> = Vec::new();
    let mut i: usize = 0;
    while i < ps.len()
        invariant
            i <= ps@.len(),
            views(out@) == candidate_ids(ps@.take(i as int)),
        decreases ps@.len() - i,
    {
        let ghost before = out@;
        let id = ps[i].package_id.clone();
        out.push(id);
        proof {
            assert(views(out@) =~= views(before).push(ps@[i as int].package_id@));
            assert(candidate_ids(ps@.take(i + 1)) =~= candidate_ids(ps@.take(i as int)).push(ps@[i as int].package_id@));
        }
        i = i + 1;
    }
    assert(ps@.take(ps@.len() as int) =~= ps@);
    out
}

/// The classifications a report keeps: of the candidates (one per
/// discovered package, in discovery order), those whose id was selected, the
/// first one for each id, so that each selected package is classified once.
/// Fails, as `select_report_packages` does, when a selected id matches no
/// candidate.
pub fn select_classifications(candidates: Vec<PackageClassification>, selected: &[String]) -> (r: Result<Vec<PackageClassification>, MonochangeError>)
    ensures
        match r {
            Ok(v) => {
                &&& unmatched_ids(selected@, candidate_ids(candidates@)).len() == 0
                &&& v@ == chosen_positions(candidate_ids(candidates@), views(selected@), candidates@.len())
                    .map_values(|p: usize| candidates@[p as int])
                &&& forall|a: int, b: int| 0 <= a < b < v@.len()
                    ==> (#[trigger] v@[a]).package_id@ != (#[trigger] v@[b]).package_id@
            },
            Err(e) => unmatched_ids(selected@, candidate_ids(candidates@)).len() > 0
                && e == MonochangeError::Config(e->Config_0)
                && e->Config_0@ == unmatched_message(selected@, candidate_ids(candidates@)),
        },
{
    let ids = classification_ids(&candidates);
    assert(views(ids@) == candidate_ids(candidates@));
    let positions = match select_report_packages(ids.as_slice(), selected) {
        Ok(p) => p,
        Err(e) => return Err(e),
    };
    let total = candidates.len();
    let ghost orig = candidates@;
    let ghost cids = candidate_ids(orig);
    let ghost chosen = chosen_positions(cids, views(selected@), orig.len());
    proof {
        lemma_selection_reports_each_id_once(cids, views(selected@), orig.len());
    }
    let mut rest = candidates;
    let mut out: Vec<PackageClassification> = Vec::new();
    let mut i: usize = 0;
    let mut k: usize = 0;
    while rest.len() > 0
        invariant
            positions@ == chosen,
            total == orig.len(),
            cids == candidate_ids(orig),
            i + rest@.len() == orig.len(),
            rest@ == orig.skip(i as int),
            k <= positions@.len(),
            forall|a: int| 0 <= a < k ==> (#[trigger] positions@[a]) < i,
            forall|a: int| k <= a < positions@.len() ==> (#[trigger] positions@[a]) >= i,
            out@ == positions@.take(k as int).map_values(|p: usize| orig[p as int]),
            forall|a: int, b: int| 0 <= a < b < chosen.len() ==> #[trigger] chosen[a] < #[trigger] chosen[b],
            forall|a: int| 0 <= a < chosen.len() ==> (#[trigger] chosen[a]) < orig.len(),
        decreases rest@.len(),
    {
        let c = rest.remove(0);
        assert(c == orig[i as int]);
        if k < positions.len() && positions[k] == i {
            let ghost before = out@;
            out.push(c);
            proof {
                assert(positions@.take(k + 1) =~= positions@.take(k as int).push(positions@[k as int]));
                assert(out@ =~= positions@.take(k + 1).map_values(|p: usize| orig[p as int]));
                assert forall|a: int| k + 1 <= a < positions@.len() implies (#[trigger] positions@[a]) >= i + 1 by {
                    assert(chosen[k as int] < chosen[a]);
                }
            }
            k = k + 1;
        } else {
            proof {
                assert forall|a: int| k <= a < positions@.len() implies (#[trigger] positions@[a]) >= i + 1 by {
                    if a > k {
                        assert(chosen[k as int] < chosen[a]);
                    }
                }
            }
        }
        assert(rest@ =~= orig.skip(i + 1));
        i = i + 1;
    }
    proof {
        assert(i == orig.len());
        if k < positions@.len() {
            assert(positions@[k as int] < orig.len());
        }
        assert(positions@.take(k as int) =~= positions@);
        assert forall|a: int, b: int| 0 <= a < b < out@.len() implies (#[trigger] out@[a]).package_id@ != (#[trigger] out@[b]).package_id@ by {
            assert(out@[a] == orig[chosen[a] as int]);
            assert(out@[b] == orig[chosen[b] as int]);
            assert(cids[chosen[a] as int] != cids[chosen[b] as int]);
        }
    }
    Ok(out)
}

/// The merge base that `git merge-base` printed: its output trimmed, or none
/// when git failed or printed nothing but whitespace.
pub fn merge_base_from_output(output: Result<String, MonochangeError>) -> (r: Option<String>)
    ensures
        match output {
            Ok(text) => if trim(text@).len() > 0 {
                r matches Some(base) && base@ == trim(text@)
            } else {
                r is None
            },
            Err(_) => r is None,
        },
{
    match output {
        Ok(text) => {
            let trimmed = trim_str(text.as_str());
            if trimmed.as_str().is_empty() {
                None
            } else {
                Some(trimmed)
            }
        },
        Err(_) => None,
    }
}

} // verus!
