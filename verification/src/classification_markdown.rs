use vstd::prelude::*;

use crate::classification_report::{ChangeClassificationReport, PackageClassification, ReleaseOwner, ResolvedComparison};
use crate::classification_text::{bool_text, classification_text, join_text_lines, kind_names, push_line};
use crate::classify::{
    action_text, analysis_completeness_name, bump_name, changeset_action_name, classification_confidence_name,
    comparison_kind_name, comparison_kind_text, comparison_status_name, comparison_status_text,
    compatibility_impact_name, completeness_text, confidence_text, impact_text,
};
use crate::cli_help::join_lines;
use crate::model::ecosystem_name;
use crate::readiness::{join, lemma_join_push};
use crate::recommendation::{ClassificationFinding, ExistingChangeset};
use crate::text::{decimal, push_decimal, push_str, views};

verus! {

broadcast use vstd::string::group_string_axioms;

/// `text` as a code span.
pub open spec fn code(text: Seq<char>) -> Seq<char> {
    "`"@ + text + "`"@
}

/// The Markdown line of one comparison.
pub open spec fn md_comparison_line(c: ResolvedComparison) -> Seq<char> {
    "- "@ + code(comparison_kind_text(c.kind)) + ": "@ + code(
        match c.base {
            Some(b) => b@,
            None => "unavailable"@,
        },
    ) + " to "@ + code(c.head@) + " ("@ + comparison_status_text(c.status) + ")"@
}

/// The evidence of a finding: its analyzer (with the engine it ran, if any)
/// and version, then its coverage, with the note and any fallback reason.
pub open spec fn md_evidence(f: ClassificationFinding) -> Seq<char> {
    "Evidence: "@ + f.analyzer.id@ + (match f.analyzer.engine {
        Some(e) => " via "@ + e@,
        None => Seq::empty(),
    }) + " "@ + f.analyzer.version@ + "; coverage "@ + completeness_text(f.coverage.completeness) + ": "@
        + f.coverage.note@ + match f.coverage.fallback_reason {
        Some(reason) => "; fallback: "@ + reason@,
        None => Seq::empty(),
    }
}

/// The Markdown lines of one finding: the finding, then its evidence indented below it.
pub open spec fn md_finding_line(f: ClassificationFinding) -> Seq<char> {
    "- "@ + code(f.id@) + ": "@ + f.summary@ + " ("@ + code(f.location@) + ", impact "@ + code(impact_text(f.impact))
        + ", bump "@ + code(bump_name(f.bump)) + ", confidence "@ + code(confidence_text(f.confidence))
        + ", comparisons "@ + code(join(kind_names(f.comparisons@), ", "@)) + ")\n  - "@ + md_evidence(f)
}

fn push_md_evidence(s: &mut String, f: &ClassificationFinding)
    ensures
        final(s)@ == old(s)@ + md_evidence(*f),
{
    push_str(s, "Evidence: ");
    push_str(s, f.analyzer.id.as_str());
    if let Some(e) = &f.analyzer.engine {
        push_str(s, " via ");
        push_str(s, e.as_str());
    }
    push_str(s, " ");
    push_str(s, f.analyzer.version.as_str());
    push_str(s, "; coverage ");
    push_str(s, analysis_completeness_name(f.coverage.completeness));
    push_str(s, ": ");
    push_str(s, f.coverage.note.as_str());
    if let Some(reason) = &f.coverage.fallback_reason {
        push_str(s, "; fallback: ");
        push_str(s, reason.as_str());
    }
    proof {
        reveal_strlit("Evidence: ");
        reveal_strlit(" via ");
        reveal_strlit(" ");
        reveal_strlit("; coverage ");
        reveal_strlit(": ");
        reveal_strlit("; fallback: ");
    }
    assert(s@ =~= old(s)@ + md_evidence(*f));
}

/// The Markdown line of one pending changeset.
pub open spec fn md_changeset_line(c: ExistingChangeset) -> Seq<char> {
    "  - "@ + code(c.path@) + ": "@ + code(
        match c.bump {
            Some(b) => bump_name(b),
            None => "custom"@,
        },
    )
}

pub open spec fn md_owner_lines(o: Option<ReleaseOwner>) -> Seq<Seq<char>> {
    match o {
        Some(owner) => seq![
            "- Release owner: "@ + code(owner.kind@) + " "@ + code(owner.id@),
            "- Latest release: "@ + code(
                match owner.latest_release {
                    Some(l) => l@,
                    None => "none"@,
                },
            ),
        ],
        None => seq![],
    }
}

pub open spec fn md_changeset_lines(cs: Seq<ExistingChangeset>) -> Seq<Seq<char>> {
    if cs.len() == 0 {
        seq![]
    } else {
        seq!["- Existing changesets:"@] + cs.map_values(|c: ExistingChangeset| md_changeset_line(c))
    }
}

/// A blank line and at most ten findings, when there are findings; then a
/// count of the findings not shown.
pub open spec fn md_finding_lines(fs: Seq<ClassificationFinding>) -> Seq<Seq<char>> {
    let shown = if fs.len() <= 10 { fs } else { fs.take(10) };
    (if fs.len() == 0 {
        seq![]
    } else {
        seq![Seq::<char>::empty()] + shown.map_values(|f: ClassificationFinding| md_finding_line(f))
    }) + if fs.len() > 10 {
        seq!["- "@ + decimal((fs.len() - 10) as nat) + " more findings"@]
    } else {
        seq![]
    }
}

/// The first lines of a package: its id, ecosystem, decision and summary.
/// The lines of the impact, confidence, completeness and action are in lower
/// case throughout.
pub open spec fn md_package_head(p: PackageClassification) -> Seq<Seq<char>> {
    seq![
        "### "@ + code(p.package_id@),
        Seq::<char>::empty(),
        "- Ecosystem: "@ + code(ecosystem_name(p.ecosystem)),
        "- Proposed changeset bump: "@ + code(bump_name(p.decision.proposed_changeset_bump)),
        "- Enforceable minimum: "@ + code(bump_name(p.decision.enforceable_minimum)),
        "- Release floor: "@ + code(bump_name(p.decision.release_floor)),
        "- compatibility impact: "@ + code(impact_text(p.decision.compatibility_impact)),
        "- confidence: "@ + code(confidence_text(p.decision.confidence)),
        "- completeness: "@ + code(completeness_text(p.decision.completeness)),
        "- Review required: "@ + code(bool_text(p.decision.review_required)),
        "- changeset action: "@ + code(action_text(p.action)),
        "- Summary: "@ + p.summary@,
    ]
}

/// The Markdown lines of one package.
pub open spec fn md_package_lines(p: PackageClassification) -> Seq<Seq<char>> {
    md_package_head(p) + md_owner_lines(p.release_owner) + md_changeset_lines(p.existing_changesets@) + seq![
        "- Findings: "@ + decimal(p.findings@.len()),
    ] + md_finding_lines(p.findings@) + seq![Seq::<char>::empty()]
}

pub open spec fn md_packages_lines(ps: Seq<PackageClassification>) -> Seq<Seq<char>>
    decreases ps.len(),
{
    if ps.len() == 0 {
        seq![]
    } else {
        md_packages_lines(ps.drop_last()) + md_package_lines(ps.last())
    }
}

/// All lines of the Markdown classification report.
pub open spec fn markdown_report_lines(r: ChangeClassificationReport) -> Seq<Seq<char>> {
    seq![
        "# Change classification"@,
        Seq::<char>::empty(),
        "- Schema version: "@ + code(decimal(r.schema_version as nat)),
        "- Default branch: "@ + code(r.default_branch@),
        "- Candidate: "@ + code(r.candidate@),
        "- Recommended bump: "@ + code(bump_name(r.recommendation)),
        "- Packages analyzed: "@ + decimal(r.packages@.len()),
        Seq::<char>::empty(),
        "## Comparisons"@,
        Seq::<char>::empty(),
    ] + r.comparisons@.map_values(|c: ResolvedComparison| md_comparison_line(c)) + seq![Seq::<char>::empty()]
        + (if r.packages@.len() == 0 {
        seq!["No package changes were detected for the pull request comparison."@]
    } else {
        seq!["## Packages"@, Seq::<char>::empty()] + md_packages_lines(r.packages@)
    }) + (if r.warnings@.len() == 0 {
        seq![]
    } else {
        seq!["## Warnings"@, Seq::<char>::empty()] + r.warnings@.map_values(|w: String| "- "@ + w@)
    })
}

/// The Markdown classification report.
pub open spec fn classification_markdown(r: ChangeClassificationReport) -> Seq<char> {
    join_lines(markdown_report_lines(r))
}

fn push_code(s: &mut String, text: &str)
    ensures
        final(s)@ == old(s)@ + code(text@),
{
    push_str(s, "`");
    push_str(s, text);
    push_str(s, "`");
}

fn labelled(label: &str, value: &str) -> (r: String)
    ensures
        r@ == label@ + code(value@),
{
    let mut l = String::new();
    push_str(&mut l, label);
    push_code(&mut l, value);
    l
}

fn md_comparison_text(c: &ResolvedComparison) -> (r: String)
    ensures
        r@ == md_comparison_line(*c),
{
    let mut s = String::new();
    push_str(&mut s, "- ");
    push_code(&mut s, comparison_kind_name(c.kind));
    push_str(&mut s, ": ");
    match &c.base {
        Some(b) => push_code(&mut s, b.as_str()),
        None => push_code(&mut s, "unavailable"),
    }
    push_str(&mut s, " to ");
    push_code(&mut s, c.head.as_str());
    push_str(&mut s, " (");
    push_str(&mut s, comparison_status_name(c.status));
    push_str(&mut s, ")");
    s
}

fn md_finding_text(f: &ClassificationFinding) -> (r: String)
    ensures
        r@ == md_finding_line(*f),
{
    let mut s = String::new();
    push_str(&mut s, "- ");
    push_code(&mut s, f.id.as_str());
    push_str(&mut s, ": ");
    push_str(&mut s, f.summary.as_str());
    push_str(&mut s, " (");
    push_code(&mut s, f.location.as_str());
    push_str(&mut s, ", impact ");
    push_code(&mut s, compatibility_impact_name(f.impact));
    push_str(&mut s, ", bump ");
    push_code(&mut s, f.bump.label());
    push_str(&mut s, ", confidence ");
    push_code(&mut s, classification_confidence_name(f.confidence));
    push_str(&mut s, ", comparisons ");
    let ghost names = kind_names(f.comparisons@);
    let mut joined = String::new();
    let mut i: usize = 0;
    while i < f.comparisons.len()
        invariant
            i <= f.comparisons@.len(),
            names == kind_names(f.comparisons@),
            joined@ == join(names.take(i as int), ", "@),
        decreases f.comparisons@.len() - i,
    {
        proof {
            lemma_join_push(names.take(i as int), names[i as int], ", "@);
            assert(names.take(i + 1) =~= names.take(i as int).push(names[i as int]));
        }
        if i > 0 {
            push_str(&mut joined, ", ");
        }
        push_str(&mut joined, comparison_kind_name(f.comparisons[i]));
        i = i + 1;
    }
    assert(names.take(f.comparisons@.len() as int) =~= names);
    push_code(&mut s, joined.as_str());
    push_str(&mut s, ")\n  - ");
    push_md_evidence(&mut s, f);
    s
}

fn push_md_changesets(lines: &mut Vec<String>, cs: &[ExistingChangeset])
    ensures
        views(final(lines)@) == views(old(lines)@) + md_changeset_lines(cs@),
{
    if cs.len() == 0 {
        assert(views(lines@) =~= views(old(lines)@) + md_changeset_lines(cs@));
        return;
    }
    push_line(lines, "- Existing changesets:".to_string());
    let ghost start = views(lines@);
    let mut i: usize = 0;
    while i < cs.len()
        invariant
            i <= cs@.len(),
            views(lines@) == start + cs@.take(i as int).map_values(|c: ExistingChangeset| md_changeset_line(c)),
        decreases cs@.len() - i,
    {
        let mut l = String::new();
        push_str(&mut l, "  - ");
        push_code(&mut l, cs[i].path.as_str());
        push_str(&mut l, ": ");
        match cs[i].bump {
            Some(b) => push_code(&mut l, b.label()),
            None => push_code(&mut l, "custom"),
        }
        push_line(lines, l);
        i = i + 1;
        assert(views(lines@) =~= start + cs@.take(i as int).map_values(|c: ExistingChangeset| md_changeset_line(c)));
    }
    assert(cs@.take(cs@.len() as int) =~= cs@);
    assert(views(lines@) =~= views(old(lines)@) + md_changeset_lines(cs@));
}

fn push_md_findings(lines: &mut Vec<String>, fs: &[ClassificationFinding])
    ensures
        views(final(lines)@) == views(old(lines)@) + md_finding_lines(fs@),
{
    if fs.len() > 0 {
        push_line(lines, String::new());
    }
    let shown: usize = if fs.len() <= 10 { fs.len() } else { 10 };
    let ghost start = views(lines@);
    let mut i: usize = 0;
    while i < shown
        invariant
            i <= shown,
            shown <= fs@.len(),
            shown == (if fs@.len() <= 10 { fs@.len() } else { 10 }),
            views(lines@) == start + fs@.take(i as int).map_values(|f: ClassificationFinding| md_finding_line(f)),
        decreases shown - i,
    {
        let l = md_finding_text(&fs[i]);
        push_line(lines, l);
        i = i + 1;
        assert(views(lines@) =~= start + fs@.take(i as int).map_values(|f: ClassificationFinding| md_finding_line(f)));
    }
    if fs.len() > 10 {
        let mut l = String::new();
        push_str(&mut l, "- ");
        push_decimal(&mut l, (fs.len() - 10) as u128);
        push_str(&mut l, " more findings");
        push_line(lines, l);
    }
    proof {
        if fs@.len() <= 10 {
            assert(fs@.take(fs@.len() as int) =~= fs@);
        }
    }
    assert(views(lines@) =~= views(old(lines)@) + md_finding_lines(fs@));
}

fn push_md_package_head(lines: &mut Vec<String>, p: &PackageClassification)
    ensures
        views(final(lines)@) == views(old(lines)@) + md_package_head(*p),
{
    let ghost start = views(lines@);
    let mut l = String::new();
    push_str(&mut l, "### ");
    push_code(&mut l, p.package_id.as_str());
    push_line(lines, l);
    push_line(lines, String::new());
    push_line(lines, labelled("- Ecosystem: ", p.ecosystem.as_str()));
    push_line(lines, labelled("- Proposed changeset bump: ", p.decision.proposed_changeset_bump.label()));
    push_line(lines, labelled("- Enforceable minimum: ", p.decision.enforceable_minimum.label()));
    push_line(lines, labelled("- Release floor: ", p.decision.release_floor.label()));
    push_line(lines, labelled("- compatibility impact: ", compatibility_impact_name(p.decision.compatibility_impact)));
    push_line(lines, labelled("- confidence: ", classification_confidence_name(p.decision.confidence)));
    push_line(lines, labelled("- completeness: ", analysis_completeness_name(p.decision.completeness)));
    push_line(lines, labelled("- Review required: ", if p.decision.review_required { "true" } else { "false" }));
    push_line(lines, labelled("- changeset action: ", changeset_action_name(p.action)));
    let mut l = String::new();
    push_str(&mut l, "- Summary: ");
    push_str(&mut l, p.summary.as_str());
    push_line(lines, l);
    assert(views(lines@) =~= start + md_package_head(*p));
}

fn push_md_package(lines: &mut Vec<String>, p: &PackageClassification)
    ensures
        views(final(lines)@) == views(old(lines)@) + md_package_lines(*p),
{
    let ghost start = views(lines@);
    push_md_package_head(lines, p);
    let ghost after_fixed = views(lines@);
    match &p.release_owner {
        Some(owner) => {
            let mut l = String::new();
            push_str(&mut l, "- Release owner: ");
            push_code(&mut l, owner.kind.as_str());
            push_str(&mut l, " ");
            push_code(&mut l, owner.id.as_str());
            push_line(lines, l);
            match &owner.latest_release {
                Some(r) => push_line(lines, labelled("- Latest release: ", r.as_str())),
                None => push_line(lines, labelled("- Latest release: ", "none")),
            }
        },
        None => {},
    }
    let ghost after_owner = views(lines@);
    assert(after_owner =~= after_fixed + md_owner_lines(p.release_owner));
    push_md_changesets(lines, p.existing_changesets.as_slice());
    let mut l = String::new();
    push_str(&mut l, "- Findings: ");
    push_decimal(&mut l, p.findings.len() as u128);
    push_line(lines, l);
    push_md_findings(lines, p.findings.as_slice());
    push_line(lines, String::new());
    assert(views(lines@) =~= start + md_package_lines(*p));
}

/// Renders a change classification as Markdown.
pub fn render_markdown_report(report: &ChangeClassificationReport) -> (r: String)
    ensures
        r@ == classification_markdown(*report),
{
    let mut lines: Vec<String> = Vec::new();
    push_line(&mut lines, "# Change classification".to_string());
    push_line(&mut lines, String::new());
    let mut l = String::new();
    push_str(&mut l, "- Schema version: ");
    let mut n = String::new();
    push_decimal(&mut n, report.schema_version as u128);
    push_code(&mut l, n.as_str());
    push_line(&mut lines, l);
    push_line(&mut lines, labelled("- Default branch: ", report.default_branch.as_str()));
    push_line(&mut lines, labelled("- Candidate: ", report.candidate.as_str()));
    push_line(&mut lines, labelled("- Recommended bump: ", report.recommendation.label()));
    let mut l = String::new();
    push_str(&mut l, "- Packages analyzed: ");
    push_decimal(&mut l, report.packages.len() as u128);
    push_line(&mut lines, l);
    push_line(&mut lines, String::new());
    push_line(&mut lines, "## Comparisons".to_string());
    push_line(&mut lines, String::new());
    let ghost head = views(lines@);
    let mut i: usize = 0;
    while i < report.comparisons.len()
        invariant
            i <= report.comparisons@.len(),
            views(lines@) == head + report.comparisons@.take(i as int).map_values(|c: ResolvedComparison| md_comparison_line(c)),
        decreases report.comparisons@.len() - i,
    {
        let l = md_comparison_text(&report.comparisons[i]);
        push_line(&mut lines, l);
        i = i + 1;
        assert(views(lines@) =~= head + report.comparisons@.take(i as int).map_values(|c: ResolvedComparison| md_comparison_line(c)));
    }
    assert(report.comparisons@.take(report.comparisons@.len() as int) =~= report.comparisons@);
    push_line(&mut lines, String::new());
    if report.packages.len() == 0 {
        push_line(&mut lines, "No package changes were detected for the pull request comparison.".to_string());
    } else {
        push_line(&mut lines, "## Packages".to_string());
        push_line(&mut lines, String::new());
        let ghost pstart = views(lines@);
        let mut k: usize = 0;
        while k < report.packages.len()
            invariant
                k <= report.packages@.len(),
                views(lines@) == pstart + md_packages_lines(report.packages@.take(k as int)),
            decreases report.packages@.len() - k,
        {
            proof {
                assert(report.packages@.take(k + 1).drop_last() =~= report.packages@.take(k as int));
                assert(report.packages@.take(k + 1).last() == report.packages@[k as int]);
            }
            push_md_package(&mut lines, &report.packages[k]);
            k = k + 1;
            assert(views(lines@) =~= pstart + md_packages_lines(report.packages@.take(k as int)));
        }
        assert(report.packages@.take(report.packages@.len() as int) =~= report.packages@);
    }
    if report.warnings.len() > 0 {
        push_line(&mut lines, "## Warnings".to_string());
        push_line(&mut lines, String::new());
        let ghost wstart = views(lines@);
        let mut k: usize = 0;
        while k < report.warnings.len()
            invariant
                k <= report.warnings@.len(),
                views(lines@) == wstart + report.warnings@.take(k as int).map_values(|w: String| "- "@ + w@),
            decreases report.warnings@.len() - k,
        {
            let mut l = String::new();
            push_str(&mut l, "- ");
            push_str(&mut l, report.warnings[k].as_str());
            push_line(&mut lines, l);
            k = k + 1;
            assert(views(lines@) =~= wstart + report.warnings@.take(k as int).map_values(|w: String| "- "@ + w@));
        }
        assert(report.warnings@.take(report.warnings@.len() as int) =~= report.warnings@);
    }
    assert(views(lines@) =~= markdown_report_lines(*report));
    join_text_lines(&lines)
}

} // verus!
