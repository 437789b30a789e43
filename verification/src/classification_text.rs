use vstd::prelude::*;

use crate::classification_report::{ChangeClassificationReport, PackageClassification, ReleaseOwner, ResolvedComparison};
use crate::classify::{
    action_text, bump_name, changeset_action_name, classification_confidence_name,
    comparison_kind_name, comparison_kind_text, comparison_status_name, comparison_status_text,
    compatibility_impact_name, completeness_text, analysis_completeness_name, confidence_text,
    impact_text, plain_text_fragment, without_char, ComparisonKind,
};
use crate::cli_help::{join_lines, lemma_join_front};
use crate::model::ecosystem_name;
use crate::readiness::{join, lemma_join_push};
use crate::recommendation::{ClassificationFinding, ExistingChangeset};
use crate::text::{decimal, push_decimal, push_str, views};

verus! {

broadcast use vstd::string::group_string_axioms;

pub open spec fn bool_text(b: bool) -> Seq<char> {
    if b { "true"@ } else { "false"@ }
}

/// The line of one comparison.
pub open spec fn comparison_line(c: ResolvedComparison) -> Seq<char> {
    "  "@ + comparison_kind_text(c.kind) + ": "@ + match c.base {
        Some(b) => b@,
        None => "unavailable"@,
    } + " to "@ + c.head@ + " ("@ + comparison_status_text(c.status) + ")"@
}

/// The names of a finding's comparisons.
pub open spec fn kind_names(ks: Seq<ComparisonKind>) -> Seq<Seq<char>> {
    ks.map_values(|k: ComparisonKind| comparison_kind_text(k))
}

/// The line of one finding.
pub open spec fn finding_line(f: ClassificationFinding) -> Seq<char> {
    "  - "@ + f.id@ + ": "@ + without_char(f.summary@, '`') + " ("@ + f.location@ + ", impact "@ + impact_text(f.impact)
        + ", bump "@ + bump_name(f.bump) + ", confidence "@ + confidence_text(f.confidence) + ", comparisons "@
        + join(kind_names(f.comparisons@), ", "@) + ")"@
}

/// The line of one pending changeset.
pub open spec fn changeset_line(c: ExistingChangeset) -> Seq<char> {
    "    "@ + c.path@ + ": "@ + match c.bump {
        Some(b) => bump_name(b),
        None => "custom"@,
    }
}

/// The lines that describe a package's release owner.
pub open spec fn owner_lines(o: Option<ReleaseOwner>) -> Seq<Seq<char>> {
    match o {
        Some(owner) => seq![
            "  Release owner: "@ + owner.kind@ + " "@ + owner.id@,
            "  Latest release: "@ + match owner.latest_release {
                Some(l) => l@,
                None => "none"@,
            },
        ],
        None => seq![],
    }
}

/// The lines of a package's pending changesets.
pub open spec fn changeset_lines(cs: Seq<ExistingChangeset>) -> Seq<Seq<char>> {
    if cs.len() == 0 {
        seq![]
    } else {
        seq!["  Existing changesets:"@] + cs.map_values(|c: ExistingChangeset| changeset_line(c))
    }
}

/// The lines of a package's findings: at most ten, then a count of the rest.
pub open spec fn finding_lines(fs: Seq<ClassificationFinding>) -> Seq<Seq<char>> {
    let shown = if fs.len() <= 10 { fs } else { fs.take(10) };
    shown.map_values(|f: ClassificationFinding| finding_line(f)) + if fs.len() > 10 {
        seq!["  - "@ + decimal((fs.len() - 10) as nat) + " more findings"@]
    } else {
        seq![]
    }
}

/// The lines of one package.
pub open spec fn package_lines(p: PackageClassification) -> Seq<Seq<char>> {
    seq![
        Seq::<char>::empty(),
        p.package_id@,
        "  Ecosystem: "@ + ecosystem_name(p.ecosystem),
        "  Proposed changeset bump: "@ + bump_name(p.decision.proposed_changeset_bump),
        "  Enforceable minimum: "@ + bump_name(p.decision.enforceable_minimum),
        "  Release floor: "@ + bump_name(p.decision.release_floor),
        "  Compatibility impact: "@ + impact_text(p.decision.compatibility_impact),
        "  Confidence: "@ + confidence_text(p.decision.confidence),
        "  completeness: "@ + completeness_text(p.decision.completeness),
        "  Review required: "@ + bool_text(p.decision.review_required),
        "  changeset action: "@ + action_text(p.action),
        "  Summary: "@ + without_char(p.summary@, '`'),
    ] + owner_lines(p.release_owner) + changeset_lines(p.existing_changesets@)
        + seq!["  Findings: "@ + decimal(p.findings@.len())] + finding_lines(p.findings@)
}

pub open spec fn packages_lines(ps: Seq<PackageClassification>) -> Seq<Seq<char>>
    decreases ps.len(),
{
    if ps.len() == 0 { seq![] } else { packages_lines(ps.drop_last()) + package_lines(ps.last()) }
}

/// All lines of the plain-text classification report.
pub open spec fn text_report_lines(r: ChangeClassificationReport) -> Seq<Seq<char>> {
    seq![
        "Change classification"@,
        Seq::<char>::empty(),
        "Schema version: "@ + decimal(r.schema_version as nat),
        "Default branch: "@ + r.default_branch@,
        "Candidate: "@ + r.candidate@,
        "Recommended bump: "@ + bump_name(r.recommendation),
        "Packages analyzed: "@ + decimal(r.packages@.len()),
        Seq::<char>::empty(),
        "Comparisons"@,
    ] + r.comparisons@.map_values(|c: ResolvedComparison| comparison_line(c))
        + (if r.packages@.len() == 0 {
            seq![Seq::<char>::empty(), "No package changes were detected for the pull request comparison."@]
        } else {
            seq![Seq::<char>::empty(), "Packages"@] + packages_lines(r.packages@)
        })
        + (if r.warnings@.len() == 0 {
            seq![]
        } else {
            seq![Seq::<char>::empty(), "Warnings"@] + r.warnings@.map_values(|w: String| "- "@ + without_char(w@, '`'))
        })
}

/// The plain-text classification report.
pub open spec fn classification_text(r: ChangeClassificationReport) -> Seq<char> {
    join_lines(text_report_lines(r))
}

pub(crate) fn push_line(lines: &mut Vec<String>, line: String)
    ensures
        views(final(lines)@) == views(old(lines)@).push(line@),
{
    lines.push(line);
    assert(views(lines@) =~= views(old(lines)@).push(line@));
}

fn comparison_text(c: &ResolvedComparison) -> (r: String)
    ensures
        r@ == comparison_line(*c),
{
    let mut s = String::new();
    push_str(&mut s, "  ");
    push_str(&mut s, comparison_kind_name(c.kind));
    push_str(&mut s, ": ");
    match &c.base {
        Some(b) => push_str(&mut s, b.as_str()),
        None => push_str(&mut s, "unavailable"),
    }
    push_str(&mut s, " to ");
    push_str(&mut s, c.head.as_str());
    push_str(&mut s, " (");
    push_str(&mut s, comparison_status_name(c.status));
    push_str(&mut s, ")");
    assert(s@ =~= comparison_line(*c));
    s
}

fn finding_text(f: &ClassificationFinding) -> (r: String)
    ensures
        r@ == finding_line(*f),
{
    let mut s = String::new();
    push_str(&mut s, "  - ");
    push_str(&mut s, f.id.as_str());
    push_str(&mut s, ": ");
    let summary = plain_text_fragment(f.summary.as_str());
    push_str(&mut s, summary.as_str());
    push_str(&mut s, " (");
    push_str(&mut s, f.location.as_str());
    push_str(&mut s, ", impact ");
    push_str(&mut s, compatibility_impact_name(f.impact));
    push_str(&mut s, ", bump ");
    push_str(&mut s, f.bump.label());
    push_str(&mut s, ", confidence ");
    push_str(&mut s, classification_confidence_name(f.confidence));
    push_str(&mut s, ", comparisons ");
    let ghost head = s@;
    let ghost names = kind_names(f.comparisons@);
    let mut i: usize = 0;
    while i < f.comparisons.len()
        invariant
            i <= f.comparisons@.len(),
            names == kind_names(f.comparisons@),
            s@ == head + join(names.take(i as int), ", "@),
        decreases f.comparisons@.len() - i,
    {
        proof {
            lemma_join_push(names.take(i as int), names[i as int], ", "@);
            assert(names.take(i + 1) =~= names.take(i as int).push(names[i as int]));
        }
        if i > 0 {
            push_str(&mut s, ", ");
        }
        push_str(&mut s, comparison_kind_name(f.comparisons[i]));
        i = i + 1;
        assert(s@ =~= head + join(names.take(i as int), ", "@));
    }
    assert(names.take(f.comparisons@.len() as int) =~= names);
    push_str(&mut s, ")");
    assert(s@ =~= finding_line(*f));
    s
}

fn push_package_lines(lines: &mut Vec<String>, p: &PackageClassification)
    ensures
        views(final(lines)@) == views(old(lines)@) + package_lines(*p),
{
    let ghost start = views(lines@);
    push_line(lines, String::new());
    push_line(lines, p.package_id.clone());
    let mut l = String::new();
    push_str(&mut l, "  Ecosystem: ");
    push_str(&mut l, p.ecosystem.as_str());
    push_line(lines, l);
    let mut l = String::new();
    push_str(&mut l, "  Proposed changeset bump: ");
    push_str(&mut l, p.decision.proposed_changeset_bump.label());
    push_line(lines, l);
    let mut l = String::new();
    push_str(&mut l, "  Enforceable minimum: ");
    push_str(&mut l, p.decision.enforceable_minimum.label());
    push_line(lines, l);
    let mut l = String::new();
    push_str(&mut l, "  Release floor: ");
    push_str(&mut l, p.decision.release_floor.label());
    push_line(lines, l);
    let mut l = String::new();
    push_str(&mut l, "  Compatibility impact: ");
    push_str(&mut l, compatibility_impact_name(p.decision.compatibility_impact));
    push_line(lines, l);
    let mut l = String::new();
    push_str(&mut l, "  Confidence: ");
    push_str(&mut l, classification_confidence_name(p.decision.confidence));
    push_line(lines, l);
    let mut l = String::new();
    push_str(&mut l, "  completeness: ");
    push_str(&mut l, analysis_completeness_name(p.decision.completeness));
    push_line(lines, l);
    let mut l = String::new();
    push_str(&mut l, "  Review required: ");
    push_str(&mut l, if p.decision.review_required { "true" } else { "false" });
    push_line(lines, l);
    let mut l = String::new();
    push_str(&mut l, "  changeset action: ");
    push_str(&mut l, changeset_action_name(p.action));
    push_line(lines, l);
    let mut l = String::new();
    push_str(&mut l, "  Summary: ");
    let summary = plain_text_fragment(p.summary.as_str());
    push_str(&mut l, summary.as_str());
    push_line(lines, l);
    let ghost after_fixed = views(lines@);
    assert(after_fixed =~= start + package_lines(*p).take(12));
    match &p.release_owner {
        Some(owner) => {
            let mut l = String::new();
            push_str(&mut l, "  Release owner: ");
            push_str(&mut l, owner.kind.as_str());
            push_str(&mut l, " ");
            push_str(&mut l, owner.id.as_str());
            push_line(lines, l);
            let mut l = String::new();
            push_str(&mut l, "  Latest release: ");
            match &owner.latest_release {
                Some(r) => push_str(&mut l, r.as_str()),
                None => push_str(&mut l, "none"),
            }
            push_line(lines, l);
        },
        None => {},
    }
    let ghost after_owner = views(lines@);
    assert(after_owner =~= after_fixed + owner_lines(p.release_owner));
    push_changeset_lines(lines, p.existing_changesets.as_slice());
    let mut l = String::new();
    push_str(&mut l, "  Findings: ");
    push_decimal(&mut l, p.findings.len() as u128);
    push_line(lines, l);
    push_finding_lines(lines, p.findings.as_slice());
    assert(views(lines@) =~= start + package_lines(*p));
}

fn push_changeset_lines(lines: &mut Vec<String>, cs: &[ExistingChangeset])
    ensures
        views(final(lines)@) == views(old(lines)@) + changeset_lines(cs@),
{
    if cs.len() == 0 {
        assert(views(lines@) =~= views(old(lines)@) + changeset_lines(cs@));
        return;
    }
    push_line(lines, "  Existing changesets:".to_string());
    let ghost start = views(lines@);
    let mut i: usize = 0;
    while i < cs.len()
        invariant
            i <= cs@.len(),
            views(lines@) == start + cs@.take(i as int).map_values(|c: ExistingChangeset| changeset_line(c)),
        decreases cs@.len() - i,
    {
        let mut l = String::new();
        push_str(&mut l, "    ");
        push_str(&mut l, cs[i].path.as_str());
        push_str(&mut l, ": ");
        match cs[i].bump {
            Some(b) => push_str(&mut l, b.label()),
            None => push_str(&mut l, "custom"),
        }
        assert(l@ =~= changeset_line(cs@[i as int]));
        push_line(lines, l);
        i = i + 1;
        assert(views(lines@) =~= start + cs@.take(i as int).map_values(|c: ExistingChangeset| changeset_line(c)));
    }
    assert(cs@.take(cs@.len() as int) =~= cs@);
    assert(views(lines@) =~= views(old(lines)@) + changeset_lines(cs@));
}

fn push_finding_lines(lines: &mut Vec<String>, fs: &[ClassificationFinding])
    ensures
        views(final(lines)@) == views(old(lines)@) + finding_lines(fs@),
{
    let shown: usize = if fs.len() <= 10 { fs.len() } else { 10 };
    let ghost start = views(lines@);
    let mut i: usize = 0;
    while i < shown
        invariant
            i <= shown,
            shown <= fs@.len(),
            shown == (if fs@.len() <= 10 { fs@.len() } else { 10 }),
            views(lines@) == start + fs@.take(i as int).map_values(|f: ClassificationFinding| finding_line(f)),
        decreases shown - i,
    {
        let l = finding_text(&fs[i]);
        push_line(lines, l);
        i = i + 1;
        assert(views(lines@) =~= start + fs@.take(i as int).map_values(|f: ClassificationFinding| finding_line(f)));
    }
    if fs.len() > 10 {
        let mut l = String::new();
        push_str(&mut l, "  - ");
        push_decimal(&mut l, (fs.len() - 10) as u128);
        push_str(&mut l, " more findings");
        push_line(lines, l);
    }
    proof {
        if fs@.len() <= 10 {
            assert(fs@.take(fs@.len() as int) =~= fs@);
        }
    }
    assert(views(lines@) =~= views(old(lines)@) + finding_lines(fs@));
}

/// Joins lines with newlines.
pub fn join_text_lines(lines: &Vec<String>) -> (r: String)
    ensures
        r@ == join_lines(views(lines@)),
{
    let ghost all = views(lines@);
    let mut out = String::new();
    let mut i: usize = 0;
    while i < lines.len()
        invariant
            i <= lines@.len(),
            all == views(lines@),
            out@ == join_lines(all.take(i as int)),
        decreases lines@.len() - i,
    {
        proof {
            assert(all.take(i + 1).drop_last() =~= all.take(i as int));
            assert(all.take(i + 1).last() == all[i as int]);
        }
        if i > 0 {
            push_str(&mut out, "\n");
        }
        push_str(&mut out, lines[i].as_str());
        i = i + 1;
        proof {
            if i == 1 {
                assert(all.take(1) =~= seq![all[0]]);
            }
        }
        assert(out@ =~= join_lines(all.take(i as int)));
    }
    assert(all.take(lines@.len() as int) =~= all);
    out
}

/// Renders a change classification as plain text, without Markdown marks.
pub fn render_text_report(report: &ChangeClassificationReport) -> (r: String)
    ensures
        r@ == classification_text(*report),
{
    let mut lines: Vec<String> = Vec::new();
    push_line(&mut lines, "Change classification".to_string());
    push_line(&mut lines, String::new());
    let mut l = String::new();
    push_str(&mut l, "Schema version: ");
    push_decimal(&mut l, report.schema_version as u128);
    push_line(&mut lines, l);
    let mut l = String::new();
    push_str(&mut l, "Default branch: ");
    push_str(&mut l, report.default_branch.as_str());
    push_line(&mut lines, l);
    let mut l = String::new();
    push_str(&mut l, "Candidate: ");
    push_str(&mut l, report.candidate.as_str());
    push_line(&mut lines, l);
    let mut l = String::new();
    push_str(&mut l, "Recommended bump: ");
    push_str(&mut l, report.recommendation.label());
    push_line(&mut lines, l);
    let mut l = String::new();
    push_str(&mut l, "Packages analyzed: ");
    push_decimal(&mut l, report.packages.len() as u128);
    push_line(&mut lines, l);
    push_line(&mut lines, String::new());
    push_line(&mut lines, "Comparisons".to_string());
    let ghost head = views(lines@);
    let mut i: usize = 0;
    while i < report.comparisons.len()
        invariant
            i <= report.comparisons@.len(),
            views(lines@) == head + report.comparisons@.take(i as int).map_values(|c: ResolvedComparison| comparison_line(c)),
        decreases report.comparisons@.len() - i,
    {
        let l = comparison_text(&report.comparisons[i]);
        push_line(&mut lines, l);
        i = i + 1;
        assert(views(lines@) =~= head + report.comparisons@.take(i as int).map_values(|c: ResolvedComparison| comparison_line(c)));
    }
    assert(report.comparisons@.take(report.comparisons@.len() as int) =~= report.comparisons@);
    let ghost mid = views(lines@);
    if report.packages.len() == 0 {
        push_line(&mut lines, String::new());
        push_line(&mut lines, "No package changes were detected for the pull request comparison.".to_string());
    } else {
        push_line(&mut lines, String::new());
        push_line(&mut lines, "Packages".to_string());
        let ghost pstart = views(lines@);
        let mut k: usize = 0;
        while k < report.packages.len()
            invariant
                k <= report.packages@.len(),
                views(lines@) == pstart + packages_lines(report.packages@.take(k as int)),
            decreases report.packages@.len() - k,
        {
            proof {
                assert(report.packages@.take(k + 1).drop_last() =~= report.packages@.take(k as int));
                assert(report.packages@.take(k + 1).last() == report.packages@[k as int]);
            }
            push_package_lines(&mut lines, &report.packages[k]);
            k = k + 1;
            assert(views(lines@) =~= pstart + packages_lines(report.packages@.take(k as int)));
        }
        assert(report.packages@.take(report.packages@.len() as int) =~= report.packages@);
    }
    let ghost body = views(lines@);
    if report.warnings.len() > 0 {
        push_line(&mut lines, String::new());
        push_line(&mut lines, "Warnings".to_string());
        let ghost wstart = views(lines@);
        let mut k: usize = 0;
        while k < report.warnings.len()
            invariant
                k <= report.warnings@.len(),
                views(lines@) == wstart + report.warnings@.take(k as int).map_values(|w: String| "- "@ + without_char(w@, '`')),
            decreases report.warnings@.len() - k,
        {
            let mut l = String::new();
            push_str(&mut l, "- ");
            let w = plain_text_fragment(report.warnings[k].as_str());
            push_str(&mut l, w.as_str());
            push_line(&mut lines, l);
            k = k + 1;
            assert(views(lines@) =~= wstart + report.warnings@.take(k as int).map_values(|w: String| "- "@ + without_char(w@, '`')));
        }
        assert(report.warnings@.take(report.warnings@.len() as int) =~= report.warnings@);
    }
    assert(views(lines@) =~= text_report_lines(*report));
    join_text_lines(&lines)
}

} // verus!
