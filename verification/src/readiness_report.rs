use vstd::prelude::*;

use crate::model::Ecosystem;
use crate::rate_limits::{holds_view, insert_sorted, strictly_increasing};
use crate::readiness::{
    join, lemma_join_push, package_status_label, readiness_from_publish,
    readiness_global_status_label, readiness_package_status_label, readiness_status_from_publish_status,
    str_views, trust_readiness_status_label, trust_status_label, PackagePublishStatus,
    PublishOrderFinding, PublishReadinessGlobalStatus, PublishReadinessPackage,
    PublishReadinessPackageStatus, PublishReadinessReport, TrustedPublishingReadiness,
    TrustedPublishingReadinessStatus,
};
use crate::readiness::{global_status, identities_of, package_set_fingerprint, report_global_status, set_fingerprint};
use crate::text::{push_char, push_str, str_eq};

verus! {

broadcast use vstd::string::group_string_axioms;

/// What a dry-run publish reported for one package publication.
pub struct PublishOutcome {
    pub package: String,
    pub ecosystem: Ecosystem,
    pub registry: String,
    pub version: String,
    pub status: PackagePublishStatus,
    pub message: String,
}

/// The readiness row of a dry-run outcome with its trusted-publishing decision:
/// a blocking decision blocks the row with the decision's message; otherwise the
/// row takes the outcome's status and message.
pub fn readiness_row(outcome: &PublishOutcome, trust: TrustedPublishingReadiness) -> (r: PublishReadinessPackage)
    ensures
        r.package@ == outcome.package@,
        r.ecosystem == outcome.ecosystem,
        r.registry@ == outcome.registry@,
        r.version@ == outcome.version@,
        trust.status == TrustedPublishingReadinessStatus::Blocked ==> r.status == PublishReadinessPackageStatus::Blocked
            && r.message@ == trust.message@,
        trust.status != TrustedPublishingReadinessStatus::Blocked ==> r.status == readiness_from_publish(outcome.status)
            && r.message@ == outcome.message@,
        r.trusted_publishing matches Some(t) && t.status == trust.status && t.message@ == trust.message@,
{
    let blocked = match trust.status {
        TrustedPublishingReadinessStatus::Blocked => true,
        _ => false,
    };
    let status = if blocked {
        PublishReadinessPackageStatus::Blocked
    } else {
        readiness_status_from_publish_status(outcome.status)
    };
    let message = if blocked { trust.message.clone() } else { outcome.message.clone() };
    PublishReadinessPackage {
        package: outcome.package.clone(),
        ecosystem: outcome.ecosystem,
        registry: outcome.registry.clone(),
        version: outcome.version.clone(),
        status,
        message,
        trusted_publishing: Some(trust),
    }
}

/// The finding blocks the package `id`.
pub open spec fn finding_blocks(f: PublishOrderFinding, id: Seq<char>) -> bool {
    f.blocking && match f.package {
        Some(p) => p@ == id,
        None => false,
    }
}

/// The message of the last blocking finding about package `id`, if any.
pub open spec fn last_block(findings: Seq<PublishOrderFinding>, id: Seq<char>) -> Option<Seq<char>>
    decreases findings.len(),
{
    if findings.len() == 0 {
        None
    } else {
        let f = findings.last();
        if finding_blocks(f, id) {
            Some(f.message@)
        } else {
            last_block(findings.drop_last(), id)
        }
    }
}

/// A row after the order findings: blocked with the message of the last
/// blocking finding about its package, or as it was.
pub open spec fn row_after_findings(old_row: PublishReadinessPackage, new_row: PublishReadinessPackage, findings: Seq<PublishOrderFinding>) -> bool {
    &&& new_row.package == old_row.package
    &&& new_row.ecosystem == old_row.ecosystem
    &&& new_row.registry == old_row.registry
    &&& new_row.version == old_row.version
    &&& new_row.trusted_publishing == old_row.trusted_publishing
    &&& match last_block(findings, old_row.package@) {
        Some(m) => new_row.status == PublishReadinessPackageStatus::Blocked && new_row.message@ == m,
        None => new_row.status == old_row.status && new_row.message == old_row.message,
    }
}

fn apply_finding_to_row(row: PublishReadinessPackage, finding: &PublishOrderFinding) -> (r: PublishReadinessPackage)
    ensures
        r.package == row.package,
        r.ecosystem == row.ecosystem,
        r.registry == row.registry,
        r.version == row.version,
        r.trusted_publishing == row.trusted_publishing,
        finding_blocks(*finding, row.package@) ==>
            r.status == PublishReadinessPackageStatus::Blocked && r.message@ == finding.message@,
        !finding_blocks(*finding, row.package@) ==>
            r.status == row.status && r.message == row.message,
{
    let hit = match &finding.package {
        Some(p) => finding.blocking && str_eq(p.as_str(), row.package.as_str()),
        None => false,
    };
    if hit {
        PublishReadinessPackage {
            package: row.package,
            ecosystem: row.ecosystem,
            registry: row.registry,
            version: row.version,
            status: PublishReadinessPackageStatus::Blocked,
            message: finding.message.clone(),
            trusted_publishing: row.trusted_publishing,
        }
    } else {
        row
    }
}

/// Blocks every row whose package a blocking order finding names, with the finding's message.
pub fn apply_order_findings(packages: &mut Vec<PublishReadinessPackage>, findings: &[PublishOrderFinding])
    ensures
        final(packages)@.len() == old(packages)@.len(),
        forall|i: int| 0 <= i < old(packages)@.len() ==>
            row_after_findings(old(packages)@[i], #[trigger] final(packages)@[i], findings@),
{
    let ghost orig = packages@;
    let mut k: usize = 0;
    while k < findings.len()
        invariant
            k <= findings@.len(),
            packages@.len() == orig.len(),
            forall|i: int| 0 <= i < orig.len() ==>
                row_after_findings(orig[i], #[trigger] packages@[i], findings@.take(k as int)),
        decreases findings@.len() - k,
    {
        let ghost before = packages@;
        proof {
            assert(findings@.take(k + 1).drop_last() =~= findings@.take(k as int));
            assert(findings@.take(k + 1).last() == findings@[k as int]);
        }
        let finding = &findings[k];
        let mut i: usize = 0;
        while i < packages.len()
            invariant
                i <= packages@.len(),
                packages@.len() == orig.len(),
                before.len() == orig.len(),
                forall|j: int| i <= j < packages@.len() ==> packages@[j] == before[j],
                forall|j: int| 0 <= j < i ==> {
                    &&& (#[trigger] packages@[j]).package == before[j].package
                    &&& packages@[j].ecosystem == before[j].ecosystem
                    &&& packages@[j].registry == before[j].registry
                    &&& packages@[j].version == before[j].version
                    &&& packages@[j].trusted_publishing == before[j].trusted_publishing
                    &&& finding_blocks(*finding, before[j].package@) ==>
                        packages@[j].status == PublishReadinessPackageStatus::Blocked && packages@[j].message@ == finding.message@
                    &&& !finding_blocks(*finding, before[j].package@) ==>
                        packages@[j].status == before[j].status && packages@[j].message == before[j].message
                },
            decreases packages@.len() - i,
        {
            let row = packages.remove(i);
            let updated = apply_finding_to_row(row, finding);
            packages.insert(i, updated);
            i = i + 1;
        }
        proof {
            assert forall|j: int| 0 <= j < orig.len() implies
                row_after_findings(orig[j], #[trigger] packages@[j], findings@.take(k + 1)) by {
                assert(row_after_findings(orig[j], before[j], findings@.take(k as int)));
            }
        }
        k = k + 1;
    }
    assert(findings@.take(findings@.len() as int) =~= findings@);
}

/// A row whose publication can go ahead as the plan says.
pub open spec fn row_ready(p: PublishReadinessPackage) -> bool {
    p.status == PublishReadinessPackageStatus::Ready || p.status == PublishReadinessPackageStatus::AlreadyPublished
}

/// The packages of a report whose every row is ready or already published.
pub open spec fn ready_package(rows: Seq<PublishReadinessPackage>, id: Seq<char>) -> bool {
    &&& exists|i: int| 0 <= i < rows.len() && (#[trigger] rows[i]).package@ == id
    &&& forall|i: int| 0 <= i < rows.len() && (#[trigger] rows[i]).package@ == id ==> row_ready(rows[i])
}

/// The ids, in increasing order, of the packages whose every publication is
/// ready or already published.
pub fn publish_plan_ready_package_ids(report: &PublishReadinessReport) -> (r: Vec<String>)
    ensures
        strictly_increasing(r@),
        forall|id: Seq<char>| holds_view(r@, id) <==> ready_package(report.packages@, id),
{
    let rows = &report.packages;
    let mut all: Vec<String> = Vec::new();
    let mut i: usize = 0;
    while i < rows.len()
        invariant
            i <= rows@.len(),
            strictly_increasing(all@),
            forall|id: Seq<char>| holds_view(all@, id) <==> exists|j: int| 0 <= j < i && (#[trigger] rows@[j]).package@ == id,
        decreases rows@.len() - i,
    {
        insert_sorted(&mut all, &rows[i].package);
        proof {
            assert forall|id: Seq<char>| holds_view(all@, id) <==> exists|j: int| 0 <= j < i + 1 && (#[trigger] rows@[j]).package@ == id by {
                if id == rows@[i as int].package@ {
                    assert(rows@[i as int].package@ == id);
                }
            }
        }
        i = i + 1;
    }
    let mut out: Vec<String> = Vec::new();
    let mut k: usize = 0;
    while k < all.len()
        invariant
            k <= all@.len(),
            strictly_increasing(all@),
            forall|id: Seq<char>| holds_view(all@, id) <==> exists|j: int| 0 <= j < rows@.len() && (#[trigger] rows@[j]).package@ == id,
            out@.len() <= k,
            forall|a: int| 0 <= a < out@.len() ==> exists|b: int| 0 <= b < k && (#[trigger] out@[a])@ == all@[b]@,
            strictly_increasing(out@),
            forall|a: int| 0 <= a < out@.len() ==> (forall|b: int| k <= b < all@.len() ==> crate::text::lex_lt((#[trigger] out@[a])@, (#[trigger] all@[b])@)),
            forall|id: Seq<char>| holds_view(out@, id) <==> (ready_package(rows@, id) && exists|b: int| 0 <= b < k && (#[trigger] all@[b])@ == id),
        decreases all@.len() - k,
    {
        let id = &all[k];
        let mut ready = true;
        let mut j: usize = 0;
        while j < rows.len()
            invariant
                j <= rows@.len(),
                ready == (forall|x: int| 0 <= x < j && (#[trigger] rows@[x]).package@ == id@ ==> row_ready(rows@[x])),
            decreases rows@.len() - j,
        {
            if str_eq(rows[j].package.as_str(), id.as_str()) {
                let ok = match rows[j].status {
                    PublishReadinessPackageStatus::Ready | PublishReadinessPackageStatus::AlreadyPublished => true,
                    _ => false,
                };
                if !ok {
                    ready = false;
                }
            }
            j = j + 1;
        }
        proof {
            assert(holds_view(all@, id@)) by {
                assert(all@[k as int]@ == id@);
            }
        }
        let ghost prev = out@;
        if ready {
            out.push(id.clone());
            proof {
                assert forall|a: int, b: int| 0 <= a < b < out@.len() implies crate::text::lex_lt((#[trigger] out@[a])@, (#[trigger] out@[b])@) by {
                    if b == out@.len() - 1 {
                        assert(out@[a] == prev[a]);
                    } else {
                        assert(out@[a] == prev[a] && out@[b] == prev[b]);
                    }
                }
            }
        }
        proof {
            assert forall|a: int| 0 <= a < out@.len() implies (forall|b: int| k + 1 <= b < all@.len() ==> crate::text::lex_lt((#[trigger] out@[a])@, (#[trigger] all@[b])@)) by {
                if a < prev.len() {
                    assert(out@[a] == prev[a]);
                }
            }
            assert forall|id2: Seq<char>| holds_view(out@, id2) <==> (ready_package(rows@, id2) && exists|b: int| 0 <= b < k + 1 && (#[trigger] all@[b])@ == id2) by {
                if holds_view(out@, id2) {
                    let w = choose|a: int| 0 <= a < out@.len() && (#[trigger] out@[a])@ == id2;
                    if w < prev.len() {
                        assert(out@[w] == prev[w]);
                    }
                }
                if ready_package(rows@, id2) && exists|b: int| 0 <= b < k + 1 && (#[trigger] all@[b])@ == id2 {
                    let b = choose|b: int| 0 <= b < k + 1 && (#[trigger] all@[b])@ == id2;
                    if b < k {
                        assert(holds_view(prev, id2));
                        let w = choose|a: int| 0 <= a < prev.len() && (#[trigger] prev[a])@ == id2;
                        assert(out@[w] == prev[w]);
                    } else {
                        assert(out@[out@.len() - 1]@ == id2);
                    }
                }
                if id2 == id@ && holds_view(prev, id2) {
                    let w = choose|a: int| 0 <= a < prev.len() && (#[trigger] prev[a])@ == id2;
                    crate::text::lemma_lex_irreflexive(id2);
                }
            }
            assert forall|a: int| 0 <= a < out@.len() implies exists|b: int| 0 <= b < k + 1 && (#[trigger] out@[a])@ == all@[b]@ by {
                if a < prev.len() {
                    assert(out@[a] == prev[a]);
                    let b = choose|b: int| 0 <= b < k && (#[trigger] prev[a])@ == all@[b]@;
                } else {
                    assert(out@[a]@ == all@[k as int]@);
                }
            }
        }
        k = k + 1;
    }
    proof {
        assert forall|id: Seq<char>| holds_view(out@, id) <==> ready_package(rows@, id) by {
            if ready_package(rows@, id) {
                let j = choose|j: int| 0 <= j < rows@.len() && (#[trigger] rows@[j]).package@ == id;
                assert(holds_view(all@, id));
                let b = choose|b: int| 0 <= b < all@.len() && (#[trigger] all@[b])@ == id;
            }
        }
    }
    out
}

/// The label of a global status.
pub open spec fn global_label(status: PublishReadinessGlobalStatus) -> Seq<char> {
    match status {
        PublishReadinessGlobalStatus::Ready => "ready"@,
        PublishReadinessGlobalStatus::Blocked => "blocked"@,
    }
}

/// The word for a finding: blocking or a note.
pub open spec fn finding_kind(f: PublishOrderFinding) -> Seq<char> {
    if f.blocking { "blocking"@ } else { "note"@ }
}

/// The text lines of one package row.
pub open spec fn text_row(p: PublishReadinessPackage) -> Seq<char> {
    "- "@ + p.package@ + " "@ + p.version@ + " "@ + p.registry@ + " ["@ + package_status_label(p.status) + "]: "@
        + p.message@ + "\n"@ + match p.trusted_publishing {
        Some(t) => "  trusted publishing ["@ + trust_status_label(t.status) + "]: "@ + t.message@ + "\n"@,
        None => Seq::empty(),
    }
}

pub open spec fn text_rows(ps: Seq<PublishReadinessPackage>) -> Seq<char>
    decreases ps.len(),
{
    if ps.len() == 0 { Seq::empty() } else { text_rows(ps.drop_last()) + text_row(ps.last()) }
}

pub open spec fn text_findings(fs: Seq<PublishOrderFinding>) -> Seq<char>
    decreases fs.len(),
{
    if fs.len() == 0 {
        Seq::empty()
    } else {
        text_findings(fs.drop_last()) + "order finding ["@ + finding_kind(fs.last()) + "]: "@ + fs.last().message@ + "\n"@
    }
}

/// The plain-text readiness report.
pub open spec fn text_report(r: PublishReadinessReport) -> Seq<char> {
    "publish readiness: "@ + global_label(r.status) + "\n"@ + "release ref: "@ + r.from@ + "\n"@
        + "release record: "@ + r.record_commit@ + "\n"@
        + (if r.packages@.len() == 0 { "packages: none\n"@ } else { "packages:\n"@ + text_rows(r.packages@) })
        + (if r.publish_order@.len() == 0 { Seq::empty() } else {
            "publish order: "@ + join(str_views(r.publish_order@), ", "@) + "\n"@
        })
        + text_findings(r.order_findings@)
}

fn push_joined(out: &mut String, items: &Vec<String>, sep: &str)
    ensures
        final(out)@ == old(out)@ + join(str_views(items@), sep@),
{
    let ghost all = str_views(items@);
    let mut i: usize = 0;
    while i < items.len()
        invariant
            i <= items@.len(),
            all == str_views(items@),
            out@ == old(out)@ + join(all.take(i as int), sep@),
        decreases items@.len() - i,
    {
        proof {
            lemma_join_push(all.take(i as int), all[i as int], sep@);
            assert(all.take(i + 1) =~= all.take(i as int).push(all[i as int]));
        }
        if i > 0 {
            push_str(out, sep);
        }
        push_str(out, items[i].as_str());
        i = i + 1;
        assert(out@ =~= old(out)@ + join(all.take(i as int), sep@));
    }
    assert(all.take(items@.len() as int) =~= all);
}

fn push_text_row(out: &mut String, p: &PublishReadinessPackage)
    ensures
        final(out)@ == old(out)@ + text_row(*p),
{
    push_str(out, "- ");
    push_str(out, p.package.as_str());
    push_str(out, " ");
    push_str(out, p.version.as_str());
    push_str(out, " ");
    push_str(out, p.registry.as_str());
    push_str(out, " [");
    push_str(out, readiness_package_status_label(p.status));
    push_str(out, "]: ");
    push_str(out, p.message.as_str());
    push_str(out, "\n");
    match &p.trusted_publishing {
        Some(t) => {
            push_str(out, "  trusted publishing [");
            push_str(out, trust_readiness_status_label(t.status));
            push_str(out, "]: ");
            push_str(out, t.message.as_str());
            push_str(out, "\n");
        },
        None => {},
    }
    assert(out@ =~= old(out)@ + text_row(*p));
}

/// Renders a readiness report as plain text.
pub fn render_text_report(report: &PublishReadinessReport) -> (r: String)
    ensures
        r@ == text_report(*report),
{
    let mut out = String::new();
    push_str(&mut out, "publish readiness: ");
    push_str(&mut out, readiness_global_status_label(report.status));
    push_str(&mut out, "\n");
    push_str(&mut out, "release ref: ");
    push_str(&mut out, report.from.as_str());
    push_str(&mut out, "\n");
    push_str(&mut out, "release record: ");
    push_str(&mut out, report.record_commit.as_str());
    push_str(&mut out, "\n");
    let ghost head = out@;
    if report.packages.len() == 0 {
        push_str(&mut out, "packages: none\n");
    } else {
        push_str(&mut out, "packages:\n");
        let ghost start = out@;
        let mut i: usize = 0;
        while i < report.packages.len()
            invariant
                i <= report.packages@.len(),
                out@ == start + text_rows(report.packages@.take(i as int)),
            decreases report.packages@.len() - i,
        {
            proof {
                assert(report.packages@.take(i + 1).drop_last() =~= report.packages@.take(i as int));
                assert(report.packages@.take(i + 1).last() == report.packages@[i as int]);
            }
            push_text_row(&mut out, &report.packages[i]);
            i = i + 1;
            assert(out@ =~= start + text_rows(report.packages@.take(i as int)));
        }
        assert(report.packages@.take(report.packages@.len() as int) =~= report.packages@);
    }
    let ghost mid = out@;
    if report.publish_order.len() > 0 {
        push_str(&mut out, "publish order: ");
        push_joined(&mut out, &report.publish_order, ", ");
        push_str(&mut out, "\n");
    }
    let ghost before_findings = out@;
    let mut k: usize = 0;
    while k < report.order_findings.len()
        invariant
            k <= report.order_findings@.len(),
            out@ == before_findings + text_findings(report.order_findings@.take(k as int)),
        decreases report.order_findings@.len() - k,
    {
        let f = &report.order_findings[k];
        proof {
            assert(report.order_findings@.take(k + 1).drop_last() =~= report.order_findings@.take(k as int));
            assert(report.order_findings@.take(k + 1).last() == report.order_findings@[k as int]);
        }
        push_str(&mut out, "order finding [");
        push_str(&mut out, if f.blocking { "blocking" } else { "note" });
        push_str(&mut out, "]: ");
        push_str(&mut out, f.message.as_str());
        push_str(&mut out, "\n");
        k = k + 1;
        assert(out@ =~= before_findings + text_findings(report.order_findings@.take(k as int)));
    }
    assert(report.order_findings@.take(report.order_findings@.len() as int) =~= report.order_findings@);
    assert(out@ =~= text_report(*report));
    out
}

/// A message with its table separators escaped for Markdown.
pub open spec fn escape_pipes(s: Seq<char>) -> Seq<char>
    decreases s.len(),
{
    if s.len() == 0 {
        s
    } else if s.last() == '|' {
        escape_pipes(s.drop_last()) + seq!['\\', '|']
    } else {
        escape_pipes(s.drop_last()).push(s.last())
    }
}

fn push_escaped(out: &mut String, s: &str)
    ensures
        final(out)@ == old(out)@ + escape_pipes(s@),
{
    let v = crate::text::chars_of(s);
    let mut i: usize = 0;
    while i < v.len()
        invariant
            i <= v@.len(),
            v@ == s@,
            out@ == old(out)@ + escape_pipes(v@.take(i as int)),
        decreases v@.len() - i,
    {
        proof {
            assert(v@.take(i + 1).drop_last() =~= v@.take(i as int));
            assert(v@.take(i + 1).last() == v@[i as int]);
        }
        if v[i] == '|' {
            push_char(out, '\\');
            push_char(out, '|');
        } else {
            push_char(out, v[i]);
        }
        i = i + 1;
        assert(out@ =~= old(out)@ + escape_pipes(v@.take(i as int)));
    }
    assert(v@.take(v@.len() as int) =~= v@);
}

/// One table row of the Markdown report.
pub open spec fn md_row(p: PublishReadinessPackage) -> Seq<char> {
    "| `"@ + p.package@ + "` | `"@ + p.version@ + "` | `"@ + p.registry@ + "` | `"@ + package_status_label(p.status)
        + "` | "@ + match p.trusted_publishing {
        Some(t) => "`"@ + trust_status_label(t.status) + "`"@,
        None => "`-`"@,
    } + " | "@ + escape_pipes(p.message@) + " |\n"@
}

pub open spec fn md_rows(ps: Seq<PublishReadinessPackage>) -> Seq<char>
    decreases ps.len(),
{
    if ps.len() == 0 { Seq::empty() } else { md_rows(ps.drop_last()) + md_row(ps.last()) }
}

pub open spec fn md_findings(fs: Seq<PublishOrderFinding>) -> Seq<char>
    decreases fs.len(),
{
    if fs.len() == 0 {
        Seq::empty()
    } else {
        md_findings(fs.drop_last()) + "- Order finding ("@ + finding_kind(fs.last()) + "): "@ + fs.last().message@ + "\n"@
    }
}

/// The Markdown readiness report.
pub open spec fn markdown_report(r: PublishReadinessReport) -> Seq<char> {
    "## Publish readiness\n"@ + "\n"@ + "- Status: `"@ + global_label(r.status) + "`\n"@
        + "- Release ref: `"@ + r.from@ + "`\n"@ + "- Release record: `"@ + r.record_commit@ + "`\n"@ + "\n"@
        + (if r.packages@.len() == 0 {
            "No packages selected for publishing.\n"@
        } else {
            "| Package | Version | Registry | Status | Trusted publishing | Message |\n"@
                + "| --- | --- | --- | --- | --- | --- |\n"@ + md_rows(r.packages@)
        })
        + (if r.publish_order@.len() == 0 { Seq::empty() } else {
            "\n"@ + "- Publish order: `"@ + join(str_views(r.publish_order@), ", "@) + "`\n"@
        })
        + md_findings(r.order_findings@)
}

fn push_md_row(out: &mut String, p: &PublishReadinessPackage)
    ensures
        final(out)@ == old(out)@ + md_row(*p),
{
    push_str(out, "| `");
    push_str(out, p.package.as_str());
    push_str(out, "` | `");
    push_str(out, p.version.as_str());
    push_str(out, "` | `");
    push_str(out, p.registry.as_str());
    push_str(out, "` | `");
    push_str(out, readiness_package_status_label(p.status));
    push_str(out, "` | ");
    match &p.trusted_publishing {
        Some(t) => {
            push_str(out, "`");
            push_str(out, trust_readiness_status_label(t.status));
            push_str(out, "`");
        },
        None => {
            push_str(out, "`-`");
        },
    }
    push_str(out, " | ");
    push_escaped(out, p.message.as_str());
    push_str(out, " |\n");
    assert(out@ =~= old(out)@ + md_row(*p));
}

/// Renders a readiness report as Markdown.
#[verifier::rlimit(40)]
pub fn render_markdown_report(report: &PublishReadinessReport) -> (r: String)
    ensures
        r@ == markdown_report(*report),
{
    let mut out = String::new();
    push_str(&mut out, "## Publish readiness\n");
    push_str(&mut out, "\n");
    push_str(&mut out, "- Status: `");
    push_str(&mut out, readiness_global_status_label(report.status));
    push_str(&mut out, "`\n");
    push_str(&mut out, "- Release ref: `");
    push_str(&mut out, report.from.as_str());
    push_str(&mut out, "`\n");
    push_str(&mut out, "- Release record: `");
    push_str(&mut out, report.record_commit.as_str());
    push_str(&mut out, "`\n");
    push_str(&mut out, "\n");
    if report.packages.len() == 0 {
        push_str(&mut out, "No packages selected for publishing.\n");
    } else {
        push_str(&mut out, "| Package | Version | Registry | Status | Trusted publishing | Message |\n");
        push_str(&mut out, "| --- | --- | --- | --- | --- | --- |\n");
        let ghost start = out@;
        let mut i: usize = 0;
        while i < report.packages.len()
            invariant
                i <= report.packages@.len(),
                out@ == start + md_rows(report.packages@.take(i as int)),
            decreases report.packages@.len() - i,
        {
            proof {
                assert(report.packages@.take(i + 1).drop_last() =~= report.packages@.take(i as int));
                assert(report.packages@.take(i + 1).last() == report.packages@[i as int]);
            }
            push_md_row(&mut out, &report.packages[i]);
            i = i + 1;
            assert(out@ =~= start + md_rows(report.packages@.take(i as int)));
        }
        assert(report.packages@.take(report.packages@.len() as int) =~= report.packages@);
    }
    if report.publish_order.len() > 0 {
        push_str(&mut out, "\n");
        push_str(&mut out, "- Publish order: `");
        push_joined(&mut out, &report.publish_order, ", ");
        push_str(&mut out, "`\n");
    }
    let ghost before_findings = out@;
    let mut k: usize = 0;
    while k < report.order_findings.len()
        invariant
            k <= report.order_findings@.len(),
            out@ == before_findings + md_findings(report.order_findings@.take(k as int)),
        decreases report.order_findings@.len() - k,
    {
        let f = &report.order_findings[k];
        proof {
            assert(report.order_findings@.take(k + 1).drop_last() =~= report.order_findings@.take(k as int));
            assert(report.order_findings@.take(k + 1).last() == report.order_findings@[k as int]);
        }
        push_str(&mut out, "- Order finding (");
        push_str(&mut out, if f.blocking { "blocking" } else { "note" });
        push_str(&mut out, "): ");
        push_str(&mut out, f.message.as_str());
        push_str(&mut out, "\n");
        k = k + 1;
        assert(out@ =~= before_findings + md_findings(report.order_findings@.take(k as int)));
    }
    assert(report.order_findings@.take(report.order_findings@.len() as int) =~= report.order_findings@);
    assert(out@ =~= markdown_report(*report));
    out
}

/// Where a readiness report comes from: the release ref and the commits it resolved to.
pub struct PublishReadinessSource {
    pub from: String,
    pub resolved_commit: String,
    pub record_commit: String,
}

/// Assembles a readiness report from the dry-run outcomes, the trusted-publishing
/// decision of each outcome and the order findings: one row per outcome, rows
/// blocked by the blocking findings, the publish order of the rows, the global
/// status and the package-set fingerprint of the rows.
pub fn build_report_from_outcomes(
    source: &PublishReadinessSource,
    outcomes: &[PublishOutcome],
    trust: Vec<TrustedPublishingReadiness>,
    order_findings: Vec<PublishOrderFinding>,
    input_fingerprint: String,
) -> (r: PublishReadinessReport)
    requires
        trust@.len() == outcomes@.len(),
    ensures
        r.schema_version == crate::readiness::readiness_schema_version(),
        r.kind@ == crate::readiness::readiness_kind(),
        r.from@ == source.from@,
        r.resolved_commit@ == source.resolved_commit@,
        r.record_commit@ == source.record_commit@,
        r.input_fingerprint == input_fingerprint,
        r.packages@.len() == outcomes@.len(),
        forall|i: int| 0 <= i < outcomes@.len() ==> (#[trigger] r.packages@[i]).package@ == outcomes@[i].package@
            && r.packages@[i].ecosystem == outcomes@[i].ecosystem
            && r.packages@[i].registry@ == outcomes@[i].registry@
            && r.packages@[i].version@ == outcomes@[i].version@
            && match last_block(order_findings@, outcomes@[i].package@) {
                Some(m) => r.packages@[i].status == PublishReadinessPackageStatus::Blocked && r.packages@[i].message@ == m,
                None => if trust@[i].status == TrustedPublishingReadinessStatus::Blocked {
                    r.packages@[i].status == PublishReadinessPackageStatus::Blocked && r.packages@[i].message@ == trust@[i].message@
                } else {
                    r.packages@[i].status == readiness_from_publish(outcomes@[i].status) && r.packages@[i].message@ == outcomes@[i].message@
                },
            },
        str_views(r.publish_order@) == outcomes@.map_values(|o: PublishOutcome| o.package@),
        r.order_findings@ == order_findings@,
        r.status == global_status(r.packages@),
        r.package_set_fingerprint@ == set_fingerprint(identities_of(r.packages@)),
{
    let mut rows: Vec<PublishReadinessPackage> = Vec::new();
    let mut order: Vec<String> = Vec::new();
    let mut trust = trust;
    let mut i: usize = 0;
    let ghost trust0 = trust@;
    while i < outcomes.len()
        invariant
            i <= outcomes@.len(),
            trust@.len() == outcomes@.len() - i,
            trust0.len() == outcomes@.len(),
            forall|j: int| 0 <= j < trust@.len() ==> trust@[j] == trust0[j + i],
            rows@.len() == i,
            order@.len() == i,
            forall|j: int| 0 <= j < i ==> (#[trigger] rows@[j]).package@ == outcomes@[j].package@
                && rows@[j].ecosystem == outcomes@[j].ecosystem
                && rows@[j].registry@ == outcomes@[j].registry@
                && rows@[j].version@ == outcomes@[j].version@
                && (trust0[j].status == TrustedPublishingReadinessStatus::Blocked ==> rows@[j].status == PublishReadinessPackageStatus::Blocked
                    && rows@[j].message@ == trust0[j].message@)
                && (trust0[j].status != TrustedPublishingReadinessStatus::Blocked ==> rows@[j].status == readiness_from_publish(outcomes@[j].status)
                    && rows@[j].message@ == outcomes@[j].message@),
            forall|j: int| 0 <= j < i ==> (#[trigger] order@[j])@ == outcomes@[j].package@,
        decreases outcomes@.len() - i,
    {
        let t = trust.remove(0);
        let row = readiness_row(&outcomes[i], t);
        order.push(outcomes[i].package.clone());
        rows.push(row);
        i = i + 1;
    }
    assert(str_views(order@) =~= outcomes@.map_values(|o: PublishOutcome| o.package@));
    let ghost before = rows@;
    apply_order_findings(&mut rows, order_findings.as_slice());
    proof {
        assert forall|j: int| 0 <= j < outcomes@.len() implies row_after_findings(before[j], #[trigger] rows@[j], order_findings@) by {}
    }
    let status = report_global_status(rows.as_slice());
    let fingerprint = package_set_fingerprint(rows.as_slice());
    PublishReadinessReport {
        schema_version: 3,
        kind: "monochange.publishReadiness".to_string(),
        status,
        from: source.from.clone(),
        resolved_commit: source.resolved_commit.clone(),
        record_commit: source.record_commit.clone(),
        package_set_fingerprint: fingerprint,
        input_fingerprint,
        packages: rows,
        publish_order: order,
        order_findings,
    }
}

} // verus!
