use vstd::prelude::*;

use crate::classify::{ComparisonKind, DetectionLevel, SemanticChangeCategory};
use crate::fnv::{hex_fixed, push_hex_fixed};
use crate::path_order::{path_eq, path_less, path_lt, path_same};
use crate::recommendation::{
    evidence_hash, finding_models, opt_text, ClassificationFinding, FindingEvidenceKey, FindingModel,
};
use crate::semantic::{finding_from_semantic_change, finding_id, finding_id_text, semantic_finding, evidence_key_of, SemanticChange};
use crate::text::{lex_less, lex_lt, push_str, str_eq};

verus! {

broadcast use vstd::string::group_string_axioms;

/// The semantic changes one comparison found in a package, with the analyzer
/// that found them, if the analysis names one.
pub struct EvidenceFrame {
    pub kind: ComparisonKind,
    pub analyzer_id: Option<String>,
    pub changes: Vec<SemanticChange>,
}

/// The analyzer a change is credited to: package lifecycle changes to the
/// lifecycle analyzer, others to the frame's analyzer (or the unknown one).
pub open spec fn change_analyzer(frame_analyzer: Option<String>, c: SemanticChange) -> Seq<char> {
    if c.category == SemanticChangeCategory::Package {
        "monochange/package-lifecycle"@
    } else {
        match frame_analyzer {
            Some(a) => a@,
            None => "monochange/unknown-analyzer"@,
        }
    }
}

/// `a` sorts before `b` as options: nothing before something.
pub open spec fn opt_lt(a: Option<Seq<char>>, b: Option<Seq<char>>) -> bool {
    match (a, b) {
        (None, Some(_)) => true,
        (Some(x), Some(y)) => lex_lt(x, y),
        _ => false,
    }
}

/// Two changes show the same evidence: the same signatures before and after,
/// the same file (as a path) and the same summary.
pub open spec fn same_evidence(a: SemanticChange, b: SemanticChange) -> bool {
    &&& opt_text(a.before_signature) == opt_text(b.before_signature)
    &&& opt_text(a.after_signature) == opt_text(b.after_signature)
    &&& path_eq(a.file_path@, b.file_path@)
    &&& a.summary@ == b.summary@
}

/// The evidence of `a` sorts before that of `b`: by signature before, then
/// after, then file, then summary.
pub open spec fn evidence_lt(a: SemanticChange, b: SemanticChange) -> bool {
    let (ab, bb) = (opt_text(a.before_signature), opt_text(b.before_signature));
    let (aa, ba) = (opt_text(a.after_signature), opt_text(b.after_signature));
    ||| opt_lt(ab, bb)
    ||| ab == bb && opt_lt(aa, ba)
    ||| ab == bb && aa == ba && path_lt(a.file_path@, b.file_path@)
    ||| ab == bb && aa == ba && path_eq(a.file_path@, b.file_path@) && lex_lt(a.summary@, b.summary@)
}

/// The comparisons a finding was seen in.
pub struct KindSet {
    pub pull_request: bool,
    pub release: bool,
    pub release_to_default: bool,
    pub source_delta: bool,
    pub working_tree: bool,
}

pub open spec fn kind_in(s: KindSet, k: ComparisonKind) -> bool {
    match k {
        ComparisonKind::PullRequest => s.pull_request,
        ComparisonKind::Release => s.release,
        ComparisonKind::ReleaseToDefault => s.release_to_default,
        ComparisonKind::SourceDelta => s.source_delta,
        ComparisonKind::WorkingTree => s.working_tree,
    }
}

/// The set with `k` added.
pub open spec fn with_kind(s: KindSet, k: ComparisonKind) -> KindSet {
    match k {
        ComparisonKind::PullRequest => KindSet { pull_request: true, ..s },
        ComparisonKind::Release => KindSet { release: true, ..s },
        ComparisonKind::ReleaseToDefault => KindSet { release_to_default: true, ..s },
        ComparisonKind::SourceDelta => KindSet { source_delta: true, ..s },
        ComparisonKind::WorkingTree => KindSet { working_tree: true, ..s },
    }
}

pub open spec fn no_kinds() -> KindSet {
    KindSet { pull_request: false, release: false, release_to_default: false, source_delta: false, working_tree: false }
}

/// The kinds of a set in their declared order.
pub open spec fn kinds_in_order(s: KindSet) -> Seq<ComparisonKind> {
    (if s.pull_request { seq![ComparisonKind::PullRequest] } else { seq![] })
        + (if s.release { seq![ComparisonKind::Release] } else { seq![] })
        + (if s.release_to_default { seq![ComparisonKind::ReleaseToDefault] } else { seq![] })
        + (if s.source_delta { seq![ComparisonKind::SourceDelta] } else { seq![] })
        + (if s.working_tree { seq![ComparisonKind::WorkingTree] } else { seq![] })
}

fn add_kind(s: &mut KindSet, k: ComparisonKind)
    ensures
        *final(s) == with_kind(*old(s), k),
{
    match k {
        ComparisonKind::PullRequest => s.pull_request = true,
        ComparisonKind::Release => s.release = true,
        ComparisonKind::ReleaseToDefault => s.release_to_default = true,
        ComparisonKind::SourceDelta => s.source_delta = true,
        ComparisonKind::WorkingTree => s.working_tree = true,
    }
}

fn ordered_kinds(s: &KindSet) -> (r: Vec<ComparisonKind>)
    ensures
        r@ == kinds_in_order(*s),
{
    let mut v: Vec<ComparisonKind> = Vec::new();
    if s.pull_request {
        v.push(ComparisonKind::PullRequest);
    }
    if s.release {
        v.push(ComparisonKind::Release);
    }
    if s.release_to_default {
        v.push(ComparisonKind::ReleaseToDefault);
    }
    if s.source_delta {
        v.push(ComparisonKind::SourceDelta);
    }
    if s.working_tree {
        v.push(ComparisonKind::WorkingTree);
    }
    assert(v@ =~= kinds_in_order(*s));
    v
}

/// A group of changes under way: its base id, the first change of the group
/// (by frame and position), and the comparisons that showed it.
pub struct PendingFinding {
    pub base_id: String,
    pub frame: usize,
    pub change: usize,
    pub kinds: KindSet,
}

/// A pending group as a mathematical value.
pub struct PendingModel {
    pub base_id: Seq<char>,
    pub frame: int,
    pub change: int,
    pub kinds: KindSet,
}

impl View for PendingFinding {
    type V = PendingModel;

    open spec fn view(&self) -> PendingModel {
        PendingModel { base_id: self.base_id@, frame: self.frame as int, change: self.change as int, kinds: self.kinds }
    }
}

pub open spec fn pending_models(ps: Seq<PendingFinding>) -> Seq<PendingModel> {
    ps.map_values(|p: PendingFinding| p@)
}

/// The change at a position.
pub open spec fn change_at(frames: Seq<EvidenceFrame>, f: int, c: int) -> SemanticChange {
    frames[f].changes@[c]
}

/// The groups refer to changes that exist.
pub open spec fn pendings_valid(frames: Seq<EvidenceFrame>, ps: Seq<PendingModel>) -> bool {
    forall|i: int| 0 <= i < ps.len() ==> 0 <= (#[trigger] ps[i]).frame < frames.len()
        && 0 <= ps[i].change < frames[ps[i].frame].changes@.len()
}

/// The first group with base id `id` whose change shows the same evidence as `c` (-1 for none).
pub open spec fn group_index(frames: Seq<EvidenceFrame>, ps: Seq<PendingModel>, id: Seq<char>, c: SemanticChange) -> int
    decreases ps.len(),
{
    if ps.len() == 0 {
        -1
    } else {
        let r = group_index(frames, ps.drop_last(), id, c);
        let p = ps.last();
        if r >= 0 {
            r
        } else if p.base_id == id && same_evidence(change_at(frames, p.frame, p.change), c) {
            ps.len() - 1
        } else {
            -1
        }
    }
}

/// The groups after the change at (`f`, `c`): it joins the group of its base
/// id and evidence (adding its comparison), or starts one.
pub open spec fn group_change(frames: Seq<EvidenceFrame>, ps: Seq<PendingModel>, f: int, c: int) -> Seq<PendingModel> {
    let ch = change_at(frames, f, c);
    let id = finding_id_text(change_analyzer(frames[f].analyzer_id, ch), ch);
    let i = group_index(frames, ps, id, ch);
    if i >= 0 {
        ps.update(i, PendingModel { kinds: with_kind(ps[i].kinds, frames[f].kind), ..ps[i] })
    } else {
        ps.push(PendingModel { base_id: id, frame: f, change: c, kinds: with_kind(no_kinds(), frames[f].kind) })
    }
}

/// The groups of the changes of frames before `f`, and of the first `c` changes of frame `f`.
pub open spec fn groups_upto(frames: Seq<EvidenceFrame>, f: nat, c: nat) -> Seq<PendingModel>
    decreases f, c,
{
    if c == 0 {
        if f == 0 || f > frames.len() {
            seq![]
        } else {
            groups_upto(frames, (f - 1) as nat, frames[f - 1].changes@.len())
        }
    } else {
        group_change(frames, groups_upto(frames, f, (c - 1) as nat), f as int, c - 1)
    }
}

/// The groups of all the changes, in the order they were first seen.
pub open spec fn change_groups(frames: Seq<EvidenceFrame>) -> Seq<PendingModel> {
    groups_upto(frames, frames.len(), 0)
}

proof fn lemma_group_index_prefix(frames: Seq<EvidenceFrame>, ps: Seq<PendingModel>, k: int, id: Seq<char>, c: SemanticChange)
    requires
        0 <= k <= ps.len(),
        group_index(frames, ps.take(k), id, c) >= 0,
    ensures
        group_index(frames, ps, id, c) == group_index(frames, ps.take(k), id, c),
    decreases ps.len() - k,
{
    if k < ps.len() {
        assert(ps.drop_last().take(k) =~= ps.take(k));
        lemma_group_index_prefix(frames, ps.drop_last(), k, id, c);
    } else {
        assert(ps.take(k) =~= ps);
    }
}

proof fn lemma_group_index_bounds(frames: Seq<EvidenceFrame>, ps: Seq<PendingModel>, id: Seq<char>, c: SemanticChange)
    ensures
        -1 <= group_index(frames, ps, id, c) < ps.len(),
    decreases ps.len(),
{
    if ps.len() > 0 {
        lemma_group_index_bounds(frames, ps.drop_last(), id, c);
    }
}

fn same_opt_text(a: &Option<String>, b: &Option<String>) -> (r: bool)
    ensures
        r == (opt_text(*a) == opt_text(*b)),
{
    match (a, b) {
        (Some(x), Some(y)) => str_eq(x.as_str(), y.as_str()),
        (None, None) => true,
        _ => false,
    }
}

fn opt_text_less(a: &Option<String>, b: &Option<String>) -> (r: bool)
    ensures
        r == opt_lt(opt_text(*a), opt_text(*b)),
{
    match (a, b) {
        (None, Some(_)) => true,
        (Some(x), Some(y)) => lex_less(x.as_str(), y.as_str()),
        _ => false,
    }
}

/// Whether two changes show the same evidence (see `same_evidence`).
pub fn evidence_same(a: &SemanticChange, b: &SemanticChange) -> (r: bool)
    ensures
        r == same_evidence(*a, *b),
{
    same_opt_text(&a.before_signature, &b.before_signature)
        && same_opt_text(&a.after_signature, &b.after_signature)
        && path_same(a.file_path.as_str(), b.file_path.as_str())
        && str_eq(a.summary.as_str(), b.summary.as_str())
}

/// Whether the evidence of `a` sorts before that of `b` (see `evidence_lt`).
pub fn evidence_before(a: &SemanticChange, b: &SemanticChange) -> (r: bool)
    ensures
        r == evidence_lt(*a, *b),
{
    if opt_text_less(&a.before_signature, &b.before_signature) {
        return true;
    }
    if !same_opt_text(&a.before_signature, &b.before_signature) {
        return false;
    }
    if opt_text_less(&a.after_signature, &b.after_signature) {
        return true;
    }
    if !same_opt_text(&a.after_signature, &b.after_signature) {
        return false;
    }
    if path_less(a.file_path.as_str(), b.file_path.as_str()) {
        return true;
    }
    path_same(a.file_path.as_str(), b.file_path.as_str()) && lex_less(a.summary.as_str(), b.summary.as_str())
}

fn frame_analyzer(frame: &EvidenceFrame, change: &SemanticChange) -> (r: String)
    ensures
        r@ == change_analyzer(frame.analyzer_id, *change),
{
    if change.category == SemanticChangeCategory::Package {
        "monochange/package-lifecycle".to_string()
    } else {
        match &frame.analyzer_id {
            Some(a) => a.clone(),
            None => "monochange/unknown-analyzer".to_string(),
        }
    }
}

fn group_position(
    frames: &[EvidenceFrame],
    ps: &Vec<PendingFinding>,
    id: &str,
    change: &SemanticChange,
) -> (r: Option<usize>)
    requires
        pendings_valid(frames@, pending_models(ps@)),
    ensures
        match r {
            Some(i) => group_index(frames@, pending_models(ps@), id@, *change) == i as int,
            None => group_index(frames@, pending_models(ps@), id@, *change) == -1,
        },
{
    let ghost ms = pending_models(ps@);
    let mut i: usize = 0;
    while i < ps.len()
        invariant
            i <= ps@.len(),
            ms == pending_models(ps@),
            pendings_valid(frames@, ms),
            group_index(frames@, ms.take(i as int), id@, *change) == -1,
        decreases ps@.len() - i,
    {
        let p = &ps[i];
        proof {
            assert(ms[i as int] == p@);
            assert(0 <= ms[i as int].frame < frames@.len());
        }
        let same = str_eq(p.base_id.as_str(), id)
            && evidence_same(&frames[p.frame].changes[p.change], change);
        proof {
            assert(ms.take(i + 1).drop_last() =~= ms.take(i as int));
            assert(ms.take(i + 1).last() == ms[i as int]);
        }
        if same {
            proof {
                lemma_group_index_prefix(frames@, ms, i + 1, id@, *change);
            }
            return Some(i);
        }
        i = i + 1;
    }
    assert(ms.take(ps@.len() as int) =~= ms);
    None
}

/// Groups the changes of the frames by base id and evidence (see `change_groups`).
pub fn group_changes(frames: &[EvidenceFrame]) -> (r: Vec<PendingFinding>)
    ensures
        pending_models(r@) == change_groups(frames@),
        pendings_valid(frames@, pending_models(r@)),
{
    let mut ps: Vec<PendingFinding> = Vec::new();
    let mut f: usize = 0;
    while f < frames.len()
        invariant
            f <= frames@.len(),
            pending_models(ps@) == groups_upto(frames@, f as nat, 0),
            pendings_valid(frames@, pending_models(ps@)),
        decreases frames@.len() - f,
    {
        let frame = &frames[f];
        let mut c: usize = 0;
        while c < frame.changes.len()
            invariant
                f < frames@.len(),
                frame == &frames@[f as int],
                c <= frame.changes@.len(),
                pending_models(ps@) == groups_upto(frames@, f as nat, c as nat),
                pendings_valid(frames@, pending_models(ps@)),
            decreases frame.changes@.len() - c,
        {
            let change = &frame.changes[c];
            let analyzer = frame_analyzer(frame, change);
            let id = finding_id(analyzer.as_str(), change);
            let ghost before = pending_models(ps@);
            proof {
                assert(change_at(frames@, f as int, c as int) == *change);
                lemma_group_index_bounds(frames@, before, id@, *change);
            }
            match group_position(frames, &ps, id.as_str(), change) {
                Some(i) => {
                    let mut p = ps.remove(i);
                    add_kind(&mut p.kinds, frame.kind);
                    ps.insert(i, p);
                    proof {
                        assert(pending_models(ps@) =~= before.update(i as int, PendingModel {
                            kinds: with_kind(before[i as int].kinds, frames@[f as int].kind),
                            ..before[i as int]
                        }));
                    }
                },
                None => {
                    let ghost idv = id@;
                    ps.push(PendingFinding { base_id: id, frame: f, change: c, kinds: KindSet {
                        pull_request: false,
                        release: false,
                        release_to_default: false,
                        source_delta: false,
                        working_tree: false,
                    } });
                    let n = ps.len() - 1;
                    let mut p = ps.remove(n);
                    add_kind(&mut p.kinds, frame.kind);
                    ps.push(p);
                    proof {
                        assert(pending_models(ps@) =~= before.push(PendingModel {
                            base_id: idv,
                            frame: f as int,
                            change: c as int,
                            kinds: with_kind(no_kinds(), frames@[f as int].kind),
                        }));
                    }
                },
            }
            proof {
                assert(pendings_valid(frames@, pending_models(ps@))) by {
                    assert forall|i: int| 0 <= i < pending_models(ps@).len() implies 0 <= (#[trigger] pending_models(ps@)[i]).frame < frames@.len()
                        && 0 <= pending_models(ps@)[i].change < frames@[pending_models(ps@)[i].frame].changes@.len() by {
                        if i < before.len() {
                            assert(pending_models(ps@)[i].frame == before[i].frame);
                            assert(pending_models(ps@)[i].change == before[i].change);
                        }
                    }
                }
            }
            c = c + 1;
        }
        f = f + 1;
    }
    ps
}

/// Group `a` sorts before group `b`: by base id, then by the evidence of their changes.
pub open spec fn group_lt(frames: Seq<EvidenceFrame>, a: PendingModel, b: PendingModel) -> bool {
    ||| lex_lt(a.base_id, b.base_id)
    ||| a.base_id == b.base_id && evidence_lt(change_at(frames, a.frame, a.change), change_at(frames, b.frame, b.change))
}

/// Where an insertion puts `x`: before the first group that sorts after it.
pub open spec fn group_insert_index(frames: Seq<EvidenceFrame>, s: Seq<PendingModel>, x: PendingModel) -> nat
    decreases s.len(),
{
    if s.len() == 0 {
        0
    } else if group_lt(frames, x, s[0]) {
        0
    } else {
        1 + group_insert_index(frames, s.drop_first(), x)
    }
}

/// The groups in order (by insertion, one after another).
pub open spec fn sorted_groups(frames: Seq<EvidenceFrame>, s: Seq<PendingModel>) -> Seq<PendingModel>
    decreases s.len(),
{
    if s.len() == 0 {
        s
    } else {
        let r = sorted_groups(frames, s.drop_last());
        r.insert(group_insert_index(frames, r, s.last()) as int, s.last())
    }
}

proof fn lemma_group_insert_index(frames: Seq<EvidenceFrame>, s: Seq<PendingModel>, x: PendingModel, p: int)
    requires
        0 <= p <= s.len(),
        forall|j: int| 0 <= j < p ==> !group_lt(frames, x, #[trigger] s[j]),
        p == s.len() || group_lt(frames, x, s[p]),
    ensures
        group_insert_index(frames, s, x) == p,
    decreases s.len(),
{
    if p > 0 {
        let t = s.drop_first();
        assert forall|j: int| 0 <= j < p - 1 implies !group_lt(frames, x, #[trigger] t[j]) by {
            assert(t[j] == s[j + 1]);
        }
        if p < s.len() {
            assert(t[p - 1] == s[p]);
        }
        assert(!group_lt(frames, x, s[0]));
        lemma_group_insert_index(frames, t, x, p - 1);
    }
}

/// The group's changes exist.
pub open spec fn pending_valid(frames: Seq<EvidenceFrame>, p: PendingModel) -> bool {
    0 <= p.frame < frames.len() && 0 <= p.change < frames[p.frame].changes@.len()
}

fn group_before(frames: &[EvidenceFrame], a: &PendingFinding, b: &PendingFinding) -> (r: bool)
    requires
        pending_valid(frames@, a@),
        pending_valid(frames@, b@),
    ensures
        r == group_lt(frames@, a@, b@),
{
    if lex_less(a.base_id.as_str(), b.base_id.as_str()) {
        return true;
    }
    str_eq(a.base_id.as_str(), b.base_id.as_str())
        && evidence_before(&frames[a.frame].changes[a.change], &frames[b.frame].changes[b.change])
}

fn sort_groups(frames: &[EvidenceFrame], v: Vec<PendingFinding>) -> (r: Vec<PendingFinding>)
    requires
        pendings_valid(frames@, pending_models(v@)),
    ensures
        pending_models(r@) == sorted_groups(frames@, pending_models(v@)),
        r@.len() == v@.len(),
        forall|i: int| 0 <= i < r@.len() ==> pending_valid(frames@, #[trigger] r@[i]@),
{
    let ghost orig = pending_models(v@);
    let ghost mut k: int = 0;
    let mut rest = v;
    let mut out: Vec<PendingFinding> = Vec::new();
    while rest.len() > 0
        invariant
            0 <= k <= orig.len(),
            pending_models(rest@) == orig.skip(k),
            pending_models(out@) == sorted_groups(frames@, orig.take(k)),
            out@.len() == k,
            pendings_valid(frames@, orig),
            forall|i: int| 0 <= i < out@.len() ==> pending_valid(frames@, #[trigger] out@[i]@),
        decreases rest@.len(),
    {
        let ghost rest_before = rest@;
        let x = rest.remove(0);
        proof {
            assert(pending_models(rest_before).len() == rest_before.len());
            assert(x == rest_before[0]);
            assert(pending_models(rest_before)[0] == x@);
            assert(orig.skip(k)[0] == x@);
            assert(orig[k] == x@);
            assert(orig.take(k + 1).drop_last() =~= orig.take(k));
            assert(orig.take(k + 1).last() == orig[k]);
            assert(pending_models(rest@) =~= orig.skip(k + 1)) by {
                assert forall|i: int| 0 <= i < rest@.len() implies pending_models(rest@)[i] == orig.skip(k + 1)[i] by {
                    assert(rest@[i] == rest_before[i + 1]);
                    assert(pending_models(rest_before)[i + 1] == orig.skip(k)[i + 1]);
                }
            }
            assert(pending_valid(frames@, orig[k]));
            k = k + 1;
        }
        let mut p: usize = 0;
        while p < out.len() && !group_before(frames, &x, &out[p])
            invariant
                p <= out@.len(),
                pending_valid(frames@, x@),
                forall|i: int| 0 <= i < out@.len() ==> pending_valid(frames@, #[trigger] out@[i]@),
                forall|j: int| 0 <= j < p ==> !group_lt(frames@, x@, #[trigger] pending_models(out@)[j]),
            decreases out@.len() - p,
        {
            proof {
                assert(pending_models(out@)[p as int] == out@[p as int]@);
            }
            p = p + 1;
        }
        proof {
            if p < out@.len() {
                assert(pending_models(out@)[p as int] == out@[p as int]@);
            }
            lemma_group_insert_index(frames@, pending_models(out@), x@, p as int);
        }
        let ghost before = out@;
        out.insert(p, x);
        proof {
            assert(pending_models(out@) =~= pending_models(before).insert(p as int, x@));
            assert forall|i: int| 0 <= i < out@.len() implies pending_valid(frames@, #[trigger] out@[i]@) by {
                if i < p {
                    assert(out@[i] == before[i]);
                } else if i > p {
                    assert(out@[i] == before[i - 1]);
                }
            }
        }
    }
    assert(orig.take(k) =~= orig);
    out
}

/// The number of groups with base id `id`.
pub open spec fn base_count(ps: Seq<PendingModel>, id: Seq<char>) -> nat
    decreases ps.len(),
{
    if ps.len() == 0 {
        0
    } else {
        base_count(ps.drop_last(), id) + if ps.last().base_id == id { 1nat } else { 0nat }
    }
}

/// The stable fingerprint of a change's evidence.
pub open spec fn change_evidence_hash(c: SemanticChange) -> u64 {
    evidence_hash(evidence_key_of(c))
}

/// The finding of a group: the finding of its first change, with the group's
/// comparisons; when several groups share the base id, the id adds `@` and
/// the sixteen hexadecimal digits of the evidence fingerprint.
pub open spec fn group_finding(frames: Seq<EvidenceFrame>, all: Seq<PendingModel>, p: PendingModel, level: DetectionLevel) -> FindingModel {
    let ch = change_at(frames, p.frame, p.change);
    let analyzer = change_analyzer(frames[p.frame].analyzer_id, ch);
    let id = if base_count(all, p.base_id) > 1 {
        p.base_id + "@"@ + hex_fixed(change_evidence_hash(ch) as nat, 16)
    } else {
        p.base_id
    };
    FindingModel { comparisons: kinds_in_order(p.kinds), ..semantic_finding(id, analyzer, ch, level) }
}

/// The findings of the groups, in order.
pub open spec fn group_findings(frames: Seq<EvidenceFrame>, all: Seq<PendingModel>, s: Seq<PendingModel>, level: DetectionLevel) -> Seq<FindingModel>
    decreases s.len(),
{
    if s.len() == 0 {
        seq![]
    } else {
        group_findings(frames, all, s.drop_last(), level).push(group_finding(frames, all, s.last(), level))
    }
}

/// The findings a package's evidence gives: its changes grouped by base id and
/// evidence (see `change_groups`), the groups ordered (see `sorted_groups`),
/// one finding each (see `group_finding`).
pub open spec fn collected_findings(frames: Seq<EvidenceFrame>, level: DetectionLevel) -> Seq<FindingModel> {
    let s = sorted_groups(frames, change_groups(frames));
    group_findings(frames, s, s, level)
}

fn count_base(ps: &Vec<PendingFinding>, id: &str) -> (r: usize)
    ensures
        r as nat == base_count(pending_models(ps@), id@),
{
    let ghost ms = pending_models(ps@);
    let mut n: usize = 0;
    let mut i: usize = 0;
    while i < ps.len()
        invariant
            i <= ps@.len(),
            ms == pending_models(ps@),
            n as nat == base_count(ms.take(i as int), id@),
            n <= i,
        decreases ps@.len() - i,
    {
        proof {
            assert(ms.take(i + 1).drop_last() =~= ms.take(i as int));
            assert(ms.take(i + 1).last() == ps@[i as int]@);
        }
        if str_eq(ps[i].base_id.as_str(), id) {
            n = n + 1;
        }
        i = i + 1;
    }
    assert(ms.take(ps@.len() as int) =~= ms);
    n
}

/// Collects a package's findings from the evidence of its comparisons (see `collected_findings`).
pub fn collect_findings(frames: &[EvidenceFrame], detection_level: DetectionLevel) -> (r: Vec<ClassificationFinding>)
    ensures
        finding_models(r@) == collected_findings(frames@, detection_level),
{
    let groups = group_changes(frames);
    let sorted = sort_groups(frames, groups);
    let ghost all = pending_models(sorted@);
    let mut out: Vec<ClassificationFinding> = Vec::new();
    let mut i: usize = 0;
    while i < sorted.len()
        invariant
            i <= sorted@.len(),
            all == pending_models(sorted@),
            forall|j: int| 0 <= j < sorted@.len() ==> pending_valid(frames@, #[trigger] sorted@[j]@),
            finding_models(out@) == group_findings(frames@, all, all.take(i as int), detection_level),
        decreases sorted@.len() - i,
    {
        let p = &sorted[i];
        proof {
            assert(pending_valid(frames@, p@));
            assert(all.take(i + 1).drop_last() =~= all.take(i as int));
            assert(all.take(i + 1).last() == p@);
        }
        let frame = &frames[p.frame];
        let change = &frame.changes[p.change];
        let analyzer = frame_analyzer(frame, change);
        let count = count_base(&sorted, p.base_id.as_str());
        let mut id = p.base_id.clone();
        if count > 1 {
            let key = FindingEvidenceKey::from_change(change);
            let hash = key.stable_fingerprint();
            push_str(&mut id, "@");
            push_hex_fixed(&mut id, hash, 16);
            proof {
                reveal_strlit("@");
                assert(hash == change_evidence_hash(*change));
            }
        }
        let mut finding = finding_from_semantic_change(id, analyzer.as_str(), change, detection_level);
        finding.comparisons = ordered_kinds(&p.kinds);
        let ghost before = finding_models(out@);
        out.push(finding);
        proof {
            assert(change_at(frames@, p@.frame, p@.change) == *change);
            assert(finding@ == group_finding(frames@, all, p@, detection_level));
            assert(finding_models(out@) =~= before.push(finding@));
        }
        i = i + 1;
    }
    assert(all.take(sorted@.len() as int) =~= all);
    out
}

/// No two groups share a base id and evidence.
pub open spec fn groups_distinct(frames: Seq<EvidenceFrame>, ps: Seq<PendingModel>) -> bool {
    forall|i: int, j: int| 0 <= i < j < ps.len() ==> !(#[trigger] ps[i].base_id == #[trigger] ps[j].base_id
        && same_evidence(change_at(frames, ps[i].frame, ps[i].change), change_at(frames, ps[j].frame, ps[j].change)))
}

proof fn lemma_group_index_none(frames: Seq<EvidenceFrame>, ps: Seq<PendingModel>, id: Seq<char>, c: SemanticChange)
    ensures
        group_index(frames, ps, id, c) == -1 ==> forall|i: int| 0 <= i < ps.len()
            ==> !((#[trigger] ps[i]).base_id == id && same_evidence(change_at(frames, ps[i].frame, ps[i].change), c)),
    decreases ps.len(),
{
    if ps.len() > 0 {
        lemma_group_index_none(frames, ps.drop_last(), id, c);
        if group_index(frames, ps, id, c) == -1 {
            assert forall|i: int| 0 <= i < ps.len() implies !((#[trigger] ps[i]).base_id == id
                && same_evidence(change_at(frames, ps[i].frame, ps[i].change), c)) by {
                if i < ps.len() - 1 {
                    assert(ps.drop_last()[i] == ps[i]);
                }
            }
        }
    }
}

/// Grouping the changes never makes two groups of the same base id and
/// evidence: each finding stands for one distinct piece of evidence.
pub proof fn lemma_groups_distinct(frames: Seq<EvidenceFrame>, f: nat, c: nat)
    ensures
        groups_distinct(frames, groups_upto(frames, f, c)),
    decreases f, c,
{
    if c == 0 {
        if f > 0 && f <= frames.len() {
            lemma_groups_distinct(frames, (f - 1) as nat, frames[f - 1].changes@.len());
        }
    } else {
        lemma_groups_distinct(frames, f, (c - 1) as nat);
        let ps = groups_upto(frames, f, (c - 1) as nat);
        let ch = change_at(frames, f as int, c - 1);
        let id = finding_id_text(change_analyzer(frames[f as int].analyzer_id, ch), ch);
        let i = group_index(frames, ps, id, ch);
        let r = groups_upto(frames, f, c);
        lemma_group_index_bounds(frames, ps, id, ch);
        lemma_group_index_none(frames, ps, id, ch);
        assert forall|a: int, b: int| 0 <= a < b < r.len() implies !(#[trigger] r[a].base_id == #[trigger] r[b].base_id
            && same_evidence(change_at(frames, r[a].frame, r[a].change), change_at(frames, r[b].frame, r[b].change))) by {
            if i >= 0 {
                assert(r[a].base_id == ps[a].base_id && r[a].frame == ps[a].frame && r[a].change == ps[a].change);
                assert(r[b].base_id == ps[b].base_id && r[b].frame == ps[b].frame && r[b].change == ps[b].change);
            } else if b < ps.len() {
                assert(r[a] == ps[a] && r[b] == ps[b]);
            } else {
                assert(r[a] == ps[a]);
                assert(r[b].base_id == id && r[b].frame == f as int && r[b].change == c - 1);
            }
        }
    }
}

} // verus!
