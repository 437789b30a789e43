use vstd::prelude::*;

use crate::error::MonochangeError;
use crate::text::{chars_of, push_char, starts_with, starts_with_str, str_eq, string_from_range};

verus! {

broadcast use vstd::string::group_string_axioms;

/// How far a release moves a version.
#[derive(Clone, Copy, Debug, PartialEq, Eq, Structural)]
pub enum BumpSeverity {
    NoBump,
    Patch,
    Minor,
    Major,
}

/// Position of a bump in the order `NoBump < Patch < Minor < Major`.
pub open spec fn bump_rank(b: BumpSeverity) -> nat {
    match b {
        BumpSeverity::NoBump => 0,
        BumpSeverity::Patch => 1,
        BumpSeverity::Minor => 2,
        BumpSeverity::Major => 3,
    }
}

/// The bump at a position of the order (ranks above three are `Major`).
pub open spec fn bump_of_rank(r: nat) -> BumpSeverity {
    if r == 0 {
        BumpSeverity::NoBump
    } else if r == 1 {
        BumpSeverity::Patch
    } else if r == 2 {
        BumpSeverity::Minor
    } else {
        BumpSeverity::Major
    }
}

/// The bump as it is displayed.
pub open spec fn bump_name(b: BumpSeverity) -> Seq<char> {
    match b {
        BumpSeverity::NoBump => "none"@,
        BumpSeverity::Patch => "patch"@,
        BumpSeverity::Minor => "minor"@,
        BumpSeverity::Major => "major"@,
    }
}

impl BumpSeverity {
    /// Position in the order `NoBump < Patch < Minor < Major`.
    pub fn rank(&self) -> (r: u8)
        ensures
            r as nat == bump_rank(*self),
    {
        match self {
            BumpSeverity::NoBump => 0,
            BumpSeverity::Patch => 1,
            BumpSeverity::Minor => 2,
            BumpSeverity::Major => 3,
        }
    }

    /// The bump at a position of the order.
    pub fn from_rank(r: u8) -> (b: BumpSeverity)
        ensures
            b == bump_of_rank(r as nat),
    {
        if r == 0 {
            BumpSeverity::NoBump
        } else if r == 1 {
            BumpSeverity::Patch
        } else if r == 2 {
            BumpSeverity::Minor
        } else {
            BumpSeverity::Major
        }
    }

    /// The bump as it is displayed.
    pub fn label(&self) -> (r: &'static str)
        ensures
            r@ == bump_name(*self),
    {
        match self {
            BumpSeverity::NoBump => "none",
            BumpSeverity::Patch => "patch",
            BumpSeverity::Minor => "minor",
            BumpSeverity::Major => "major",
        }
    }
}

pub proof fn lemma_bump_rank_roundtrip(b: BumpSeverity)
    ensures
        bump_of_rank(bump_rank(b)) == b,
        bump_rank(b) <= 3,
{
}

/// Which pair of revisions a piece of evidence compares.
#[derive(Clone, Copy, Debug, PartialEq, Eq, Structural)]
pub enum ComparisonKind {
    PullRequest,
    Release,
    ReleaseToDefault,
    SourceDelta,
    WorkingTree,
}

/// Whether a comparison could be analyzed.
#[derive(Clone, Copy, Debug, PartialEq, Eq, Structural)]
pub enum ComparisonStatus {
    Analyzed,
    Unavailable,
    Conflicted,
}

/// What a change means for the users of a package.
#[derive(Clone, Copy, Debug, PartialEq, Eq, Structural)]
pub enum CompatibilityImpact {
    Unknown,
    Compatible,
    Additive,
    Breaking,
}

/// How sure a finding is.
#[derive(Clone, Copy, Debug, PartialEq, Eq, Structural)]
pub enum ClassificationConfidence {
    Low,
    Medium,
    High,
}

/// Position of a confidence in the order `Low < Medium < High`.
pub open spec fn confidence_rank(c: ClassificationConfidence) -> nat {
    match c {
        ClassificationConfidence::Low => 0,
        ClassificationConfidence::Medium => 1,
        ClassificationConfidence::High => 2,
    }
}

/// The confidence at a position of the order (ranks above two are `High`).
pub open spec fn confidence_of_rank(r: nat) -> ClassificationConfidence {
    if r == 0 {
        ClassificationConfidence::Low
    } else if r == 1 {
        ClassificationConfidence::Medium
    } else {
        ClassificationConfidence::High
    }
}

/// How much of a package's surface the analysis covered.
#[derive(Clone, Copy, Debug, PartialEq, Eq, Structural)]
pub enum AnalysisCompleteness {
    Complete,
    Partial,
    Unsupported,
}

/// What to do about the changeset of a package.
#[derive(Clone, Copy, Debug, PartialEq, Eq, Structural)]
pub enum ChangesetAction {
    Create,
    Update,
    Keep,
    Review,
    NoChangeset,
}

/// Whether a breaking change of a package is carried to its dependents.
#[derive(Clone, Copy, Debug, PartialEq, Eq, Structural)]
pub enum DependencyPropagation {
    Off,
    Public,
}

/// How deeply the analyzers look at a change.
#[derive(Clone, Copy, Debug, PartialEq, Eq, Structural)]
pub enum DetectionLevel {
    Basic,
    Signature,
    Semantic,
}

/// The kind of surface a semantic change touches.
#[derive(Clone, Copy, Debug, PartialEq, Eq, Structural)]
pub enum SemanticChangeCategory {
    Package,
    PublicApi,
    Export,
    Dependency,
    Metadata,
}

/// Whether a semantic change adds, removes or modifies an item.
#[derive(Clone, Copy, Debug, PartialEq, Eq, Structural)]
pub enum SemanticChangeKind {
    Added,
    Removed,
    Modified,
}

pub open spec fn comparison_kind_text(kind: ComparisonKind) -> Seq<char> {
    match kind {
        ComparisonKind::PullRequest => "pullRequest"@,
        ComparisonKind::Release => "release"@,
        ComparisonKind::ReleaseToDefault => "releaseToDefault"@,
        ComparisonKind::SourceDelta => "sourceDelta"@,
        ComparisonKind::WorkingTree => "workingTree"@,
    }
}

/// The name a comparison kind has in reports.
pub fn comparison_kind_name(kind: ComparisonKind) -> (r: &'static str)
    ensures
        r@ == comparison_kind_text(kind),
{
    match kind {
        ComparisonKind::PullRequest => "pullRequest",
        ComparisonKind::Release => "release",
        ComparisonKind::ReleaseToDefault => "releaseToDefault",
        ComparisonKind::SourceDelta => "sourceDelta",
        ComparisonKind::WorkingTree => "workingTree",
    }
}

pub open spec fn comparison_status_text(status: ComparisonStatus) -> Seq<char> {
    match status {
        ComparisonStatus::Analyzed => "analyzed"@,
        ComparisonStatus::Unavailable => "unavailable"@,
        ComparisonStatus::Conflicted => "conflicted"@,
    }
}

/// The name a comparison status has in reports.
pub fn comparison_status_name(status: ComparisonStatus) -> (r: &'static str)
    ensures
        r@ == comparison_status_text(status),
{
    match status {
        ComparisonStatus::Analyzed => "analyzed",
        ComparisonStatus::Unavailable => "unavailable",
        ComparisonStatus::Conflicted => "conflicted",
    }
}

pub open spec fn impact_text(impact: CompatibilityImpact) -> Seq<char> {
    match impact {
        CompatibilityImpact::Unknown => "unknown"@,
        CompatibilityImpact::Compatible => "compatible"@,
        CompatibilityImpact::Additive => "additive"@,
        CompatibilityImpact::Breaking => "breaking"@,
    }
}

/// The name a compatibility impact has in reports.
pub fn compatibility_impact_name(impact: CompatibilityImpact) -> (r: &'static str)
    ensures
        r@ == impact_text(impact),
{
    match impact {
        CompatibilityImpact::Unknown => "unknown",
        CompatibilityImpact::Compatible => "compatible",
        CompatibilityImpact::Additive => "additive",
        CompatibilityImpact::Breaking => "breaking",
    }
}

pub open spec fn confidence_text(confidence: ClassificationConfidence) -> Seq<char> {
    match confidence {
        ClassificationConfidence::Low => "low"@,
        ClassificationConfidence::Medium => "medium"@,
        ClassificationConfidence::High => "high"@,
    }
}

/// The name a confidence has in reports.
pub fn classification_confidence_name(confidence: ClassificationConfidence) -> (r: &'static str)
    ensures
        r@ == confidence_text(confidence),
{
    match confidence {
        ClassificationConfidence::Low => "low",
        ClassificationConfidence::Medium => "medium",
        ClassificationConfidence::High => "high",
    }
}

pub open spec fn completeness_text(c: AnalysisCompleteness) -> Seq<char> {
    match c {
        AnalysisCompleteness::Complete => "complete"@,
        AnalysisCompleteness::Partial => "partial"@,
        AnalysisCompleteness::Unsupported => "unsupported"@,
    }
}

/// The name a completeness has in reports.
pub fn analysis_completeness_name(c: AnalysisCompleteness) -> (r: &'static str)
    ensures
        r@ == completeness_text(c),
{
    match c {
        AnalysisCompleteness::Complete => "complete",
        AnalysisCompleteness::Partial => "partial",
        AnalysisCompleteness::Unsupported => "unsupported",
    }
}

pub open spec fn action_text(a: ChangesetAction) -> Seq<char> {
    match a {
        ChangesetAction::Create => "create"@,
        ChangesetAction::Update => "update"@,
        ChangesetAction::Keep => "keep"@,
        ChangesetAction::Review => "review"@,
        ChangesetAction::NoChangeset => "nochangeset"@,
    }
}

/// The name a changeset action has in reports (its variant name in lower case).
pub fn changeset_action_name(a: ChangesetAction) -> (r: &'static str)
    ensures
        r@ == action_text(a),
{
    match a {
        ChangesetAction::Create => "create",
        ChangesetAction::Update => "update",
        ChangesetAction::Keep => "keep",
        ChangesetAction::Review => "review",
        ChangesetAction::NoChangeset => "nochangeset",
    }
}

pub open spec fn semantic_category_text(category: SemanticChangeCategory) -> Seq<char> {
    match category {
        SemanticChangeCategory::Package => "package"@,
        SemanticChangeCategory::PublicApi => "public_api"@,
        SemanticChangeCategory::Export => "export"@,
        SemanticChangeCategory::Dependency => "dependency"@,
        SemanticChangeCategory::Metadata => "metadata"@,
    }
}

/// The name a semantic change category has in finding ids.
pub fn semantic_category_name(category: SemanticChangeCategory) -> (r: &'static str)
    ensures
        r@ == semantic_category_text(category),
{
    match category {
        SemanticChangeCategory::Package => "package",
        SemanticChangeCategory::PublicApi => "public_api",
        SemanticChangeCategory::Export => "export",
        SemanticChangeCategory::Dependency => "dependency",
        SemanticChangeCategory::Metadata => "metadata",
    }
}

pub open spec fn semantic_kind_text(kind: SemanticChangeKind) -> Seq<char> {
    match kind {
        SemanticChangeKind::Added => "added"@,
        SemanticChangeKind::Removed => "removed"@,
        SemanticChangeKind::Modified => "modified"@,
    }
}

/// The name a semantic change kind has in finding ids.
pub fn semantic_kind_name(kind: SemanticChangeKind) -> (r: &'static str)
    ensures
        r@ == semantic_kind_text(kind),
{
    match kind {
        SemanticChangeKind::Added => "added",
        SemanticChangeKind::Removed => "removed",
        SemanticChangeKind::Modified => "modified",
    }
}

/// The impact of a semantic change: removing or modifying a public item breaks
/// users, adding one is additive, and dependency or metadata changes are compatible.
pub open spec fn impact_of(category: SemanticChangeCategory, kind: SemanticChangeKind) -> CompatibilityImpact {
    match category {
        SemanticChangeCategory::Package | SemanticChangeCategory::PublicApi | SemanticChangeCategory::Export => {
            match kind {
                SemanticChangeKind::Added => CompatibilityImpact::Additive,
                _ => CompatibilityImpact::Breaking,
            }
        },
        _ => CompatibilityImpact::Compatible,
    }
}

/// The compatibility impact of a semantic change.
pub fn compatibility_impact(category: SemanticChangeCategory, kind: SemanticChangeKind) -> (r: CompatibilityImpact)
    ensures
        r == impact_of(category, kind),
{
    match category {
        SemanticChangeCategory::Package | SemanticChangeCategory::PublicApi | SemanticChangeCategory::Export => {
            match kind {
                SemanticChangeKind::Added => CompatibilityImpact::Additive,
                _ => CompatibilityImpact::Breaking,
            }
        },
        _ => CompatibilityImpact::Compatible,
    }
}

pub open spec fn detection_level_of(value: Seq<char>) -> Option<DetectionLevel> {
    if value == "basic"@ {
        Some(DetectionLevel::Basic)
    } else if value == "signature"@ {
        Some(DetectionLevel::Signature)
    } else if value == "semantic"@ {
        Some(DetectionLevel::Semantic)
    } else {
        None
    }
}

pub open spec fn detection_level_error(value: Seq<char>) -> Seq<char> {
    "unsupported detection level `"@ + value + "`; expected basic, signature, or semantic"@
}

/// Parses a detection level name.
pub fn parse_detection_level(value: &str) -> (r: Result<DetectionLevel, MonochangeError>)
    ensures
        match detection_level_of(value@) {
            Some(level) => r == Ok::<DetectionLevel, MonochangeError>(level),
            None => r matches Err(MonochangeError::Config(m)) && m@ == detection_level_error(value@),
        },
{
    if str_eq(value, "basic") {
        Ok(DetectionLevel::Basic)
    } else if str_eq(value, "signature") {
        Ok(DetectionLevel::Signature)
    } else if str_eq(value, "semantic") {
        Ok(DetectionLevel::Semantic)
    } else {
        let mut m = String::new();
        m.append("unsupported detection level `");
        m.append(value);
        m.append("`; expected basic, signature, or semantic");
        Err(MonochangeError::Config(m))
    }
}

pub open spec fn propagation_of(value: Seq<char>) -> Option<DependencyPropagation> {
    if value == "none"@ {
        Some(DependencyPropagation::Off)
    } else if value == "public"@ {
        Some(DependencyPropagation::Public)
    } else {
        None
    }
}

pub open spec fn propagation_error(value: Seq<char>) -> Seq<char> {
    "unsupported dependency propagation `"@ + value + "`; expected none or public"@
}

/// Parses a dependency propagation mode.
pub fn parse_dependency_propagation(value: &str) -> (r: Result<DependencyPropagation, MonochangeError>)
    ensures
        match propagation_of(value@) {
            Some(p) => r == Ok::<DependencyPropagation, MonochangeError>(p),
            None => r matches Err(MonochangeError::Config(m)) && m@ == propagation_error(value@),
        },
{
    if str_eq(value, "none") {
        Ok(DependencyPropagation::Off)
    } else if str_eq(value, "public") {
        Ok(DependencyPropagation::Public)
    } else {
        let mut m = String::new();
        m.append("unsupported dependency propagation `");
        m.append(value);
        m.append("`; expected none or public");
        Err(MonochangeError::Config(m))
    }
}

/// A revision shortened to its first twelve characters.
pub open spec fn short_revision_text(revision: Seq<char>) -> Seq<char> {
    if revision.len() <= 12 {
        revision
    } else {
        revision.take(12)
    }
}

/// The first twelve characters of a revision.
pub fn short_revision(revision: &str) -> (r: String)
    ensures
        r@ == short_revision_text(revision@),
{
    let v = chars_of(revision);
    let end: usize = if v.len() <= 12 { v.len() } else { 12 };
    let r = string_from_range(v.as_slice(), 0, end);
    assert(r@ =~= short_revision_text(revision@));
    r
}

/// `s` without any occurrence of `c`.
pub open spec fn without_char(s: Seq<char>, c: char) -> Seq<char>
    decreases s.len(),
{
    if s.len() == 0 {
        s
    } else if s.last() == c {
        without_char(s.drop_last(), c)
    } else {
        without_char(s.drop_last(), c).push(s.last())
    }
}

/// Text with its code-span backticks removed, for plain-text output.
pub fn plain_text_fragment(value: &str) -> (r: String)
    ensures
        r@ == without_char(value@, '`'),
{
    let v = chars_of(value);
    let mut out = String::new();
    let mut i: usize = 0;
    while i < v.len()
        invariant
            i <= v@.len(),
            out@ == without_char(v@.take(i as int), '`'),
        decreases v@.len() - i,
    {
        assert(v@.take(i + 1).drop_last() =~= v@.take(i as int));
        if v[i] != '`' {
            push_char(&mut out, v[i]);
        }
        i = i + 1;
    }
    assert(v@.take(v@.len() as int) =~= v@);
    out
}

pub open spec fn coverage_note_text(analyzer_id: Seq<char>) -> Seq<char> {
    if analyzer_id == "monochange/package-lifecycle"@ {
        "package manifest presence was compared at both endpoints"@
    } else if starts_with(analyzer_id, "cargo/"@) {
        "syntax-level Rust surface; module reachability, cfg and feature matrices, trait compatibility, and downstream witnesses are not complete"@
    } else if starts_with(analyzer_id, "npm/"@) || starts_with(analyzer_id, "deno/"@) {
        "package metadata and export syntax; entrypoint reachability and TypeScript assignability are not complete"@
    } else if starts_with(analyzer_id, "dart/"@) {
        "Dart declaration syntax; library reachability and analyzer-level type compatibility are not complete"@
    } else {
        "the analyzer does not declare complete compatibility coverage"@
    }
}

/// What an analyzer's findings leave uncovered, by the analyzer's id.
pub fn analyzer_coverage_note(analyzer_id: &str) -> (r: &'static str)
    ensures
        r@ == coverage_note_text(analyzer_id@),
{
    if str_eq(analyzer_id, "monochange/package-lifecycle") {
        return "package manifest presence was compared at both endpoints";
    }
    if starts_with_str(analyzer_id, "cargo/") {
        return "syntax-level Rust surface; module reachability, cfg and feature matrices, trait compatibility, and downstream witnesses are not complete";
    }
    if starts_with_str(analyzer_id, "npm/") || starts_with_str(analyzer_id, "deno/") {
        return "package metadata and export syntax; entrypoint reachability and TypeScript assignability are not complete";
    }
    if starts_with_str(analyzer_id, "dart/") {
        return "Dart declaration syntax; library reachability and analyzer-level type compatibility are not complete";
    }
    "the analyzer does not declare complete compatibility coverage"
}

/// Number of characters at the end of `s` after its last `c`.
pub open spec fn tail_len(s: Seq<char>, c: char) -> nat
    decreases s.len(),
{
    if s.len() == 0 || s.last() == c {
        0
    } else {
        1 + tail_len(s.drop_last(), c)
    }
}

pub proof fn lemma_tail_len_bound(s: Seq<char>, c: char)
    ensures
        tail_len(s, c) <= s.len(),
        tail_len(s, c) < s.len() ==> s[s.len() - tail_len(s, c) - 1] == c,
    decreases s.len(),
{
    if s.len() > 0 && s.last() != c {
        lemma_tail_len_bound(s.drop_last(), c);
    }
}

/// `Path::file_name`: the last component, skipping trailing separators and
/// `.` components; nothing for a path that ends in `..`, is empty or is the root.
pub open spec fn file_name(s: Seq<char>) -> Option<Seq<char>>
    decreases s.len(),
{
    if s.len() == 0 {
        None
    } else if s.last() == '/' {
        file_name(s.drop_last())
    } else {
        let k = tail_len(s, '/');
        let seg = s.skip(s.len() - k);
        if seg == "."@ {
            if k >= s.len() || k == 0 {
                None
            } else {
                file_name(s.take(s.len() - k))
            }
        } else if seg == ".."@ {
            None
        } else {
            Some(seg)
        }
    }
}

/// `Path::extension` of a file name: the text after its last `.`, unless that
/// dot is the name's first character or there is none.
pub open spec fn extension(name: Seq<char>) -> Option<Seq<char>> {
    let k = tail_len(name, '.');
    if k >= name.len() || name.len() - k - 1 == 0 {
        None
    } else {
        Some(name.skip(name.len() - k))
    }
}

/// The extension is `md` in any ASCII case.
pub open spec fn is_markdown_extension(ext: Seq<char>) -> bool {
    ext.len() == 2 && (ext[0] == 'm' || ext[0] == 'M') && (ext[1] == 'd' || ext[1] == 'D')
}

/// A changeset file: a Markdown file under the `.changeset` directory.
pub open spec fn changeset_path(path: Seq<char>) -> bool {
    &&& starts_with(path, ".changeset"@)
    &&& (path.len() == 10 || path[10] == '/')
    &&& match file_name(path) {
        Some(name) => match extension(name) {
            Some(ext) => is_markdown_extension(ext),
            None => false,
        },
        None => false,
    }
}

/// Where the last run of characters other than `c` before `end` starts.
fn tail_start(v: &[char], end: usize, c: char) -> (start: usize)
    requires
        end <= v@.len(),
    ensures
        start <= end,
        end - start == tail_len(v@.take(end as int), c),
{
    let mut start = end;
    assert(v@.take(end as int).take(end as int) =~= v@.take(end as int));
    while start > 0 && v[start - 1] != c
        invariant
            start <= end <= v@.len(),
            tail_len(v@.take(end as int), c) == (end - start) + tail_len(v@.take(start as int), c),
        decreases start,
    {
        assert(v@.take(start as int).drop_last() =~= v@.take(start - 1));
        assert(v@.take(start as int).last() == v@[start - 1]);
        start = start - 1;
    }
    if start > 0 {
        assert(v@.take(start as int).last() == v@[start - 1]);
    }
    start
}

/// The file name of a path, as `Path::file_name` gives it.
pub fn path_file_name(path: &str) -> (r: Option<String>)
    ensures
        match file_name(path@) {
            Some(n) => r matches Some(x) && x@ == n,
            None => r is None,
        },
{
    let v = chars_of(path);
    let mut end = v.len();
    assert(v@.take(end as int) =~= v@);
    loop
        invariant
            end <= v@.len(),
            v@ == path@,
            file_name(path@) == file_name(v@.take(end as int)),
        decreases end,
    {
        let ghost cur = v@.take(end as int);
        if end == 0 {
            return None;
        }
        if v[end - 1] == '/' {
            assert(cur.last() == v@[end - 1]);
            assert(cur.drop_last() =~= v@.take(end - 1));
            end = end - 1;
        } else {
            assert(cur.last() == v@[end - 1]);
            let start = tail_start(v.as_slice(), end, '/');
            let seg = string_from_range(v.as_slice(), start, end);
            assert(seg@ =~= cur.skip(cur.len() - tail_len(cur, '/')));
            proof {
                lemma_tail_len_bound(cur, '/');
            }
            if str_eq(seg.as_str(), ".") {
                if start == 0 {
                    return None;
                }
                assert(cur.take(cur.len() - tail_len(cur, '/')) =~= v@.take(start as int));
                end = start;
            } else if str_eq(seg.as_str(), "..") {
                return None;
            } else {
                return Some(seg);
            }
        }
    }
}

/// Whether a path names a changeset file.
pub fn is_changeset_path(path: &str) -> (r: bool)
    ensures
        r == changeset_path(path@),
{
    if !starts_with_str(path, ".changeset") {
        return false;
    }
    let v = chars_of(path);
    proof {
        reveal_strlit(".changeset");
    }
    if !(v.len() == 10 || v[10] == '/') {
        return false;
    }
    let name = match path_file_name(path) {
        Some(n) => n,
        None => {
            return false;
        },
    };
    let nv = chars_of(name.as_str());
    let k = tail_start(nv.as_slice(), nv.len(), '.');
    assert(nv@.take(nv@.len() as int) =~= nv@);
    proof {
        lemma_tail_len_bound(nv@, '.');
    }
    if k == 0 || k - 1 == 0 {
        return false;
    }
    let ext = string_from_range(nv.as_slice(), k, nv.len());
    assert(ext@ =~= nv@.skip(nv@.len() - tail_len(nv@, '.')));
    let ev = chars_of(ext.as_str());
    ev.len() == 2 && (ev[0] == 'm' || ev[0] == 'M') && (ev[1] == 'd' || ev[1] == 'D')
}

} // verus!
