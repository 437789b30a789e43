use vstd::prelude::*;

use crate::error::{error_text, MonochangeError};
use crate::model::{ecosystem_debug_name, Ecosystem};
use crate::text::{chars_of, push_char, push_str, str_eq, string_from_range, trim, trim_str};

verus! {

broadcast use vstd::string::group_string_axioms;

/// Output format of the `versions` command.
#[derive(Clone, Copy, Debug, PartialEq, Eq, Structural)]
pub enum VersionsOutputFormat {
    Text,
    Json,
}

/// Reads an output format name; anything but `json` means text.
pub fn parse_versions_output_format(format_str: &str) -> (r: VersionsOutputFormat)
    ensures
        r == (if format_str@ == "json"@ { VersionsOutputFormat::Json } else { VersionsOutputFormat::Text }),
{
    if str_eq(format_str, "json") {
        VersionsOutputFormat::Json
    } else {
        VersionsOutputFormat::Text
    }
}

/// How internal dependency constraints are written.
#[derive(Clone, Copy, Debug, PartialEq, Eq, Structural)]
pub enum VersionStrategy {
    Default,
    Exact,
    Caret,
    Compatible,
}

pub open spec fn strategy_of(s: Seq<char>) -> VersionStrategy {
    if s == "exact"@ {
        VersionStrategy::Exact
    } else if s == "caret"@ {
        VersionStrategy::Caret
    } else if s == "compatible"@ {
        VersionStrategy::Compatible
    } else {
        VersionStrategy::Default
    }
}

/// Reads a strategy name; an unknown name means the default strategy.
pub fn parse_strategy(strategy_str: &str) -> (r: VersionStrategy)
    ensures
        r == strategy_of(strategy_str@),
{
    if str_eq(strategy_str, "exact") {
        VersionStrategy::Exact
    } else if str_eq(strategy_str, "caret") {
        VersionStrategy::Caret
    } else if str_eq(strategy_str, "compatible") {
        VersionStrategy::Compatible
    } else {
        VersionStrategy::Default
    }
}

pub open spec fn strategy_text(strategy: VersionStrategy) -> Seq<char> {
    match strategy {
        VersionStrategy::Default => "default"@,
        VersionStrategy::Exact => "exact"@,
        VersionStrategy::Caret => "caret"@,
        VersionStrategy::Compatible => "compatible"@,
    }
}

/// The name of a strategy.
pub fn strategy_name(strategy: VersionStrategy) -> (r: &'static str)
    ensures
        r@ == strategy_text(strategy),
{
    match strategy {
        VersionStrategy::Default => "default",
        VersionStrategy::Exact => "exact",
        VersionStrategy::Caret => "caret",
        VersionStrategy::Compatible => "compatible",
    }
}

/// One edit of an internal dependency constraint.
#[derive(Clone, Debug)]
pub struct DependencySyncChange {
    pub dependency_name: String,
    pub section: String,
    pub old_value: String,
    pub new_value: String,
}

impl DependencySyncChange {
    /// A copy of the change.
    pub fn duplicate(&self) -> (r: DependencySyncChange)
        ensures
            r == *self,
    {
        DependencySyncChange {
            dependency_name: self.dependency_name.clone(),
            section: self.section.clone(),
            old_value: self.old_value.clone(),
            new_value: self.new_value.clone(),
        }
    }
}

/// A workspace package skipped by the `versions` command.
#[derive(Clone, Debug)]
pub struct SkippedSyncPackage {
    pub path: String,
    pub package_name: String,
    pub ecosystem: Ecosystem,
    pub reason: String,
}

impl SkippedSyncPackage {
    /// A copy of the entry.
    pub fn duplicate(&self) -> (r: SkippedSyncPackage)
        ensures
            r == *self,
    {
        SkippedSyncPackage {
            path: self.path.clone(),
            package_name: self.package_name.clone(),
            ecosystem: self.ecosystem,
            reason: self.reason.clone(),
        }
    }
}

/// The changes made to one manifest.
#[derive(Clone, Debug)]
pub struct FileSyncResult {
    pub path: String,
    pub ecosystem: Ecosystem,
    pub changes: Vec<DependencySyncChange>,
}

/// The pending edits of one manifest.
pub struct VersionSyncPlanFile {
    pub path: String,
    pub ecosystem: Ecosystem,
    pub changes: Vec<DependencySyncChange>,
    pub manifest_path: String,
    pub contents: String,
}

/// Planned version synchronization work.
pub struct VersionSyncPlan {
    pub strategy: VersionStrategy,
    pub files: Vec<VersionSyncPlanFile>,
    pub skipped: Vec<SkippedSyncPackage>,
}

/// The outcome of synchronizing internal dependency versions.
#[derive(Clone, Debug)]
pub struct SyncResult {
    pub applied: bool,
    pub strategy: VersionStrategy,
    pub changes: Vec<FileSyncResult>,
    pub skipped: Vec<SkippedSyncPackage>,
}

/// The ecosystems whose manifests the `versions` command can rewrite.
pub open spec fn sync_supported(ecosystem: Ecosystem) -> bool {
    ecosystem == Ecosystem::Dart || ecosystem == Ecosystem::Npm
}

/// Whether the `versions` command can rewrite manifests of an ecosystem.
pub fn sync_adapter_available(ecosystem: Ecosystem) -> (r: bool)
    ensures
        r == sync_supported(ecosystem),
{
    match ecosystem {
        Ecosystem::Dart | Ecosystem::Npm => true,
        _ => false,
    }
}

/// A copy of a list of dependency edits.
pub fn copy_changes(changes: &Vec<DependencySyncChange>) -> (r: Vec<DependencySyncChange>)
    ensures
        r@ == changes@,
{
    let mut out: Vec<DependencySyncChange> = Vec::new();
    let mut i: usize = 0;
    while i < changes.len()
        invariant
            i <= changes@.len(),
            out@ == changes@.take(i as int),
        decreases changes@.len() - i,
    {
        out.push(changes[i].duplicate());
        i = i + 1;
        assert(out@ =~= changes@.take(i as int));
    }
    assert(changes@.take(changes@.len() as int) =~= changes@);
    out
}

/// The result of a version sync plan once its files were written (or, for a
/// dry run, not): one entry per planned file, with its path, ecosystem and
/// changes, and the skipped packages of the plan.
pub fn apply_version_sync_plan(plan: &VersionSyncPlan, write_files: bool) -> (r: SyncResult)
    ensures
        r.applied == write_files,
        r.strategy == plan.strategy,
        r.skipped@ == plan.skipped@,
        r.changes@.len() == plan.files@.len(),
        forall|i: int| 0 <= i < plan.files@.len() ==> {
            &&& (#[trigger] r.changes@[i]).path == plan.files@[i].path
            &&& r.changes@[i].ecosystem == plan.files@[i].ecosystem
            &&& r.changes@[i].changes@ == plan.files@[i].changes@
        },
{
    let mut changes: Vec<FileSyncResult> = Vec::new();
    let mut i: usize = 0;
    while i < plan.files.len()
        invariant
            i <= plan.files@.len(),
            changes@.len() == i,
            forall|j: int| 0 <= j < i ==> {
                &&& (#[trigger] changes@[j]).path == plan.files@[j].path
                &&& changes@[j].ecosystem == plan.files@[j].ecosystem
                &&& changes@[j].changes@ == plan.files@[j].changes@
            },
        decreases plan.files@.len() - i,
    {
        let file = &plan.files[i];
        changes.push(FileSyncResult {
            path: file.path.clone(),
            ecosystem: file.ecosystem,
            changes: copy_changes(&file.changes),
        });
        i = i + 1;
    }
    let mut skipped: Vec<SkippedSyncPackage> = Vec::new();
    let mut k: usize = 0;
    while k < plan.skipped.len()
        invariant
            k <= plan.skipped@.len(),
            skipped@ == plan.skipped@.take(k as int),
        decreases plan.skipped@.len() - k,
    {
        skipped.push(plan.skipped[k].duplicate());
        k = k + 1;
        assert(skipped@ =~= plan.skipped@.take(k as int));
    }
    assert(plan.skipped@.take(plan.skipped@.len() as int) =~= plan.skipped@);
    SyncResult { applied: write_files, strategy: plan.strategy, changes, skipped }
}

/// A package that the `versions` command passes over, and why.
pub fn skipped_package(path: &str, package_name: &str, ecosystem: Ecosystem, reason: &str) -> (r: SkippedSyncPackage)
    ensures
        r.path@ == path@,
        r.package_name@ == package_name@,
        r.ecosystem == ecosystem,
        r.reason@ == reason@,
{
    SkippedSyncPackage {
        path: path.to_string(),
        package_name: package_name.to_string(),
        ecosystem,
        reason: reason.to_string(),
    }
}

pub open spec fn sync_context_text(operation: Seq<char>, ecosystem: Ecosystem, path: Seq<char>, cause: Seq<char>) -> Seq<char> {
    "failed to "@ + operation + " "@ + ecosystem_debug_name(ecosystem) + " version sync changes for "@ + path + ": "@ + cause
}

/// Wraps an error of an ecosystem's sync step with what was being done and where.
pub fn sync_context_error(operation: &str, ecosystem: Ecosystem, path: &str, error: &MonochangeError) -> (r: MonochangeError)
    ensures
        r matches MonochangeError::Config(m) && m@ == sync_context_text(operation@, ecosystem, path@, error_text(*error)),
{
    let mut m = String::new();
    push_str(&mut m, "failed to ");
    push_str(&mut m, operation);
    push_str(&mut m, " ");
    push_str(&mut m, ecosystem.debug_name());
    push_str(&mut m, " version sync changes for ");
    push_str(&mut m, path);
    push_str(&mut m, ": ");
    let cause = error.render();
    push_str(&mut m, cause.as_str());
    MonochangeError::Config(m)
}

/// The line that reports one dependency edit.
pub open spec fn change_line(action: Seq<char>, c: DependencySyncChange, path: Seq<char>) -> Seq<char> {
    action + " "@ + c.old_value@ + " → "@ + c.new_value@ + " in "@ + c.dependency_name@ + " ("@ + path + ")\n"@
}

/// The lines of the edits of one file.
pub open spec fn change_lines(action: Seq<char>, cs: Seq<DependencySyncChange>, path: Seq<char>) -> Seq<char>
    decreases cs.len(),
{
    if cs.len() == 0 {
        Seq::empty()
    } else {
        change_lines(action, cs.drop_last(), path) + change_line(action, cs.last(), path)
    }
}

/// The lines of the edits of all files.
pub open spec fn file_lines(action: Seq<char>, fs: Seq<FileSyncResult>) -> Seq<char>
    decreases fs.len(),
{
    if fs.len() == 0 {
        Seq::empty()
    } else {
        file_lines(action, fs.drop_last()) + change_lines(action, fs.last().changes@, fs.last().path@)
    }
}

/// The lines of the skipped packages.
pub open spec fn skipped_lines(ss: Seq<SkippedSyncPackage>) -> Seq<char>
    decreases ss.len(),
{
    if ss.len() == 0 {
        Seq::empty()
    } else {
        let s = ss.last();
        skipped_lines(ss.drop_last()) + "- "@ + s.path@ + " ("@ + ecosystem_debug_name(s.ecosystem) + "): "@ + s.reason@ + "\n"@
    }
}

/// The human-readable report of a sync result.
pub open spec fn sync_report(result: SyncResult, dry_run: bool) -> Seq<char> {
    if result.changes@.len() == 0 && result.skipped@.len() == 0 {
        Seq::empty()
    } else {
        let action = if dry_run { "would update"@ } else { "updated"@ };
        let edits = file_lines(action, result.changes@);
        let skipped = if result.skipped@.len() == 0 {
            Seq::empty()
        } else {
            (if edits.len() > 0 { "\n"@ } else { Seq::empty() }) + "Skipped unsupported ecosystems:\n"@ + skipped_lines(result.skipped@)
        };
        let strategy = "\nStrategy: "@ + strategy_text(result.strategy)
            + " (package config → ecosystem config → ecosystem default; --strategy overrides)\n"@;
        let tail = if dry_run { "\n(dry run — no files were modified)\n"@ } else { Seq::empty() };
        edits + skipped + strategy + tail
    }
}

fn push_change_lines(out: &mut String, action: &str, file: &FileSyncResult)
    ensures
        final(out)@ == old(out)@ + change_lines(action@, file.changes@, file.path@),
{
    let mut i: usize = 0;
    while i < file.changes.len()
        invariant
            i <= file.changes@.len(),
            out@ == old(out)@ + change_lines(action@, file.changes@.take(i as int), file.path@),
        decreases file.changes@.len() - i,
    {
        let c = &file.changes[i];
        proof {
            assert(file.changes@.take(i + 1).drop_last() =~= file.changes@.take(i as int));
            assert(file.changes@.take(i + 1).last() == file.changes@[i as int]);
        }
        push_str(out, action);
        push_str(out, " ");
        push_str(out, c.old_value.as_str());
        push_str(out, " → ");
        push_str(out, c.new_value.as_str());
        push_str(out, " in ");
        push_str(out, c.dependency_name.as_str());
        push_str(out, " (");
        push_str(out, file.path.as_str());
        push_str(out, ")\n");
        i = i + 1;
        assert(out@ =~= old(out)@ + change_lines(action@, file.changes@.take(i as int), file.path@));
    }
    assert(file.changes@.take(file.changes@.len() as int) =~= file.changes@);
}

fn push_skipped_lines(out: &mut String, skipped: &Vec<SkippedSyncPackage>)
    ensures
        final(out)@ == old(out)@ + skipped_lines(skipped@),
{
    let mut k: usize = 0;
    while k < skipped.len()
        invariant
            k <= skipped@.len(),
            out@ == old(out)@ + skipped_lines(skipped@.take(k as int)),
        decreases skipped@.len() - k,
    {
        let s = &skipped[k];
        proof {
            assert(skipped@.take(k + 1).drop_last() =~= skipped@.take(k as int));
            assert(skipped@.take(k + 1).last() == skipped@[k as int]);
        }
        push_str(out, "- ");
        push_str(out, s.path.as_str());
        push_str(out, " (");
        push_str(out, s.ecosystem.debug_name());
        push_str(out, "): ");
        push_str(out, s.reason.as_str());
        push_str(out, "\n");
        k = k + 1;
        assert(out@ =~= old(out)@ + skipped_lines(skipped@.take(k as int)));
    }
    assert(skipped@.take(skipped@.len() as int) =~= skipped@);
}

/// Renders a sync result for people.
pub fn format_sync_result(result: &SyncResult, dry_run: bool, quiet: bool) -> (r: String)
    ensures
        r@ == sync_report(*result, dry_run),
{
    if result.changes.len() == 0 && result.skipped.len() == 0 {
        return String::new();
    }
    let action: &str = if dry_run { "would update" } else { "updated" };
    let mut out = String::new();
    let mut i: usize = 0;
    while i < result.changes.len()
        invariant
            i <= result.changes@.len(),
            out@ == file_lines(action@, result.changes@.take(i as int)),
        decreases result.changes@.len() - i,
    {
        proof {
            assert(result.changes@.take(i + 1).drop_last() =~= result.changes@.take(i as int));
            assert(result.changes@.take(i + 1).last() == result.changes@[i as int]);
        }
        push_change_lines(&mut out, action, &result.changes[i]);
        i = i + 1;
    }
    assert(result.changes@.take(result.changes@.len() as int) =~= result.changes@);
    let ghost edits = out@;
    if result.skipped.len() > 0 {
        if !out.as_str().is_empty() {
            push_str(&mut out, "\n");
        }
        push_str(&mut out, "Skipped unsupported ecosystems:\n");
        push_skipped_lines(&mut out, &result.skipped);
    }
    push_str(&mut out, "\nStrategy: ");
    push_str(&mut out, strategy_name(result.strategy));
    push_str(&mut out, " (package config → ecosystem config → ecosystem default; --strategy overrides)\n");
    if dry_run {
        push_str(&mut out, "\n(dry run — no files were modified)\n");
    }
    assert(out@ =~= sync_report(*result, dry_run));
    out
}

/// A separator of a Python package name: `-`, `_` or `.`.
pub open spec fn is_name_separator(c: char) -> bool {
    c == '-' || c == '_' || c == '.'
}

/// An ASCII letter in lower case; other characters stay as they are.
pub open spec fn ascii_lower(c: char) -> char {
    if 'A' <= c && c <= 'Z' { ((c as u32) + 32) as char } else { c }
}

/// A Python package name in normalized form: ASCII letters in lower case and
/// every run of separators replaced by one `-`.
pub open spec fn normalized_python_name(s: Seq<char>) -> Seq<char>
    decreases s.len(),
{
    if s.len() == 0 {
        s
    } else if is_name_separator(s.last()) {
        let init = normalized_python_name(s.drop_last());
        if s.len() >= 2 && is_name_separator(s[s.len() - 2]) { init } else { init.push('-') }
    } else {
        normalized_python_name(s.drop_last()).push(ascii_lower(s.last()))
    }
}

fn ascii_lower_exec(c: char) -> (r: char)
    ensures
        r == ascii_lower(c),
{
    if 'A' <= c && c <= 'Z' {
        let code: u32 = c as u32;
        assert((code as u8) as u32 == code) by (bit_vector)
            requires
                code < 256u32;
        let b: u8 = (code as u8) + 32;
        b as char
    } else {
        c
    }
}

/// Normalizes a Python package name for comparison.
pub fn normalize_python_package_name(name: &str) -> (r: String)
    ensures
        r@ == normalized_python_name(name@),
{
    let v = chars_of(name);
    let mut out = String::new();
    let mut i: usize = 0;
    while i < v.len()
        invariant
            i <= v@.len(),
            out@ == normalized_python_name(v@.take(i as int)),
        decreases v@.len() - i,
    {
        let c = v[i];
        proof {
            assert(v@.take(i + 1).drop_last() =~= v@.take(i as int));
            assert(v@.take(i + 1).last() == c);
            if i >= 1 {
                assert(v@.take(i + 1)[i - 1] == v@[i - 1]);
            }
        }
        if c == '-' || c == '_' || c == '.' {
            let prev_sep = i >= 1 && (v[i - 1] == '-' || v[i - 1] == '_' || v[i - 1] == '.');
            if !prev_sep {
                push_char(&mut out, '-');
            }
        } else {
            push_char(&mut out, ascii_lower_exec(c));
        }
        i = i + 1;
    }
    assert(v@.take(v@.len() as int) =~= v@);
    out
}

/// What follows the package name in a requirement, with an extras list `[...]`
/// right after the name removed.
pub open spec fn after_name(req: Seq<char>, name: Seq<char>) -> Seq<char> {
    let rest = req.skip(name.len() as int);
    if rest.len() > 0 && rest[0] == '[' && crate::text::count_until(rest, ']') < rest.len() {
        rest.skip((crate::text::count_until(rest, ']') + 1) as int)
    } else {
        rest
    }
}

/// The version constraint of a Python requirement on `name`: the trimmed text
/// after the name and its extras, when the requirement starts with the name
/// and that text is not empty.
pub open spec fn python_constraint(req: Seq<char>, name: Seq<char>) -> Option<Seq<char>> {
    if !crate::text::starts_with(req, name) {
        None
    } else if trim(after_name(req, name)).len() == 0 {
        None
    } else {
        Some(trim(after_name(req, name)))
    }
}

/// The version constraint of a Python requirement on `name`.
pub fn extract_python_version_constraint(requirement: &str, name: &str) -> (r: Option<String>)
    ensures
        match python_constraint(requirement@, name@) {
            Some(c) => r matches Some(x) && x@ == c,
            None => r is None,
        },
{
    if !crate::text::starts_with_str(requirement, name) {
        return None;
    }
    let v = chars_of(requirement);
    let nv = chars_of(name);
    let rest_start = nv.len();
    let ghost rest = v@.skip(rest_start as int);
    let mut start = rest_start;
    if rest_start < v.len() && v[rest_start] == '[' {
        let close = crate::text::index_of_from(v.as_slice(), rest_start, ']');
        proof {
            crate::text::lemma_count_until(rest, ']');
            assert(rest[0] == v@[rest_start as int]);
        }
        if close < v.len() {
            start = close + 1;
            assert(v@.skip(start as int) =~= rest.skip((crate::text::count_until(rest, ']') + 1) as int));
        }
    }
    let tail = string_from_range(v.as_slice(), start, v.len());
    assert(tail@ =~= after_name(requirement@, name@));
    let t = trim_str(tail.as_str());
    if t.as_str().is_empty() {
        None
    } else {
        Some(t)
    }
}

} // verus!
