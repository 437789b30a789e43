use vstd::prelude::*;

use crate::error::{error_text, MonochangeError};
use crate::keyed_sort::{dedup_keys, key_of, stably_sorted, dedup_by_text_key, sort_by_text_key};
use crate::model::Ecosystem;
use crate::sync::{
    skipped_package, sync_adapter_available, sync_context_error, sync_context_text, sync_supported,
    copy_changes, DependencySyncChange, SkippedSyncPackage, VersionStrategy, VersionSyncPlan, VersionSyncPlanFile,
};
use crate::version_table::{lookup_version, names_increasing, set_version, VersionEntry};

verus! {

broadcast use vstd::string::group_string_axioms;

/// A workspace package as the `versions` command sees it.
pub struct SyncPackage {
    pub name: String,
    /// The manifest's path relative to the workspace root.
    pub manifest_path: String,
    pub ecosystem: Ecosystem,
    pub current_version: Option<String>,
}

/// The version of the last package named `name` that has one.
pub open spec fn sync_current(ps: Seq<SyncPackage>, name: Seq<char>) -> Option<Seq<char>>
    decreases ps.len(),
{
    if ps.len() == 0 {
        None
    } else if ps.last().name@ == name && ps.last().current_version is Some {
        Some(ps.last().current_version->0@)
    } else {
        sync_current(ps.drop_last(), name)
    }
}

/// The canonical version of each package by name, as a table whose names
/// increase; a later package of the same name wins.
pub fn package_version_map(packages: &[SyncPackage]) -> (r: Vec<VersionEntry>)
    ensures
        names_increasing(r@),
        forall|k: Seq<char>| #[trigger] lookup_version(r@, k) == sync_current(packages@, k),
{
    let mut t: Vec<VersionEntry> = Vec::new();
    let mut i: usize = 0;
    while i < packages.len()
        invariant
            i <= packages@.len(),
            names_increasing(t@),
            forall|k: Seq<char>| #[trigger] lookup_version(t@, k) == sync_current(packages@.take(i as int), k),
        decreases packages@.len() - i,
    {
        proof {
            assert(packages@.take(i + 1).drop_last() =~= packages@.take(i as int));
            assert(packages@.take(i + 1).last() == packages@[i as int]);
        }
        if let Some(v) = &packages[i].current_version {
            set_version(&mut t, packages[i].name.clone(), v.clone());
        }
        i = i + 1;
    }
    assert(packages@.take(packages@.len() as int) =~= packages@);
    t
}

/// The names of the packages, in order.
pub open spec fn package_names(ps: Seq<SyncPackage>) -> Seq<String> {
    ps.map_values(|p: SyncPackage| p.name)
}

/// Names sorted, each once.
pub open spec fn sorted_names(ns: Seq<String>) -> Seq<String> {
    dedup_keys(key_of::<String>(), stably_sorted(key_of::<String>(), ns))
}

/// The names of the workspace's packages, sorted, each once.
pub fn workspace_package_names(packages: &[SyncPackage]) -> (r: Vec<String>)
    ensures
        r@ == sorted_names(package_names(packages@)),
{
    let mut names: Vec<String> = Vec::new();
    let mut i: usize = 0;
    while i < packages.len()
        invariant
            i <= packages@.len(),
            names@ == package_names(packages@.take(i as int)),
        decreases packages@.len() - i,
    {
        names.push(packages[i].name.clone());
        i = i + 1;
        assert(names@ =~= package_names(packages@.take(i as int)));
    }
    assert(packages@.take(packages@.len() as int) =~= packages@);
    dedup_by_text_key(sort_by_text_key(names))
}

/// The new constraint of the last change of the dependency `name`.
pub open spec fn change_value(cs: Seq<DependencySyncChange>, name: Seq<char>) -> Option<Seq<char>>
    decreases cs.len(),
{
    if cs.len() == 0 {
        None
    } else if cs.last().dependency_name@ == name {
        Some(cs.last().new_value@)
    } else {
        change_value(cs.drop_last(), name)
    }
}

/// The new constraint of each changed dependency, as a table whose names
/// increase; a later change of the same dependency wins.
pub fn versioned_deps_from_changes(changes: &[DependencySyncChange]) -> (r: Vec<VersionEntry>)
    ensures
        names_increasing(r@),
        forall|k: Seq<char>| #[trigger] lookup_version(r@, k) == change_value(changes@, k),
{
    let mut t: Vec<VersionEntry> = Vec::new();
    let mut i: usize = 0;
    while i < changes.len()
        invariant
            i <= changes@.len(),
            names_increasing(t@),
            forall|k: Seq<char>| #[trigger] lookup_version(t@, k) == change_value(changes@.take(i as int), k),
        decreases changes@.len() - i,
    {
        proof {
            assert(changes@.take(i + 1).drop_last() =~= changes@.take(i as int));
            assert(changes@.take(i + 1).last() == changes@[i as int]);
        }
        set_version(&mut t, changes[i].dependency_name.clone(), changes[i].new_value.clone());
        i = i + 1;
    }
    assert(changes@.take(changes@.len() as int) =~= changes@);
    t
}

/// What reading a package's manifest, and detecting the stale internal
/// dependency constraints in it, gave.
pub enum ManifestInspection {
    /// The manifest was not read.
    NotRead,
    /// Reading the manifest failed.
    ReadFailed(MonochangeError),
    /// The manifest was read; the ecosystem's detection failed.
    DetectFailed(MonochangeError),
    /// The manifest (at `manifest_path`) was read and checked.
    Detected { manifest_path: String, contents: String, changes: Vec<DependencySyncChange> },
}

/// Some package of the workspace has a current version.
pub open spec fn any_version(ps: Seq<SyncPackage>) -> bool {
    exists|i: int| 0 <= i < ps.len() && (#[trigger] ps[i]).current_version is Some
}

/// The package's manifest is to be read and checked: its ecosystem can be
/// synchronized, and there are versions to synchronize it to.
pub open spec fn needs_inspection(p: SyncPackage, versions: bool) -> bool {
    sync_supported(p.ecosystem) && versions
}

/// The package's inspection failed where it was needed.
pub open spec fn inspection_failed(p: SyncPackage, ins: ManifestInspection, versions: bool) -> bool {
    needs_inspection(p, versions) && (ins is ReadFailed || ins is DetectFailed)
}

/// The package has a file in the plan: it was inspected and has changes.
pub open spec fn is_planned(p: SyncPackage, ins: ManifestInspection, versions: bool) -> bool {
    needs_inspection(p, versions) && (ins matches ManifestInspection::Detected { changes, .. } && changes@.len() > 0)
}

/// The indices of the first `n` packages that have a file in the plan.
pub open spec fn planned_indices(ps: Seq<SyncPackage>, ins: Seq<ManifestInspection>, versions: bool, n: nat) -> Seq<int>
    decreases n,
{
    if n == 0 {
        seq![]
    } else {
        let rest = planned_indices(ps, ins, versions, (n - 1) as nat);
        if is_planned(ps[n - 1], ins[n - 1], versions) { rest.push(n - 1) } else { rest }
    }
}

/// The indices of the first `n` packages whose ecosystem cannot be synchronized.
pub open spec fn skipped_indices(ps: Seq<SyncPackage>, n: nat) -> Seq<int>
    decreases n,
{
    if n == 0 {
        seq![]
    } else {
        let rest = skipped_indices(ps, (n - 1) as nat);
        if !sync_supported(ps[n - 1].ecosystem) { rest.push(n - 1) } else { rest }
    }
}

/// The reason given for a package whose ecosystem cannot be synchronized.
pub open spec fn unsupported_reason() -> Seq<char> {
    "ecosystem sync is not implemented yet"@
}

/// The plan's file for the package at an index matches its inspection.
pub open spec fn file_matches(f: VersionSyncPlanFile, p: SyncPackage, ins: ManifestInspection) -> bool {
    &&& f.path@ == p.manifest_path@
    &&& f.ecosystem == p.ecosystem
    &&& ins matches ManifestInspection::Detected { manifest_path, contents, changes }
    &&& f.manifest_path@ == manifest_path@
    &&& f.contents@ == contents@
    &&& f.changes@ == changes@
}

/// The skipped entry for a package matches it.
pub open spec fn skip_matches(s: SkippedSyncPackage, p: SyncPackage) -> bool {
    &&& s.path@ == p.manifest_path@
    &&& s.package_name@ == p.name@
    &&& s.ecosystem == p.ecosystem
    &&& s.reason@ == unsupported_reason()
}

/// The error reported for a failed inspection.
pub open spec fn inspection_error_matches(e: MonochangeError, p: SyncPackage, ins: ManifestInspection) -> bool {
    match ins {
        ManifestInspection::ReadFailed(read) => e == read,
        ManifestInspection::DetectFailed(cause) =>
            e matches MonochangeError::Config(m) && m@ == sync_context_text("detect"@, p.ecosystem, p.manifest_path@, error_text(cause)),
        _ => false,
    }
}

/// Whether the inspection holds a failure.
fn inspection_error(ins: &ManifestInspection) -> (r: bool)
    ensures
        r == (*ins is ReadFailed || *ins is DetectFailed),
{
    match ins {
        ManifestInspection::ReadFailed(_) | ManifestInspection::DetectFailed(_) => true,
        _ => false,
    }
}

fn clone_error(e: &MonochangeError) -> (r: MonochangeError)
    ensures
        r == *e,
{
    match e {
        MonochangeError::Io(m) => MonochangeError::Io(m.clone()),
        MonochangeError::Config(m) => MonochangeError::Config(m.clone()),
        MonochangeError::Discovery(m) => MonochangeError::Discovery(m.clone()),
        MonochangeError::Diagnostic(m) => MonochangeError::Diagnostic(m.clone()),
        MonochangeError::Reported { output, diagnostic } =>
            MonochangeError::Reported { output: output.clone(), diagnostic: diagnostic.clone() },
        MonochangeError::IoSource { path, source } => MonochangeError::IoSource { path: path.clone(), source: source.clone() },
        MonochangeError::Parse { path, source } => MonochangeError::Parse { path: path.clone(), source: source.clone() },
        MonochangeError::Interactive { message } => MonochangeError::Interactive { message: message.clone() },
        MonochangeError::Cancelled => MonochangeError::Cancelled,
        MonochangeError::Other(m) => MonochangeError::Other(m.clone()),
    }
}

/// Whether any package of the workspace has a current version.
pub fn has_any_version(packages: &[SyncPackage]) -> (r: bool)
    ensures
        r == any_version(packages@),
{
    let mut i: usize = 0;
    while i < packages.len()
        invariant
            i <= packages@.len(),
            forall|j: int| 0 <= j < i ==> (#[trigger] packages@[j]).current_version is None,
        decreases packages@.len() - i,
    {
        if packages[i].current_version.is_some() {
            assert(packages@[i as int].current_version is Some);
            return true;
        }
        i = i + 1;
    }
    false
}

/// Whether the `versions` command reads and checks the manifest of the
/// package at `index` (its ecosystem can be synchronized, and some package has
/// a version to synchronize to).
pub fn needs_manifest_inspection(packages: &[SyncPackage], index: usize) -> (r: bool)
    requires
        index < packages@.len(),
    ensures
        r == needs_inspection(packages@[index as int], any_version(packages@)),
{
    sync_adapter_available(packages[index].ecosystem) && has_any_version(packages)
}

/// Builds the version sync plan of a workspace from its packages and, for each
/// package, what reading and checking its manifest gave.
///
/// Packages whose ecosystem cannot be synchronized are skipped, with a reason.
/// When no package has a version nothing is read. A failed inspection of a
/// package that needed one ends the plan with its error: a read error as it
/// is, a detection error with what was being done and where. Otherwise each
/// inspected package with changes gives one file, in package order.
pub fn plan_discovered_workspace_versions(
    strategy: VersionStrategy,
    packages: &[SyncPackage],
    inspections: &[ManifestInspection],
) -> (r: Result<VersionSyncPlan, MonochangeError>)
    requires
        inspections@.len() == packages@.len(),
    ensures
        ({
            let versions = any_version(packages@);
            match r {
                Ok(plan) => {
                    &&& forall|i: int| 0 <= i < packages@.len() ==> !inspection_failed(#[trigger] packages@[i], inspections@[i], versions)
                    &&& plan.strategy == strategy
                    &&& plan.files@.len() == planned_indices(packages@, inspections@, versions, packages@.len()).len()
                    &&& forall|k: int| 0 <= k < plan.files@.len() ==> {
                        let i = planned_indices(packages@, inspections@, versions, packages@.len())[k];
                        file_matches(#[trigger] plan.files@[k], packages@[i], inspections@[i])
                    }
                    &&& plan.skipped@.len() == skipped_indices(packages@, packages@.len()).len()
                    &&& forall|k: int| 0 <= k < plan.skipped@.len() ==>
                        skip_matches(#[trigger] plan.skipped@[k], packages@[skipped_indices(packages@, packages@.len())[k]])
                },
                Err(e) => exists|i: int| {
                    &&& 0 <= i < packages@.len()
                    &&& inspection_failed(#[trigger] packages@[i], inspections@[i], versions)
                    &&& forall|j: int| 0 <= j < i ==> !inspection_failed(#[trigger] packages@[j], inspections@[j], versions)
                    &&& inspection_error_matches(e, packages@[i], inspections@[i])
                },
            }
        }),
{
    let versions = has_any_version(packages);
    let ghost ps = packages@;
    let ghost ins = inspections@;
    let mut files: Vec<VersionSyncPlanFile> = Vec::new();
    let mut skipped: Vec<SkippedSyncPackage> = Vec::new();
    let mut i: usize = 0;
    while i < packages.len()
        invariant
            ps == packages@,
            ins.len() == ps.len(),
            inspections@ == ins,
            versions == any_version(ps),
            i <= ps.len(),
            forall|j: int| 0 <= j < i ==> !inspection_failed(#[trigger] ps[j], ins[j], versions),
            files@.len() == planned_indices(ps, ins, versions, i as nat).len(),
            forall|k: int| 0 <= k < files@.len() ==> {
                let j = planned_indices(ps, ins, versions, i as nat)[k];
                file_matches(#[trigger] files@[k], ps[j], ins[j])
            },
            skipped@.len() == skipped_indices(ps, i as nat).len(),
            forall|k: int| 0 <= k < skipped@.len() ==> skip_matches(#[trigger] skipped@[k], ps[skipped_indices(ps, i as nat)[k]]),
        decreases ps.len() - i,
    {
        let package = &packages[i];
        let ghost pi = ps[i as int];
        let ghost before_files = files@;
        let ghost before_skipped = skipped@;
        if !sync_adapter_available(package.ecosystem) {
            skipped.push(skipped_package(
                package.manifest_path.as_str(),
                package.name.as_str(),
                package.ecosystem,
                "ecosystem sync is not implemented yet",
            ));
            proof {
                reveal_strlit("ecosystem sync is not implemented yet");
                assert forall|k: int| 0 <= k < skipped@.len() implies skip_matches(#[trigger] skipped@[k], ps[skipped_indices(ps, (i + 1) as nat)[k]]) by {
                    if k < before_skipped.len() {
                        assert(skipped@[k] == before_skipped[k]);
                    }
                }
                assert(!is_planned(pi, ins[i as int], versions));
            }
        } else if versions {
            match &inspections[i] {
                ManifestInspection::NotRead => {},
                ManifestInspection::ReadFailed(error) => {
                    proof {
                        assert(inspection_failed(pi, ins[i as int], versions));
                    }
                    return Err(clone_error(error));
                },
                ManifestInspection::DetectFailed(error) => {
                    let e = sync_context_error("detect", package.ecosystem, package.manifest_path.as_str(), error);
                    proof {
                        reveal_strlit("detect");
                        assert(inspection_failed(pi, ins[i as int], versions));
                    }
                    return Err(e);
                },
                ManifestInspection::Detected { manifest_path, contents, changes } => {
                    if changes.len() > 0 {
                        files.push(VersionSyncPlanFile {
                            path: package.manifest_path.clone(),
                            ecosystem: package.ecosystem,
                            changes: copy_changes(changes),
                            manifest_path: manifest_path.clone(),
                            contents: contents.clone(),
                        });
                        proof {
                            assert forall|k: int| 0 <= k < files@.len() implies {
                                let j = planned_indices(ps, ins, versions, (i + 1) as nat)[k];
                                file_matches(#[trigger] files@[k], ps[j], ins[j])
                            } by {
                                if k < before_files.len() {
                                    assert(files@[k] == before_files[k]);
                                }
                            }
                        }
                    }
                },
            }
        }
        i = i + 1;
    }
    assert(ps.take(ps.len() as int) =~= ps);
    Ok(VersionSyncPlan { strategy, files, skipped })
}

} // verus!
