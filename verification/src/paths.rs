use vstd::prelude::*;

use crate::path_order::{covers_path, paths_increasing, sort_paths};
use crate::text::{chars_of, decimal, push_char, push_decimal, push_str, starts_with, str_eq, string_from_range, trim, trim_str, views};

verus! {

broadcast use vstd::string::group_string_axioms;

/// What `Path::strip_prefix` gives for `path` and `base`: the rest of `path`
/// after the components of `base`, or nothing when `base` is not a prefix.
pub uninterp spec fn path_strip_prefix(path: Seq<char>, base: Seq<char>) -> Option<Seq<char>>;

/// What `String::from_utf8_lossy` gives for `bytes`.
pub uninterp spec fn utf8_lossy(bytes: Seq<u8>) -> Seq<char>;

/// `Path::strip_prefix`, with the rest rendered as text.
#[verifier::external_body]
fn strip_path_prefix(path: &str, base: &str) -> (r: Option<String>)
    ensures
        match path_strip_prefix(path@, base@) {
            Some(rest) => r matches Some(x) && x@ == rest,
            None => r is None,
        },
{
    match std::path::Path::new(path).strip_prefix(base) {
        Ok(rest) => Some(rest.to_string_lossy().into_owned()),
        Err(_) => None,
    }
}

/// `String::from_utf8_lossy`.
#[verifier::external_body]
pub(crate) fn decode_utf8_lossy(bytes: &[u8]) -> (r: String)
    ensures
        r@ == utf8_lossy(bytes@),
{
    String::from_utf8_lossy(bytes).into_owned()
}

/// `Path::is_file`: whether a regular file exists at `path`. The answer
/// depends on the file system, so nothing is stated of it.
#[verifier::external_body]
fn path_is_file(path: &str) -> (r: bool) {
    std::path::Path::new(path).is_file()
}

/// A path is absolute when it starts at the root.
pub open spec fn is_absolute(p: Seq<char>) -> bool {
    p.len() > 0 && p[0] == '/'
}

/// `Path::join`: an absolute `p` replaces `base`; otherwise `p` follows `base`,
/// with one separator between them unless `base` is empty or already ends with one.
pub open spec fn path_join(base: Seq<char>, p: Seq<char>) -> Seq<char> {
    if is_absolute(p) {
        p
    } else if base.len() == 0 || base.last() == '/' {
        base + p
    } else {
        base + seq!['/'] + p
    }
}

/// Joins `p` onto `base` as `Path::join` does.
pub fn join_path(base: &str, p: &str) -> (r: String)
    ensures
        r@ == path_join(base@, p@),
{
    let pv = chars_of(p);
    if pv.len() > 0 && pv[0] == '/' {
        return string_from_range(pv.as_slice(), 0, pv.len());
    }
    let bv = chars_of(base);
    let mut out = String::new();
    push_str(&mut out, base);
    if bv.len() > 0 && bv[bv.len() - 1] != '/' {
        push_char(&mut out, '/');
    }
    push_str(&mut out, p);
    proof {
        if bv@.len() > 0 {
            assert(bv@.last() == bv@[bv@.len() - 1]);
        }
        assert(pv@.take(pv@.len() as int) =~= pv@);
    }
    out
}

/// `s` with every backslash turned into a slash.
pub open spec fn forward_slashes(s: Seq<char>) -> Seq<char> {
    s.map_values(|c: char| if c == '\\' { '/' } else { c })
}

/// The text of a path relative to the workspace root, with forward slashes:
/// the rest after the root when the root is a prefix, the whole path otherwise.
pub fn relative_path_text(stripped: Option<String>, path: &str) -> (r: String)
    ensures
        r@ == forward_slashes(match stripped {
            Some(s) => s@,
            None => path@,
        }),
{
    let source = match stripped {
        Some(s) => s,
        None => path.to_string(),
    };
    let v = chars_of(source.as_str());
    let mut out = String::new();
    let mut i: usize = 0;
    while i < v.len()
        invariant
            i <= v@.len(),
            out@ == forward_slashes(v@.take(i as int)),
        decreases v@.len() - i,
    {
        let c = v[i];
        push_char(&mut out, if c == '\\' { '/' } else { c });
        i = i + 1;
        assert(out@ =~= forward_slashes(v@.take(i as int)));
    }
    assert(v@.take(v@.len() as int) =~= v@);
    out
}

/// The workspace-relative text of a publish readiness input path.
pub fn readiness_relative_path(root: &str, path: &str) -> (r: String)
    ensures
        r@ == forward_slashes(match path_strip_prefix(path@, root@) {
            Some(s) => s,
            None => path@,
        }),
{
    let stripped = strip_path_prefix(path, root);
    relative_path_text(stripped, path)
}

/// Where a release-notes file goes: an absolute path as it is, a relative one under the root.
pub open spec fn output_path(root: Seq<char>, file: Seq<char>) -> Seq<char> {
    if is_absolute(file) { file } else { path_join(root, file) }
}

/// Resolves a release-notes output file against the workspace root.
pub fn absolute_output_path(root: &str, file: &str) -> (r: String)
    ensures
        r@ == output_path(root@, file@),
{
    join_path(root, file)
}

/// The directory, relative to the workspace root, of the committed CLI snapshot baselines.
pub open spec fn baseline_dir() -> Seq<char> {
    ".monochange/cli-snapshots"@
}

/// The workspace-relative baseline path of a registered CLI.
pub open spec fn baseline_path(name: Seq<char>) -> Seq<char> {
    path_join(baseline_dir(), name + ".json"@)
}

/// The workspace-relative baseline file of a registered CLI.
pub fn cli_snapshot_baseline_path(name: &str) -> (r: String)
    ensures
        r@ == baseline_path(name@),
{
    let mut file = String::new();
    push_str(&mut file, name);
    push_str(&mut file, ".json");
    join_path(".monochange/cli-snapshots", file.as_str())
}

/// The baseline path of a registered CLI, relative to the root when the root is its prefix.
pub fn cli_snapshot_root_relative(root: &str, name: &str) -> (r: String)
    ensures
        r@ == (match path_strip_prefix(baseline_path(name@), root@) {
            Some(s) => s,
            None => baseline_path(name@),
        }),
{
    let path = cli_snapshot_baseline_path(name);
    match strip_path_prefix(path.as_str(), root) {
        Some(rest) => rest,
        None => path,
    }
}

/// The stderr part of a failure message: nothing when stderr is blank.
pub open spec fn stderr_excerpt_text(text: Seq<char>) -> Seq<char> {
    if trim(text).len() == 0 {
        Seq::empty()
    } else {
        "\nstderr:\n"@ + trim(text)
    }
}

/// The excerpt of a command's standard error that a failure message ends with.
pub fn stderr_text_excerpt(text: &str) -> (r: String)
    ensures
        r@ == stderr_excerpt_text(text@),
{
    let t = trim_str(text);
    if t.as_str().is_empty() {
        String::new()
    } else {
        let mut out = String::new();
        push_str(&mut out, "\nstderr:\n");
        push_str(&mut out, t.as_str());
        out
    }
}

/// The excerpt of a command's standard error, decoded leniently.
pub fn stderr_excerpt(stderr: &[u8]) -> (r: String)
    ensures
        r@ == stderr_excerpt_text(utf8_lossy(stderr@)),
{
    let text = decode_utf8_lossy(stderr);
    stderr_text_excerpt(text.as_str())
}

/// The message for a changelog output that rendered no notes.
pub open spec fn no_notes_text(output_id: Seq<char>, target_id: Option<Seq<char>>) -> Seq<char> {
    match target_id {
        Some(t) => "changelog output `"@ + output_id + "` produced no release notes for target `"@ + t + "`"@,
        None => "changelog output `"@ + output_id + "` produced no release notes"@,
    }
}

/// Says that a changelog output produced no release notes.
pub fn no_notes_message(output_id: &str, target_id: Option<&str>) -> (r: String)
    ensures
        r@ == no_notes_text(output_id@, match target_id {
            Some(t) => Some(t@),
            None => None,
        }),
{
    let mut s = String::new();
    push_str(&mut s, "changelog output `");
    push_str(&mut s, output_id);
    match target_id {
        Some(t) => {
            push_str(&mut s, "` produced no release notes for target `");
            push_str(&mut s, t);
            push_str(&mut s, "`");
        },
        None => {
            push_str(&mut s, "` produced no release notes");
        },
    }
    s
}

/// The manifest file names of a package type.
pub open spec fn manifest_names(package_type: Seq<char>) -> Seq<Seq<char>> {
    if package_type == "cargo"@ {
        seq!["Cargo.toml"@]
    } else if package_type == "npm"@ {
        seq!["package.json"@]
    } else if package_type == "deno"@ {
        seq!["deno.json"@, "deno.jsonc"@]
    } else if package_type == "dart"@ || package_type == "flutter"@ {
        seq!["pubspec.yaml"@]
    } else if package_type == "python"@ {
        seq!["pyproject.toml"@]
    } else {
        seq![]
    }
}

/// Every supported package type keeps at least one manifest; Dart and
/// Flutter packages both keep `pubspec.yaml` and nothing else.
pub proof fn lemma_supported_types_keep_manifests(package_type: Seq<char>)
    requires
        package_type == "cargo"@ || package_type == "npm"@ || package_type == "deno"@ || package_type == "dart"@
            || package_type == "flutter"@ || package_type == "python"@,
    ensures
        manifest_names(package_type).len() > 0,
        package_type == "dart"@ || package_type == "flutter"@ ==> manifest_names(package_type) == seq!["pubspec.yaml"@],
{
    reveal_strlit("cargo");
    reveal_strlit("npm");
    reveal_strlit("deno");
    reveal_strlit("dart");
    reveal_strlit("flutter");
    reveal_strlit("python");
    assert("dart"@.len() == 4 && "deno"@.len() == 4 && "dart"@[1] != "deno"@[1]);
    assert("dart"@ != "deno"@);
    assert("flutter"@.len() != "cargo"@.len() && "flutter"@.len() != "npm"@.len() && "flutter"@.len() != "deno"@.len());
    assert("dart"@.len() != "cargo"@.len() && "dart"@.len() != "npm"@.len());
}

/// The views of a sequence of string slices.
pub open spec fn str_views(v: Seq<&str>) -> Seq<Seq<char>> {
    v.map_values(|s: &str| s@)
}

/// The manifest files that a package of the given type keeps.
pub fn package_manifest_names_for_type(package_type: &str) -> (r: Vec<&'static str>)
    ensures
        str_views(r@) == manifest_names(package_type@),
{
    let mut r: Vec<&'static str> = Vec::new();
    if str_eq(package_type, "cargo") {
        r.push("Cargo.toml");
    } else if str_eq(package_type, "npm") {
        r.push("package.json");
    } else if str_eq(package_type, "deno") {
        r.push("deno.json");
        r.push("deno.jsonc");
    } else if str_eq(package_type, "dart") || str_eq(package_type, "flutter") {
        r.push("pubspec.yaml");
    } else if str_eq(package_type, "python") {
        r.push("pyproject.toml");
    }
    assert(str_views(r@) =~= manifest_names(package_type@));
    r
}

/// The set of path texts held by `v`.
pub open spec fn path_set(v: Seq<String>) -> Set<Seq<char>> {
    Set::new(|s: Seq<char>| exists|i: int| 0 <= i < v.len() && (#[trigger] v[i])@ == s)
}

/// Adds `path` to the set when it is a file.
pub fn insert_path_if_file(paths: &mut Vec<String>, path: String, is_file: bool)
    ensures
        path_set(final(paths)@) == if is_file { path_set(old(paths)@).insert(path@) } else { path_set(old(paths)@) },
{
    if !is_file {
        return;
    }
    let mut i: usize = 0;
    while i < paths.len()
        invariant
            i <= paths@.len(),
            paths@ == old(paths)@,
            forall|j: int| 0 <= j < i ==> (#[trigger] paths@[j])@ != path@,
        decreases paths@.len() - i,
    {
        if str_eq(paths[i].as_str(), path.as_str()) {
            assert(path_set(paths@) =~= path_set(old(paths)@).insert(path@)) by {
                assert(paths@[i as int]@ == path@);
            }
            return;
        }
        i = i + 1;
    }
    let ghost before = paths@;
    paths.push(path);
    proof {
        assert forall|s: Seq<char>| path_set(paths@).contains(s) <==> path_set(before).insert(path@).contains(s) by {
            if path_set(paths@).contains(s) {
                let w = choose|j: int| 0 <= j < paths@.len() && (#[trigger] paths@[j])@ == s;
                if w < before.len() {
                    assert(before[w] == paths@[w]);
                }
            }
            if path_set(before).contains(s) {
                let w = choose|j: int| 0 <= j < before.len() && (#[trigger] before[j])@ == s;
                assert(paths@[w] == before[w]);
            }
            if s == path@ {
                assert(paths@[before.len() as int]@ == s);
            }
        }
        assert(path_set(paths@) =~= path_set(before).insert(path@));
    }
}

/// Adds `path` to the set when a file exists there. Whether one exists is up
/// to the file system, so the set gains `path` or stays as it was.
pub fn insert_existing_path(paths: &mut Vec<String>, path: String)
    ensures
        path_set(final(paths)@) == path_set(old(paths)@)
            || path_set(final(paths)@) == path_set(old(paths)@).insert(path@),
{
    let is_file = path_is_file(path.as_str());
    insert_path_if_file(paths, path, is_file);
}

/// The workspace files whose contents decide how packages get published.
pub open spec fn publish_tooling_names() -> Seq<Seq<char>> {
    seq![
        "Cargo.toml"@, "package.json"@, "pnpm-workspace.yaml"@, ".npmrc"@, ".yarnrc"@, ".yarnrc.yml"@,
        ".cargo/config.toml"@, ".cargo/config"@, "rust-toolchain.toml"@, "rust-toolchain"@,
        "pyproject.toml"@, "setup.cfg"@, "setup.py"@, "uv.toml"@, "poetry.toml"@, "pdm.toml"@,
        "deno.json"@, "deno.jsonc"@, "pubspec.yaml"@,
    ]
}

/// The lockfiles of the supported package managers.
pub open spec fn lockfile_names() -> Seq<Seq<char>> {
    seq![
        "Cargo.lock"@, "package-lock.json"@, "npm-shrinkwrap.json"@, "pnpm-lock.yaml"@, "yarn.lock"@,
        "bun.lock"@, "bun.lockb"@, "deno.lock"@, "pubspec.lock"@, "uv.lock"@, "poetry.lock"@, "pdm.lock"@,
    ]
}

/// Among `root` joined with each of `names`, those whose answer is `true`.
pub open spec fn answered_candidates(root: Seq<char>, names: Seq<Seq<char>>, answers: Seq<bool>) -> Set<Seq<char>> {
    Set::new(|p: Seq<char>| exists|i: int| 0 <= i < names.len() && #[trigger] answers[i] && p == path_join(root, names[i]))
}

/// Among `root` joined with each of the first `n` names, those whose answer is `true`.
pub open spec fn answered_upto(root: Seq<char>, names: Seq<Seq<char>>, answers: Seq<bool>, n: int) -> Set<Seq<char>> {
    Set::new(|p: Seq<char>| exists|i: int| 0 <= i < n && #[trigger] answers[i] && p == path_join(root, names[i]))
}

/// Adds `root` joined with each of `names` whose answer (whether a file
/// exists there) is `true`.
pub fn insert_candidates_if_files(paths: &mut Vec<String>, root: &str, names: &Vec<&'static str>, answers: &[bool])
    requires
        answers@.len() == names@.len(),
    ensures
        path_set(final(paths)@) == path_set(old(paths)@).union(answered_candidates(root@, str_views(names@), answers@)),
{
    let ghost ns = str_views(names@);
    let mut i: usize = 0;
    assert(path_set(paths@) =~= path_set(old(paths)@).union(answered_upto(root@, ns, answers@, 0)));
    while i < names.len()
        invariant
            i <= names@.len(),
            answers@.len() == names@.len(),
            ns == str_views(names@),
            path_set(paths@) == path_set(old(paths)@).union(answered_upto(root@, ns, answers@, i as int)),
        decreases names@.len() - i,
    {
        let candidate = join_path(root, names[i]);
        let ghost before = path_set(paths@);
        insert_path_if_file(paths, candidate, answers[i]);
        proof {
            assert(ns[i as int] == names@[i as int]@);
            assert forall|p: Seq<char>| answered_upto(root@, ns, answers@, i + 1).contains(p)
                == (answered_upto(root@, ns, answers@, i as int).contains(p) || (answers@[i as int] && p == candidate@)) by {
                if answered_upto(root@, ns, answers@, i + 1).contains(p) {
                    let w = choose|w: int| 0 <= w < i + 1 && #[trigger] answers@[w] && p == path_join(root@, ns[w]);
                    if w < i {
                        assert(answered_upto(root@, ns, answers@, i as int).contains(p));
                    }
                }
                if answered_upto(root@, ns, answers@, i as int).contains(p) {
                    let w = choose|w: int| 0 <= w < i && #[trigger] answers@[w] && p == path_join(root@, ns[w]);
                    assert(0 <= w < i + 1 && answers@[w] && p == path_join(root@, ns[w]));
                }
                if answers@[i as int] && p == candidate@ {
                    assert(answers@[i as int] && p == path_join(root@, ns[i as int]));
                }
            }
            assert(path_set(paths@) =~= path_set(old(paths)@).union(answered_upto(root@, ns, answers@, i + 1)));
        }
        i = i + 1;
    }
    assert(answered_upto(root@, ns, answers@, names@.len() as int) =~= answered_candidates(root@, ns, answers@));
}

/// Whether a file exists at `root` joined with each of `names`, in order.
fn candidate_answers(root: &str, names: &Vec<&'static str>) -> (r: Vec<bool>)
    ensures
        r@.len() == names@.len(),
{
    let mut answers: Vec<bool> = Vec::new();
    let mut i: usize = 0;
    while i < names.len()
        invariant
            i <= names@.len(),
            answers@.len() == i,
        decreases names@.len() - i,
    {
        let candidate = join_path(root, names[i]);
        answers.push(path_is_file(candidate.as_str()));
        i = i + 1;
    }
    answers
}

/// Adds, among `root` joined with each of `names`, those where a file exists:
/// each candidate is asked about, and which exist is up to the file system.
fn insert_existing_candidates(paths: &mut Vec<String>, root: &str, names: &Vec<&'static str>)
    ensures
        exists|answers: Seq<bool>| answers.len() == names@.len() && path_set(final(paths)@)
            == path_set(old(paths)@).union(answered_candidates(root@, str_views(names@), answers)),
{
    let answers = candidate_answers(root, names);
    insert_candidates_if_files(paths, root, names, answers.as_slice());
}

/// Adds the publish tooling files under `root` that exist: each of them is
/// asked about, and which exist is up to the file system.
pub fn insert_publish_tooling_paths(paths: &mut Vec<String>, root: &str)
    ensures
        exists|answers: Seq<bool>| answers.len() == publish_tooling_names().len() && path_set(final(paths)@)
            == path_set(old(paths)@).union(answered_candidates(root@, publish_tooling_names(), answers)),
{
    let names: Vec<&'static str> = vec![
        "Cargo.toml", "package.json", "pnpm-workspace.yaml", ".npmrc", ".yarnrc", ".yarnrc.yml",
        ".cargo/config.toml", ".cargo/config", "rust-toolchain.toml", "rust-toolchain",
        "pyproject.toml", "setup.cfg", "setup.py", "uv.toml", "poetry.toml", "pdm.toml",
        "deno.json", "deno.jsonc", "pubspec.yaml",
    ];
    assert(str_views(names@) =~= publish_tooling_names());
    insert_existing_candidates(paths, root, &names);
}

/// Adds the lockfiles under `root` that exist: each of them is asked about,
/// and which exist is up to the file system.
pub fn insert_lockfile_paths(paths: &mut Vec<String>, root: &str)
    ensures
        exists|answers: Seq<bool>| answers.len() == lockfile_names().len() && path_set(final(paths)@)
            == path_set(old(paths)@).union(answered_candidates(root@, lockfile_names(), answers)),
{
    let names: Vec<&'static str> = vec![
        "Cargo.lock", "package-lock.json", "npm-shrinkwrap.json", "pnpm-lock.yaml", "yarn.lock",
        "bun.lock", "bun.lockb", "deno.lock", "pubspec.lock", "uv.lock", "poetry.lock", "pdm.lock",
    ];
    assert(str_views(names@) =~= lockfile_names());
    insert_existing_candidates(paths, root, &names);
}

/// A configured package: its directory (relative to the workspace root) and its package type.
pub struct PackageLocation {
    pub path: String,
    pub package_type: String,
}

/// `root` joined with each of `names`, in order.
pub open spec fn joined_list(root: Seq<char>, names: Seq<Seq<char>>) -> Seq<Seq<char>> {
    names.map_values(|n: Seq<char>| path_join(root, n))
}

/// For each package in order: its manifests, then its lockfiles, under its directory.
pub open spec fn package_candidate_list(root: Seq<char>, packages: Seq<PackageLocation>) -> Seq<Seq<char>>
    decreases packages.len(),
{
    if packages.len() == 0 {
        seq![]
    } else {
        let p = packages.last();
        let package_root = path_join(root, p.path@);
        package_candidate_list(root, packages.drop_last()) + joined_list(package_root, manifest_names(p.package_type@))
            + joined_list(package_root, lockfile_names())
    }
}

/// The files that may be publish readiness inputs, in the order they are
/// asked about: the workspace configuration, each package's manifests and
/// lockfiles, then the publish tooling files and the lockfiles at the root.
pub open spec fn readiness_candidate_list(root: Seq<char>, packages: Seq<PackageLocation>) -> Seq<Seq<char>> {
    seq![path_join(root, "monochange.toml"@)] + package_candidate_list(root, packages)
        + joined_list(root, publish_tooling_names()) + joined_list(root, lockfile_names())
}

fn push_joined(out: &mut Vec<String>, root: &str, names: &Vec<&'static str>)
    ensures
        views(final(out)@) == views(old(out)@) + joined_list(root@, str_views(names@)),
{
    let mut i: usize = 0;
    while i < names.len()
        invariant
            i <= names@.len(),
            views(out@) == views(old(out)@) + joined_list(root@, str_views(names@).take(i as int)),
        decreases names@.len() - i,
    {
        let ghost before = out@;
        let joined = join_path(root, names[i]);
        let ghost jv = joined@;
        out.push(joined);
        proof {
            assert(str_views(names@)[i as int] == names@[i as int]@);
            assert(str_views(names@).take(i + 1) =~= str_views(names@).take(i as int).push(names@[i as int]@));
            assert(views(out@) =~= views(before).push(jv));
            assert(joined_list(root@, str_views(names@).take(i + 1)) =~= joined_list(root@, str_views(names@).take(i as int)).push(jv));
        }
        i = i + 1;
        assert(views(out@) =~= views(old(out)@) + joined_list(root@, str_views(names@).take(i as int)));
    }
    assert(str_views(names@).take(names@.len() as int) =~= str_views(names@));
}

fn lockfile_name_list() -> (r: Vec<&'static str>)
    ensures
        str_views(r@) == lockfile_names(),
{
    let names: Vec<&'static str> = vec![
        "Cargo.lock", "package-lock.json", "npm-shrinkwrap.json", "pnpm-lock.yaml", "yarn.lock",
        "bun.lock", "bun.lockb", "deno.lock", "pubspec.lock", "uv.lock", "poetry.lock", "pdm.lock",
    ];
    assert(str_views(names@) =~= lockfile_names());
    names
}

fn publish_tooling_name_list() -> (r: Vec<&'static str>)
    ensures
        str_views(r@) == publish_tooling_names(),
{
    let names: Vec<&'static str> = vec![
        "Cargo.toml", "package.json", "pnpm-workspace.yaml", ".npmrc", ".yarnrc", ".yarnrc.yml",
        ".cargo/config.toml", ".cargo/config", "rust-toolchain.toml", "rust-toolchain",
        "pyproject.toml", "setup.cfg", "setup.py", "uv.toml", "poetry.toml", "pdm.toml",
        "deno.json", "deno.jsonc", "pubspec.yaml",
    ];
    assert(str_views(names@) =~= publish_tooling_names());
    names
}

/// The files that may be publish readiness inputs, in the order they are asked about.
pub fn readiness_candidate_paths(root: &str, packages: &[PackageLocation]) -> (r: Vec<String>)
    ensures
        views(r@) == readiness_candidate_list(root@, packages@),
{
    let mut out: Vec<String> = Vec::new();
    out.push(join_path(root, "monochange.toml"));
    proof {
        reveal_strlit("monochange.toml");
        assert(views(out@) =~= seq![path_join(root@, "monochange.toml"@)]);
    }
    let lockfiles = lockfile_name_list();
    let mut k: usize = 0;
    while k < packages.len()
        invariant
            k <= packages@.len(),
            str_views(lockfiles@) == lockfile_names(),
            views(out@) == seq![path_join(root@, "monochange.toml"@)] + package_candidate_list(root@, packages@.take(k as int)),
        decreases packages@.len() - k,
    {
        let package_root = join_path(root, packages[k].path.as_str());
        let names = package_manifest_names_for_type(packages[k].package_type.as_str());
        push_joined(&mut out, package_root.as_str(), &names);
        push_joined(&mut out, package_root.as_str(), &lockfiles);
        proof {
            assert(packages@.take(k + 1).drop_last() =~= packages@.take(k as int));
            assert(packages@.take(k + 1).last() == packages@[k as int]);
        }
        k = k + 1;
        assert(views(out@) =~= seq![path_join(root@, "monochange.toml"@)] + package_candidate_list(root@, packages@.take(k as int)));
    }
    assert(packages@.take(packages@.len() as int) =~= packages@);
    let tooling = publish_tooling_name_list();
    push_joined(&mut out, root, &tooling);
    push_joined(&mut out, root, &lockfiles);
    assert(views(out@) =~= readiness_candidate_list(root@, packages@));
    out
}

/// `r` holds exactly the candidates whose answer is `true` (one answer per
/// candidate), each once as a path: every entry is such a candidate, and every
/// such candidate is covered by an entry equal to it as a path.
pub open spec fn inputs_for_answers(candidates: Seq<Seq<char>>, answers: Seq<bool>, r: Seq<String>) -> bool {
    &&& answers.len() == candidates.len()
    &&& forall|i: int| 0 <= i < r.len() ==> answered_candidate(candidates, answers, #[trigger] r[i]@)
    &&& forall|j: int| 0 <= j < answers.len() && #[trigger] answers[j] ==> covers_path(r, candidates[j])
}

/// `p` is a candidate whose answer is `true`.
pub open spec fn answered_candidate(candidates: Seq<Seq<char>>, answers: Seq<bool>, p: Seq<char>) -> bool {
    exists|j: int| 0 <= j < answers.len() && #[trigger] answers[j] && candidates[j] == p
}

/// The publish readiness inputs, given for each candidate (in the order of
/// `readiness_candidate_list`) whether a file exists there: the candidates
/// whose answer is `true`, in path order, each once as a path.
pub fn readiness_inputs_from(root: &str, packages: &[PackageLocation], exists: &[bool]) -> (r: Vec<String>)
    requires
        exists@.len() == readiness_candidate_list(root@, packages@).len(),
    ensures
        paths_increasing(r@),
        inputs_for_answers(readiness_candidate_list(root@, packages@), exists@, r@),
{
    let candidates = readiness_candidate_paths(root, packages);
    let ghost list = readiness_candidate_list(root@, packages@);
    assert(views(candidates@).len() == candidates@.len());
    let mut chosen: Vec<String> = Vec::new();
    let mut i: usize = 0;
    while i < candidates.len()
        invariant
            i <= candidates@.len(),
            views(candidates@) == list,
            exists@.len() == list.len(),
            forall|k: int| 0 <= k < chosen@.len() ==> exists|j: int| 0 <= j < i && #[trigger] exists@[j]
                && list[j] == (#[trigger] chosen@[k])@,
            forall|j: int| 0 <= j < i && #[trigger] exists@[j] ==> chosen@.contains(candidates@[j]),
        decreases candidates@.len() - i,
    {
        assert(list[i as int] == candidates@[i as int]@);
        let ghost before = chosen@;
        if exists[i] {
            let c = candidates[i].clone();
            chosen.push(c);
            assert(chosen@[before.len() as int] == candidates@[i as int]);
        }
        proof {
            assert forall|j: int| 0 <= j < i + 1 && #[trigger] exists@[j] implies chosen@.contains(candidates@[j]) by {
                if j < i {
                    let w = choose|w: int| 0 <= w < before.len() && before[w] == candidates@[j];
                    assert(chosen@[w] == before[w]);
                } else {
                    assert(chosen@[before.len() as int] == candidates@[j]);
                }
            }
            assert forall|k: int| 0 <= k < chosen@.len() implies exists|j: int| 0 <= j < i + 1 && #[trigger] exists@[j]
                && list[j] == (#[trigger] chosen@[k])@ by {
                if k < before.len() {
                    assert(chosen@[k] == before[k]);
                    let w = choose|w: int| 0 <= w < i && #[trigger] exists@[w] && list[w] == (#[trigger] before[k])@;
                    assert(0 <= w < i + 1 && exists@[w] && list[w] == chosen@[k]@);
                } else {
                    assert(exists@[i as int] && list[i as int] == chosen@[k]@);
                }
            }
        }
        i = i + 1;
    }
    let sorted = sort_paths(chosen.as_slice());
    proof {
        assert forall|i: int| 0 <= i < sorted@.len() implies answered_candidate(list, exists@, #[trigger] sorted@[i]@) by {
            assert(chosen@.contains(sorted@[i]));
            let k = choose|k: int| 0 <= k < chosen@.len() && chosen@[k] == sorted@[i];
            let w = choose|w: int| 0 <= w < candidates@.len() && #[trigger] exists@[w] && list[w] == (#[trigger] chosen@[k])@;
            assert(0 <= w < exists@.len() && exists@[w] && list[w] == sorted@[i]@);
        }
        assert forall|j: int| 0 <= j < exists@.len() && #[trigger] exists@[j] implies covers_path(sorted@, list[j]) by {
            let k = choose|k: int| 0 <= k < chosen@.len() && chosen@[k] == candidates@[j];
            assert(covers_path(sorted@, chosen@[k]@));
            assert(list[j] == candidates@[j]@);
        }
    }
    sorted
}

/// The publish readiness inputs that exist, in path order, each once: every
/// candidate of `readiness_candidate_list` is asked about, and which exist is
/// up to the file system.
pub fn publish_readiness_input_paths(root: &str, packages: &[PackageLocation]) -> (r: Vec<String>)
    ensures
        paths_increasing(r@),
        exists|answers: Seq<bool>| #[trigger] inputs_for_answers(readiness_candidate_list(root@, packages@), answers, r@),
{
    let candidates = readiness_candidate_paths(root, packages);
    assert(views(candidates@).len() == candidates@.len());
    let mut answers: Vec<bool> = Vec::new();
    let mut i: usize = 0;
    while i < candidates.len()
        invariant
            i <= candidates@.len(),
            answers@.len() == i,
        decreases candidates@.len() - i,
    {
        answers.push(path_is_file(candidates[i].as_str()));
        i = i + 1;
    }
    let r = readiness_inputs_from(root, packages, answers.as_slice());
    assert(inputs_for_answers(readiness_candidate_list(root@, packages@), answers@, r@));
    r
}

} // verus!
verus! {

/// What the committed CLI snapshot baseline of a package turned out to be.
pub enum CliSnapshotBaseline {
    /// No baseline is committed.
    Missing,
    /// The baseline is not a snapshot document; the text says why.
    Invalid(String),
    /// The baseline has another snapshot schema version than this tool writes.
    Stale { schema_version: u32, expected_schema_version: u32 },
    /// The baseline can be compared.
    Current,
}

/// Why a baseline can or cannot be compared.
pub open spec fn baseline_description(b: CliSnapshotBaseline) -> Seq<char> {
    match b {
        CliSnapshotBaseline::Missing => "no committed baseline; run `monochange snapshot --save` for this package during release"@,
        CliSnapshotBaseline::Invalid(e) => "committed baseline is not a valid snapshot document: "@ + e@,
        CliSnapshotBaseline::Stale { schema_version, expected_schema_version } => "committed baseline uses snapshot schema version `"@
            + decimal(schema_version as nat) + "` but this monochange expects `"@ + decimal(expected_schema_version as nat) + "`"@,
        CliSnapshotBaseline::Current => "baseline is current"@,
    }
}

/// A human-readable reason for why a baseline can or cannot be diffed.
pub fn describe_cli_snapshot_baseline(baseline: &CliSnapshotBaseline) -> (r: String)
    ensures
        r@ == baseline_description(*baseline),
{
    match baseline {
        CliSnapshotBaseline::Missing => "no committed baseline; run `monochange snapshot --save` for this package during release".to_string(),
        CliSnapshotBaseline::Invalid(e) => {
            let mut m = String::new();
            push_str(&mut m, "committed baseline is not a valid snapshot document: ");
            push_str(&mut m, e.as_str());
            m
        },
        CliSnapshotBaseline::Stale { schema_version, expected_schema_version } => {
            let mut m = String::new();
            push_str(&mut m, "committed baseline uses snapshot schema version `");
            push_decimal(&mut m, *schema_version as u128);
            push_str(&mut m, "` but this monochange expects `");
            push_decimal(&mut m, *expected_schema_version as u128);
            push_str(&mut m, "`");
            m
        },
        CliSnapshotBaseline::Current => "baseline is current".to_string(),
    }
}

} // verus!
