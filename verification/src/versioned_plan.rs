use vstd::prelude::*;

use crate::error::MonochangeError;
use crate::model::{ecosystem_name, Ecosystem};
use crate::recommendation::opt_text;
use crate::text::{push_str, str_eq, views};
use crate::version_table::{find_version, lookup_version, names_increasing, set_version, VersionEntry};
use crate::versioned::{expand_versioned_file_fields, expanded_fields, MissingFieldBehavior};

verus! {

broadcast use vstd::string::group_string_axioms;

/// The formats a versioned file can be updated in by field paths.
#[derive(Clone, Copy, Debug, PartialEq, Eq, Structural)]
pub enum VersionedFileFormat {
    Json,
    Toml,
    Yaml,
    Yml,
    Env,
}

/// A configured versioned file: a path (or glob) and how to update it.
pub struct VersionedFileSpec {
    pub path: String,
    pub ecosystem_type: Option<Ecosystem>,
    pub format: Option<VersionedFileFormat>,
    pub prefix: Option<String>,
    pub fields: Option<Vec<String>>,
    pub name: Option<String>,
    pub missing_field_behavior: MissingFieldBehavior,
    pub regex: Option<String>,
}

/// A versioned file definition as a mathematical value.
pub struct VersionedFileModel {
    pub path: Seq<char>,
    pub ecosystem_type: Option<Ecosystem>,
    pub format: Option<VersionedFileFormat>,
    pub prefix: Option<Seq<char>>,
    pub fields: Option<Seq<Seq<char>>>,
    pub name: Option<Seq<char>>,
    pub missing_field_behavior: MissingFieldBehavior,
    pub regex: Option<Seq<char>>,
}

/// The texts of an optional list of strings.
pub open spec fn opt_texts(o: Option<Vec<String>>) -> Option<Seq<Seq<char>>> {
    match o {
        Some(v) => Some(views(v@)),
        None => None,
    }
}

impl View for VersionedFileSpec {
    type V = VersionedFileModel;

    open spec fn view(&self) -> VersionedFileModel {
        VersionedFileModel {
            path: self.path@,
            ecosystem_type: self.ecosystem_type,
            format: self.format,
            prefix: opt_text(self.prefix),
            fields: opt_texts(self.fields),
            name: opt_text(self.name),
            missing_field_behavior: self.missing_field_behavior,
            regex: opt_text(self.regex),
        }
    }
}

fn copy_text(o: &Option<String>) -> (r: Option<String>)
    ensures
        opt_text(r) == opt_text(*o),
{
    match o {
        Some(s) => Some(s.clone()),
        None => None,
    }
}

fn copy_texts(v: &Vec<String>) -> (r: Vec<String>)
    ensures
        views(r@) == views(v@),
{
    let mut out: Vec<String> = Vec::new();
    let mut i: usize = 0;
    while i < v.len()
        invariant
            i <= v@.len(),
            views(out@) == views(v@.take(i as int)),
        decreases v@.len() - i,
    {
        let ghost before = views(out@);
        let x = v[i].clone();
        out.push(x);
        proof {
            assert(views(out@) =~= before.push(x@));
            assert(views(v@.take(i + 1)) =~= views(v@.take(i as int)).push(v@[i as int]@));
        }
        i = i + 1;
    }
    assert(v@.take(v@.len() as int) =~= v@);
    out
}

fn same_text(a: &Option<String>, b: &Option<String>) -> (r: bool)
    ensures
        r == (opt_text(*a) == opt_text(*b)),
{
    match (a, b) {
        (Some(x), Some(y)) => str_eq(x.as_str(), y.as_str()),
        (None, None) => true,
        _ => false,
    }
}

fn same_texts(a: &Vec<String>, b: &Vec<String>) -> (r: bool)
    ensures
        r == (views(a@) == views(b@)),
{
    if a.len() != b.len() {
        assert(views(a@).len() != views(b@).len());
        return false;
    }
    let mut i: usize = 0;
    while i < a.len()
        invariant
            i <= a@.len() == b@.len(),
            forall|j: int| 0 <= j < i ==> a@[j]@ == b@[j]@,
        decreases a@.len() - i,
    {
        if !str_eq(a[i].as_str(), b[i].as_str()) {
            assert(views(a@)[i as int] != views(b@)[i as int]);
            return false;
        }
        i = i + 1;
    }
    assert(views(a@) =~= views(b@));
    true
}

impl VersionedFileSpec {
    /// A copy of the definition.
    pub fn duplicate(&self) -> (r: VersionedFileSpec)
        ensures
            r@ == self@,
    {
        VersionedFileSpec {
            path: self.path.clone(),
            ecosystem_type: self.ecosystem_type,
            format: self.format,
            prefix: copy_text(&self.prefix),
            fields: match &self.fields {
                Some(f) => Some(copy_texts(f)),
                None => None,
            },
            name: copy_text(&self.name),
            missing_field_behavior: self.missing_field_behavior,
            regex: copy_text(&self.regex),
        }
    }

    /// Whether two definitions say the same.
    pub fn same_as(&self, other: &VersionedFileSpec) -> (r: bool)
        ensures
            r == (self@ == other@),
    {
        let fields_same = match (&self.fields, &other.fields) {
            (Some(a), Some(b)) => same_texts(a, b),
            (None, None) => true,
            _ => false,
        };
        str_eq(self.path.as_str(), other.path.as_str())
            && self.ecosystem_type == other.ecosystem_type
            && self.format == other.format
            && same_text(&self.prefix, &other.prefix)
            && fields_same
            && same_text(&self.name, &other.name)
            && self.missing_field_behavior == other.missing_field_behavior
            && same_text(&self.regex, &other.regex)
    }
}

/// The views of a list of definitions.
pub open spec fn spec_models(s: Seq<VersionedFileSpec>) -> Seq<VersionedFileModel> {
    s.map_values(|d: VersionedFileSpec| d@)
}

/// Each definition once, at its first occurrence.
pub open spec fn first_occurrences(s: Seq<VersionedFileModel>) -> Seq<VersionedFileModel>
    decreases s.len(),
{
    if s.len() == 0 {
        s
    } else {
        let r = first_occurrences(s.drop_last());
        if s.drop_last().contains(s.last()) { r } else { r.push(s.last()) }
    }
}

/// Keeping first occurrences leaves no definition twice, only definitions of
/// the input, and every definition of the input.
pub proof fn lemma_first_occurrences_distinct_and_complete(s: Seq<VersionedFileModel>)
    ensures
        forall|i: int, j: int| 0 <= i < j < first_occurrences(s).len()
            ==> #[trigger] first_occurrences(s)[i] != #[trigger] first_occurrences(s)[j],
        forall|i: int| 0 <= i < first_occurrences(s).len() ==> s.contains(#[trigger] first_occurrences(s)[i]),
        forall|k: int| 0 <= k < s.len() ==> first_occurrences(s).contains(#[trigger] s[k]),
    decreases s.len(),
{
    if s.len() > 0 {
        let init = s.drop_last();
        let x = s.last();
        lemma_first_occurrences_distinct_and_complete(init);
        let r0 = first_occurrences(init);
        let r = first_occurrences(s);
        if init.contains(x) {
            assert forall|i: int| 0 <= i < r.len() implies s.contains(#[trigger] r[i]) by {
                let k = choose|k: int| 0 <= k < init.len() && init[k] == r[i];
                assert(s[k] == r[i]);
            }
            assert forall|k: int| 0 <= k < s.len() implies r.contains(#[trigger] s[k]) by {
                if k < s.len() - 1 {
                    assert(init[k] == s[k]);
                } else {
                    let m = choose|m: int| 0 <= m < init.len() && init[m] == x;
                    assert(r0.contains(init[m]));
                }
            }
        } else {
            assert forall|i: int, j: int| 0 <= i < j < r.len() implies #[trigger] r[i] != #[trigger] r[j] by {
                if j == r.len() - 1 {
                    assert(r[i] == r0[i]);
                    assert(init.contains(r0[i]));
                } else {
                    assert(r[i] == r0[i] && r[j] == r0[j]);
                }
            }
            assert forall|i: int| 0 <= i < r.len() implies s.contains(#[trigger] r[i]) by {
                if i < r0.len() {
                    assert(r[i] == r0[i]);
                    let k = choose|k: int| 0 <= k < init.len() && init[k] == r[i];
                    assert(s[k] == r[i]);
                } else {
                    assert(s[s.len() - 1] == r[i]);
                }
            }
            assert forall|k: int| 0 <= k < s.len() implies r.contains(#[trigger] s[k]) by {
                if k < s.len() - 1 {
                    assert(init[k] == s[k]);
                    let m = choose|m: int| 0 <= m < r0.len() && r0[m] == s[k];
                    assert(r[m] == r0[m]);
                } else {
                    assert(r[r.len() - 1] == x);
                }
            }
        }
    }
}

/// Drops the definitions that repeat an earlier one.
pub fn dedup_versioned_file_definitions(definitions: &[VersionedFileSpec]) -> (r: Vec<VersionedFileSpec>)
    ensures
        spec_models(r@) == first_occurrences(spec_models(definitions@)),
{
    let ghost ms = spec_models(definitions@);
    let mut out: Vec<VersionedFileSpec> = Vec::new();
    let mut i: usize = 0;
    while i < definitions.len()
        invariant
            i <= definitions@.len(),
            ms == spec_models(definitions@),
            spec_models(out@) == first_occurrences(ms.take(i as int)),
        decreases definitions@.len() - i,
    {
        proof {
            assert(ms.take(i + 1).drop_last() =~= ms.take(i as int));
            assert(ms.take(i + 1).last() == definitions@[i as int]@);
        }
        let mut seen = false;
        let mut j: usize = 0;
        while j < i
            invariant
                j <= i < definitions@.len(),
                ms == spec_models(definitions@),
                seen == exists|k: int| 0 <= k < j && ms[k] == ms[i as int],
            decreases i - j,
        {
            let same = definitions[j].same_as(&definitions[i]);
            proof {
                assert(ms[j as int] == definitions@[j as int]@);
                assert(ms[i as int] == definitions@[i as int]@);
                if !same {
                    assert forall|k: int| 0 <= k < j + 1 && ms[k] == ms[i as int] implies k < j by {}
                }
            }
            if same {
                seen = true;
            }
            j = j + 1;
        }
        proof {
            if seen {
                let k = choose|k: int| 0 <= k < i && ms[k] == ms[i as int];
                assert(ms.take(i as int)[k] == ms[i as int]);
            }
            if ms.take(i as int).contains(ms[i as int]) {
                let k = choose|k: int| 0 <= k < i && ms.take(i as int)[k] == ms[i as int];
                assert(ms[k] == ms[i as int]);
            }
        }
        if !seen {
            let ghost before = spec_models(out@);
            let d = definitions[i].duplicate();
            out.push(d);
            assert(spec_models(out@) =~= before.push(d@));
        }
        i = i + 1;
    }
    assert(ms.take(definitions@.len() as int) =~= ms);
    out
}

/// The dependency version prefix of an ecosystem-typed definition: its own
/// prefix, else the prefix configured for its ecosystem, else the ecosystem's default.
pub open spec fn versioned_prefix_of(
    definition: VersionedFileModel,
    configured_prefix: Option<Seq<char>>,
    default_prefix: Seq<char>,
) -> Seq<char> {
    match definition.prefix {
        Some(p) => p,
        None => match configured_prefix {
            Some(c) => c,
            None => default_prefix,
        },
    }
}

/// Picks the dependency version prefix (see `versioned_prefix_of`).
pub fn resolve_versioned_prefix(
    definition: &VersionedFileSpec,
    configured_prefix: Option<&str>,
    default_prefix: &str,
) -> (r: String)
    ensures
        r@ == versioned_prefix_of(definition@, match configured_prefix { Some(c) => Some(c@), None => None }, default_prefix@),
{
    match &definition.prefix {
        Some(p) => p.clone(),
        None => match configured_prefix {
            Some(c) => c.to_string(),
            None => default_prefix.to_string(),
        },
    }
}

/// How one versioned file definition updates the files it matches.
pub enum VersionedFileUpdate {
    /// Replace the `version` capture of every match of the pattern.
    Regex(String),
    /// Set each field path (a template) in a file of the given format.
    Format {
        format: VersionedFileFormat,
        fields: Vec<String>,
        name: Option<String>,
        missing_field_behavior: MissingFieldBehavior,
    },
    /// Let the ecosystem rewrite its manifest or lockfile: the dependency
    /// fields, the owner's version when `version` is among them, and the
    /// released dependencies (with the prefix, and without it).
    Ecosystem {
        ecosystem: Ecosystem,
        fields: Vec<String>,
        owner_version: Option<String>,
        versioned_deps: Vec<VersionEntry>,
        raw_versions: Vec<VersionEntry>,
    },
    /// An ecosystem file none of whose dependency names was released.
    Unchanged,
}

pub open spec fn format_fields_error(path: Seq<char>) -> Seq<char> {
    "versioned file `"@ + path + "` with format mode is missing fields"@
}

pub open spec fn missing_ecosystem_error(path: Seq<char>) -> Seq<char> {
    "versioned file `"@ + path + "` is missing an ecosystem type"@
}

/// The version a released dependency gets in a table: its released version
/// after `prefix`, for each of the names that was released.
pub open spec fn dep_version(names: Seq<Seq<char>>, released: Seq<VersionEntry>, prefix: Seq<char>, k: Seq<char>) -> Option<Seq<char>> {
    if names.contains(k) {
        match lookup_version(released, k) {
            Some(v) => Some(prefix + v),
            None => None,
        }
    } else {
        None
    }
}

/// A table that holds exactly the released dependencies with their versions after `prefix`.
pub open spec fn is_dep_table(t: Seq<VersionEntry>, names: Seq<Seq<char>>, released: Seq<VersionEntry>, prefix: Seq<char>) -> bool {
    &&& names_increasing(t)
    &&& forall|k: Seq<char>| #[trigger] lookup_version(t, k) == dep_version(names, released, prefix, k)
}

/// Some dependency name was released.
pub open spec fn any_released(names: Seq<Seq<char>>, released: Seq<VersionEntry>) -> bool {
    exists|i: int| 0 <= i < names.len() && lookup_version(released, #[trigger] names[i]) is Some
}

/// The update a definition calls for (see `plan_versioned_file_update`).
pub open spec fn is_versioned_file_update(
    r: Result<VersionedFileUpdate, MonochangeError>,
    d: VersionedFileModel,
    names: Seq<Seq<char>>,
    owner_version: Seq<char>,
    configured_prefix: Option<Seq<char>>,
    default_prefix: Seq<char>,
    default_fields: Seq<Seq<char>>,
    released: Seq<VersionEntry>,
) -> bool {
    match d.regex {
        Some(p) => r matches Ok(VersionedFileUpdate::Regex(q)) && q@ == p,
        None => match d.format {
            Some(f) => match d.fields {
                None => r matches Err(MonochangeError::Config(m)) && m@ == format_fields_error(d.path),
                Some(fs) => r matches Ok(VersionedFileUpdate::Format { format, fields, name, missing_field_behavior })
                    && format == f && views(fields@) == fs && missing_field_behavior == d.missing_field_behavior
                    && opt_text(name) == (if names.len() > 0 { Some(names[0]) } else { None }),
            },
            None => match d.ecosystem_type {
                None => r matches Err(MonochangeError::Config(m)) && m@ == missing_ecosystem_error(d.path),
                Some(e) => {
                    let fields = expanded_fields(
                        match d.fields { Some(fs) => fs, None => default_fields },
                        names,
                    );
                    let prefix = versioned_prefix_of(d, configured_prefix, default_prefix);
                    if !any_released(names, released) {
                        r matches Ok(VersionedFileUpdate::Unchanged)
                    } else {
                        r matches Ok(VersionedFileUpdate::Ecosystem { ecosystem, fields: fv, owner_version: ov, versioned_deps, raw_versions })
                            && ecosystem == e && views(fv@) == fields
                            && opt_text(ov) == (if fields.contains("version"@) { Some(owner_version) } else { None })
                            && is_dep_table(versioned_deps@, names, released, prefix)
                            && is_dep_table(raw_versions@, names, released, Seq::<char>::empty())
                    }
                },
            },
        },
    }
}

fn contains_name(v: &[String], x: &str) -> (r: bool)
    ensures
        r == views(v@).contains(x@),
{
    let mut i: usize = 0;
    while i < v.len()
        invariant
            i <= v@.len(),
            forall|j: int| 0 <= j < i ==> v@[j]@ != x@,
        decreases v@.len() - i,
    {
        if str_eq(v[i].as_str(), x) {
            assert(views(v@)[i as int] == x@);
            return true;
        }
        i = i + 1;
    }
    assert forall|j: int| 0 <= j < views(v@).len() implies views(v@)[j] != x@ by {
        assert(views(v@)[j] == v@[j]@);
    }
    false
}

/// The tables of the released dependencies among `names`: with the prefix,
/// and without it.
fn dep_tables(names: &[String], released: &[VersionEntry], prefix: &str) -> (r: (Vec<VersionEntry>, Vec<VersionEntry>))
    ensures
        is_dep_table(r.0@, views(names@), released@, prefix@),
        is_dep_table(r.1@, views(names@), released@, Seq::<char>::empty()),
        (r.0@.len() > 0) == any_released(views(names@), released@),
{
    let mut deps: Vec<VersionEntry> = Vec::new();
    let mut raw: Vec<VersionEntry> = Vec::new();
    let mut i: usize = 0;
    let mut any = false;
    while i < names.len()
        invariant
            i <= names@.len(),
            is_dep_table(deps@, views(names@.take(i as int)), released@, prefix@),
            is_dep_table(raw@, views(names@.take(i as int)), released@, Seq::<char>::empty()),
            any == any_released(views(names@.take(i as int)), released@),
            any == (deps@.len() > 0),
        decreases names@.len() - i,
    {
        let ghost before = views(names@.take(i as int));
        let ghost after = views(names@.take(i + 1));
        proof {
            assert(after =~= before.push(names@[i as int]@));
        }
        match find_version(released, names[i].as_str()) {
            Some(v) => {
                let mut with_prefix = prefix.to_string();
                push_str(&mut with_prefix, v.as_str());
                let ghost old_deps = deps@;
                let ghost old_raw = raw@;
                set_version(&mut deps, names[i].clone(), with_prefix);
                set_version(&mut raw, names[i].clone(), v);
                proof {
                    assert forall|k: Seq<char>| #[trigger] lookup_version(deps@, k) == dep_version(after, released@, prefix@, k) by {
                        assert(lookup_version(old_deps, k) == dep_version(before, released@, prefix@, k));
                        if k == names@[i as int]@ {
                            assert(after[i as int] == k);
                        } else {
                            if after.contains(k) {
                                let j = choose|j: int| 0 <= j < after.len() && after[j] == k;
                                assert(before[j] == k);
                            }
                            if before.contains(k) {
                                let j = choose|j: int| 0 <= j < before.len() && before[j] == k;
                                assert(after[j] == k);
                            }
                        }
                    }
                    assert forall|k: Seq<char>| #[trigger] lookup_version(raw@, k) == dep_version(after, released@, Seq::<char>::empty(), k) by {
                        assert(lookup_version(old_raw, k) == dep_version(before, released@, Seq::<char>::empty(), k));
                        assert(Seq::<char>::empty() + lookup_version(released@, k)->0 =~= lookup_version(released@, k)->0);
                        if k == names@[i as int]@ {
                            assert(after[i as int] == k);
                        } else {
                            if after.contains(k) {
                                let j = choose|j: int| 0 <= j < after.len() && after[j] == k;
                                assert(before[j] == k);
                            }
                            if before.contains(k) {
                                let j = choose|j: int| 0 <= j < before.len() && before[j] == k;
                                assert(after[j] == k);
                            }
                        }
                    }
                    assert(lookup_version(released@, after[i as int]) is Some);
                    assert(any_released(after, released@));
                    assert(lookup_version(deps@, names@[i as int]@) is Some);
                    if deps@.len() == 0 {
                        assert(lookup_version(deps@, names@[i as int]@) is None);
                    }
                }
                any = true;
            },
            None => {
                proof {
                    assert forall|k: Seq<char>| #[trigger] lookup_version(deps@, k) == dep_version(after, released@, prefix@, k) by {
                        assert(lookup_version(deps@, k) == dep_version(before, released@, prefix@, k));
                        if after.contains(k) && k != names@[i as int]@ {
                            let j = choose|j: int| 0 <= j < after.len() && after[j] == k;
                            assert(before[j] == k);
                        }
                        if before.contains(k) {
                            let j = choose|j: int| 0 <= j < before.len() && before[j] == k;
                            assert(after[j] == k);
                        }
                    }
                    assert forall|k: Seq<char>| #[trigger] lookup_version(raw@, k) == dep_version(after, released@, Seq::<char>::empty(), k) by {
                        assert(lookup_version(raw@, k) == dep_version(before, released@, Seq::<char>::empty(), k));
                        if after.contains(k) && k != names@[i as int]@ {
                            let j = choose|j: int| 0 <= j < after.len() && after[j] == k;
                            assert(before[j] == k);
                        }
                        if before.contains(k) {
                            let j = choose|j: int| 0 <= j < before.len() && before[j] == k;
                            assert(after[j] == k);
                        }
                    }
                    if any_released(after, released@) {
                        let j = choose|j: int| 0 <= j < after.len() && lookup_version(released@, #[trigger] after[j]) is Some;
                        if j < i {
                            assert(before[j] == after[j]);
                        }
                    }
                    if any_released(before, released@) {
                        let j = choose|j: int| 0 <= j < before.len() && lookup_version(released@, #[trigger] before[j]) is Some;
                        assert(before[j] == after[j]);
                    }
                }
            },
        }
        i = i + 1;
    }
    assert(names@.take(names@.len() as int) =~= names@);
    (deps, raw)
}

/// Decides how a versioned file definition updates its files: by its regex,
/// else by its format (which needs fields), else through its ecosystem (which
/// it needs), with the dependency fields expanded for `dep_names` and the
/// tables of the released dependencies; an ecosystem file is left unchanged
/// when none of the names was released. The configured and default prefix
/// and the default fields are those of the definition's ecosystem.
pub fn plan_versioned_file_update(
    definition: &VersionedFileSpec,
    dep_names: &[String],
    owner_version: &str,
    configured_prefix: Option<&str>,
    default_prefix: &str,
    default_fields: &[String],
    released_versions_by_native_name: &[VersionEntry],
) -> (r: Result<VersionedFileUpdate, MonochangeError>)
    ensures
        is_versioned_file_update(
            r,
            definition@,
            views(dep_names@),
            owner_version@,
            match configured_prefix { Some(c) => Some(c@), None => None },
            default_prefix@,
            views(default_fields@),
            released_versions_by_native_name@,
        ),
{
    if let Some(pattern) = &definition.regex {
        return Ok(VersionedFileUpdate::Regex(pattern.clone()));
    }
    if let Some(format) = definition.format {
        return match &definition.fields {
            None => {
                let mut m = "versioned file `".to_string();
                push_str(&mut m, definition.path.as_str());
                push_str(&mut m, "` with format mode is missing fields");
                proof {
                    reveal_strlit("versioned file `");
                    reveal_strlit("` with format mode is missing fields");
                }
                Err(MonochangeError::Config(m))
            },
            Some(fields) => {
                let name = if dep_names.len() > 0 {
                    Some(dep_names[0].clone())
                } else {
                    None
                };
                Ok(VersionedFileUpdate::Format {
                    format,
                    fields: copy_texts(fields),
                    name,
                    missing_field_behavior: definition.missing_field_behavior,
                })
            },
        };
    }
    let ecosystem = match definition.ecosystem_type {
        Some(e) => e,
        None => {
            let mut m = "versioned file `".to_string();
            push_str(&mut m, definition.path.as_str());
            push_str(&mut m, "` is missing an ecosystem type");
            proof {
                reveal_strlit("versioned file `");
                reveal_strlit("` is missing an ecosystem type");
            }
            return Err(MonochangeError::Config(m));
        },
    };
    let prefix = resolve_versioned_prefix(definition, configured_prefix, default_prefix);
    let fields = match &definition.fields {
        Some(f) => expand_versioned_file_fields(Some(f.as_slice()), default_fields, dep_names),
        None => expand_versioned_file_fields(None, default_fields, dep_names),
    };
    let (versioned_deps, raw_versions) = dep_tables(dep_names, released_versions_by_native_name, prefix.as_str());
    if versioned_deps.len() == 0 {
        return Ok(VersionedFileUpdate::Unchanged);
    }
    let owner = if contains_name(fields.as_slice(), "version") {
        Some(owner_version.to_string())
    } else {
        None
    };
    Ok(VersionedFileUpdate::Ecosystem { ecosystem, fields, owner_version: owner, versioned_deps, raw_versions })
}

/// The error for a file that a versioned file glob matched but its ecosystem cannot update.
pub open spec fn unsupported_glob_match_text(definition_path: Seq<char>, file: Seq<char>, ecosystem: Ecosystem) -> Seq<char> {
    "versioned_files glob `"@ + definition_path + "` matched unsupported file `"@ + file + "` for ecosystem `"@
        + ecosystem_name(ecosystem) + "`; narrow the glob or change the `type`"@
}

/// Reports a file that a versioned file glob matched but its ecosystem cannot update.
pub fn unsupported_glob_match_error(definition_path: &str, file: &str, ecosystem: Ecosystem) -> (r: MonochangeError)
    ensures
        r matches MonochangeError::Config(m) && m@ == unsupported_glob_match_text(definition_path@, file@, ecosystem),
{
    let mut m = "versioned_files glob `".to_string();
    push_str(&mut m, definition_path);
    push_str(&mut m, "` matched unsupported file `");
    push_str(&mut m, file);
    push_str(&mut m, "` for ecosystem `");
    push_str(&mut m, ecosystem.as_str());
    push_str(&mut m, "`; narrow the glob or change the `type`");
    proof {
        reveal_strlit("versioned_files glob `");
        reveal_strlit("` matched unsupported file `");
        reveal_strlit("` for ecosystem `");
        reveal_strlit("`; narrow the glob or change the `type`");
    }
    MonochangeError::Config(m)
}

/// A package of the release plan's decisions: whether its bump releases it, and its planned version.
pub struct PlannedRelease {
    pub package_id: String,
    pub releases: bool,
    pub planned_version: Option<String>,
}

/// A group of the release plan: its planned version and its member package ids.
pub struct PlannedGroup {
    pub group_id: String,
    pub planned_version: Option<String>,
    pub members: Vec<String>,
}

/// The version the last released decision for `id` plans, if any.
pub open spec fn decision_version(ds: Seq<PlannedRelease>, id: Seq<char>) -> Option<Seq<char>>
    decreases ds.len(),
{
    if ds.len() == 0 {
        None
    } else {
        let d = ds.last();
        if d.package_id@ == id && d.releases && d.planned_version is Some {
            Some(d.planned_version->0@)
        } else {
            decision_version(ds.drop_last(), id)
        }
    }
}

/// The planned version of the last group with one that has `id` among its members, if any.
pub open spec fn member_version(gs: Seq<PlannedGroup>, id: Seq<char>) -> Option<Seq<char>>
    decreases gs.len(),
{
    if gs.len() == 0 {
        None
    } else {
        let g = gs.last();
        if g.planned_version is Some && views(g.members@).contains(id) {
            Some(g.planned_version->0@)
        } else {
            member_version(gs.drop_last(), id)
        }
    }
}

/// The version a package is released at: its group's planned version, else
/// the one its own released decision plans.
pub open spec fn released_version(ds: Seq<PlannedRelease>, gs: Seq<PlannedGroup>, id: Seq<char>) -> Option<Seq<char>> {
    match member_version(gs, id) {
        Some(v) => Some(v),
        None => decision_version(ds, id),
    }
}

/// The released versions by package id (see `released_version`), as a table
/// whose ids increase.
pub fn released_versions_by_record_id(decisions: &[PlannedRelease], groups: &[PlannedGroup]) -> (r: Vec<VersionEntry>)
    ensures
        names_increasing(r@),
        forall|k: Seq<char>| #[trigger] lookup_version(r@, k) == released_version(decisions@, groups@, k),
{
    let mut t: Vec<VersionEntry> = Vec::new();
    let mut i: usize = 0;
    while i < decisions.len()
        invariant
            i <= decisions@.len(),
            names_increasing(t@),
            forall|k: Seq<char>| #[trigger] lookup_version(t@, k) == decision_version(decisions@.take(i as int), k),
        decreases decisions@.len() - i,
    {
        proof {
            assert(decisions@.take(i + 1).drop_last() =~= decisions@.take(i as int));
            assert(decisions@.take(i + 1).last() == decisions@[i as int]);
        }
        let d = &decisions[i];
        if d.releases {
            if let Some(v) = &d.planned_version {
                set_version(&mut t, d.package_id.clone(), v.clone());
            }
        }
        i = i + 1;
    }
    assert(decisions@.take(decisions@.len() as int) =~= decisions@);
    let mut g: usize = 0;
    while g < groups.len()
        invariant
            g <= groups@.len(),
            names_increasing(t@),
            forall|k: Seq<char>| #[trigger] lookup_version(t@, k) == match member_version(groups@.take(g as int), k) {
                Some(v) => Some(v),
                None => decision_version(decisions@, k),
            },
        decreases groups@.len() - g,
    {
        proof {
            assert(groups@.take(g + 1).drop_last() =~= groups@.take(g as int));
            assert(groups@.take(g + 1).last() == groups@[g as int]);
        }
        let group = &groups[g];
        if let Some(v) = &group.planned_version {
            let ghost before = t@;
            let mut m: usize = 0;
            while m < group.members.len()
                invariant
                    m <= group.members@.len(),
                    group == &groups@[g as int],
                    group.planned_version == Some(*v),
                    names_increasing(t@),
                    forall|k: Seq<char>| #[trigger] lookup_version(t@, k) == if views(group.members@.take(m as int)).contains(k) {
                        Some(v@)
                    } else {
                        lookup_version(before, k)
                    },
                decreases group.members@.len() - m,
            {
                let ghost prev = t@;
                set_version(&mut t, group.members[m].clone(), v.clone());
                proof {
                    let a = views(group.members@.take(m as int));
                    let b = views(group.members@.take(m + 1));
                    assert(b =~= a.push(group.members@[m as int]@));
                    assert forall|k: Seq<char>| #[trigger] lookup_version(t@, k) == if b.contains(k) {
                        Some(v@)
                    } else {
                        lookup_version(before, k)
                    } by {
                        assert(lookup_version(prev, k) == if a.contains(k) { Some(v@) } else { lookup_version(before, k) });
                        if k == group.members@[m as int]@ {
                            assert(b[m as int] == k);
                        } else {
                            if b.contains(k) {
                                let j = choose|j: int| 0 <= j < b.len() && b[j] == k;
                                assert(a[j] == k);
                            }
                            if a.contains(k) {
                                let j = choose|j: int| 0 <= j < a.len() && a[j] == k;
                                assert(b[j] == k);
                            }
                        }
                    }
                }
                m = m + 1;
            }
            assert(group.members@.take(group.members@.len() as int) =~= group.members@);
        }
        g = g + 1;
    }
    assert(groups@.take(groups@.len() as int) =~= groups@);
    t
}

/// The planned version of the last group with id `id` that has one, if any.
pub open spec fn group_version(gs: Seq<PlannedGroup>, id: Seq<char>) -> Option<Seq<char>>
    decreases gs.len(),
{
    if gs.len() == 0 {
        None
    } else if gs.last().group_id@ == id && gs.last().planned_version is Some {
        Some(gs.last().planned_version->0@)
    } else {
        group_version(gs.drop_last(), id)
    }
}

/// The planned versions by group id, as a table whose ids increase.
pub fn planned_group_versions(groups: &[PlannedGroup]) -> (r: Vec<VersionEntry>)
    ensures
        names_increasing(r@),
        forall|k: Seq<char>| #[trigger] lookup_version(r@, k) == group_version(groups@, k),
{
    let mut t: Vec<VersionEntry> = Vec::new();
    let mut i: usize = 0;
    while i < groups.len()
        invariant
            i <= groups@.len(),
            names_increasing(t@),
            forall|k: Seq<char>| #[trigger] lookup_version(t@, k) == group_version(groups@.take(i as int), k),
        decreases groups@.len() - i,
    {
        proof {
            assert(groups@.take(i + 1).drop_last() =~= groups@.take(i as int));
            assert(groups@.take(i + 1).last() == groups@[i as int]);
        }
        if let Some(v) = &groups[i].planned_version {
            set_version(&mut t, groups[i].group_id.clone(), v.clone());
        }
        i = i + 1;
    }
    assert(groups@.take(groups@.len() as int) =~= groups@);
    t
}

/// A workspace package as versioned file planning reads it.
pub struct WorkspacePackage {
    pub record_id: String,
    pub name: String,
    /// The id the workspace configuration gives the package, if any.
    pub config_id: Option<String>,
    pub current_version: Option<String>,
}

/// The version the last package named `name` is released at, if any.
pub open spec fn native_released(ps: Seq<WorkspacePackage>, released: Seq<VersionEntry>, name: Seq<char>) -> Option<Seq<char>>
    decreases ps.len(),
{
    if ps.len() == 0 {
        None
    } else if ps.last().name@ == name && lookup_version(released, ps.last().record_id@) is Some {
        lookup_version(released, ps.last().record_id@)
    } else {
        native_released(ps.drop_last(), released, name)
    }
}

/// The current version of the last package named `name` that has one, if any.
pub open spec fn native_current(ps: Seq<WorkspacePackage>, name: Seq<char>) -> Option<Seq<char>>
    decreases ps.len(),
{
    if ps.len() == 0 {
        None
    } else if ps.last().name@ == name && ps.last().current_version is Some {
        Some(ps.last().current_version->0@)
    } else {
        native_current(ps.drop_last(), name)
    }
}

/// The released versions by package name, as a table whose names increase.
pub fn released_versions_by_native_name(packages: &[WorkspacePackage], released: &[VersionEntry]) -> (r: Vec<VersionEntry>)
    ensures
        names_increasing(r@),
        forall|k: Seq<char>| #[trigger] lookup_version(r@, k) == native_released(packages@, released@, k),
{
    let mut t: Vec<VersionEntry> = Vec::new();
    let mut i: usize = 0;
    while i < packages.len()
        invariant
            i <= packages@.len(),
            names_increasing(t@),
            forall|k: Seq<char>| #[trigger] lookup_version(t@, k) == native_released(packages@.take(i as int), released@, k),
        decreases packages@.len() - i,
    {
        proof {
            assert(packages@.take(i + 1).drop_last() =~= packages@.take(i as int));
            assert(packages@.take(i + 1).last() == packages@[i as int]);
        }
        if let Some(v) = find_version(released, packages[i].record_id.as_str()) {
            set_version(&mut t, packages[i].name.clone(), v);
        }
        i = i + 1;
    }
    assert(packages@.take(packages@.len() as int) =~= packages@);
    t
}

/// The current versions by package name, as a table whose names increase.
pub fn current_versions_by_native_name(packages: &[WorkspacePackage]) -> (r: Vec<VersionEntry>)
    ensures
        names_increasing(r@),
        forall|k: Seq<char>| #[trigger] lookup_version(r@, k) == native_current(packages@, k),
{
    let mut t: Vec<VersionEntry> = Vec::new();
    let mut i: usize = 0;
    while i < packages.len()
        invariant
            i <= packages@.len(),
            names_increasing(t@),
            forall|k: Seq<char>| #[trigger] lookup_version(t@, k) == native_current(packages@.take(i as int), k),
        decreases packages@.len() - i,
    {
        proof {
            assert(packages@.take(i + 1).drop_last() =~= packages@.take(i as int));
            assert(packages@.take(i + 1).last() == packages@[i as int]);
        }
        if let Some(v) = &packages[i].current_version {
            set_version(&mut t, packages[i].name.clone(), v.clone());
        }
        i = i + 1;
    }
    assert(packages@.take(packages@.len() as int) =~= packages@);
    t
}

/// The last package whose configured id is `id`, if any.
pub open spec fn configured_package(ps: Seq<WorkspacePackage>, id: Seq<char>) -> Option<WorkspacePackage>
    decreases ps.len(),
{
    if ps.len() == 0 {
        None
    } else if opt_text(ps.last().config_id) == Some(id) {
        Some(ps.last())
    } else {
        configured_package(ps.drop_last(), id)
    }
}

/// The name that stands for a configured id: that of its package, the id itself without one.
pub open spec fn configured_name(ps: Seq<WorkspacePackage>, id: Seq<char>) -> Seq<char> {
    match configured_package(ps, id) {
        Some(p) => p.name@,
        None => id,
    }
}

/// The version the last released package with configured id `id` is released at, if any.
pub open spec fn configured_release(ps: Seq<WorkspacePackage>, released: Seq<VersionEntry>, id: Seq<char>) -> Option<Seq<char>>
    decreases ps.len(),
{
    if ps.len() == 0 {
        None
    } else if opt_text(ps.last().config_id) == Some(id) && lookup_version(released, ps.last().record_id@) is Some {
        lookup_version(released, ps.last().record_id@)
    } else {
        configured_release(ps.drop_last(), released, id)
    }
}

fn configured_name_of(packages: &[WorkspacePackage], id: &str) -> (r: String)
    ensures
        r@ == configured_name(packages@, id@),
{
    let mut i: usize = packages.len();
    assert(packages@.take(i as int) =~= packages@);
    while i > 0
        invariant
            i <= packages@.len(),
            configured_package(packages@, id@) == configured_package(packages@.take(i as int), id@),
        decreases i,
    {
        proof {
            assert(packages@.take(i as int).drop_last() =~= packages@.take(i - 1));
            assert(packages@.take(i as int).last() == packages@[i - 1]);
        }
        if let Some(c) = &packages[i - 1].config_id {
            if str_eq(c.as_str(), id) {
                return packages[i - 1].name.clone();
            }
        }
        i = i - 1;
    }
    id.to_string()
}

fn configured_release_of(packages: &[WorkspacePackage], released: &[VersionEntry], id: &str) -> (r: Option<String>)
    ensures
        opt_text(r) == configured_release(packages@, released@, id@),
{
    let mut i: usize = packages.len();
    assert(packages@.take(i as int) =~= packages@);
    while i > 0
        invariant
            i <= packages@.len(),
            configured_release(packages@, released@, id@) == configured_release(packages@.take(i as int), released@, id@),
        decreases i,
    {
        proof {
            assert(packages@.take(i as int).drop_last() =~= packages@.take(i - 1));
            assert(packages@.take(i as int).last() == packages@[i - 1]);
        }
        if let Some(c) = &packages[i - 1].config_id {
            if str_eq(c.as_str(), id) {
                if let Some(v) = find_version(released, packages[i - 1].record_id.as_str()) {
                    return Some(v);
                }
            }
        }
        i = i - 1;
    }
    None
}

/// A package's or group's configured versioned files.
pub struct VersionedFileOwner {
    pub id: String,
    /// The configured ids of the group's member packages (empty for a package).
    pub members: Vec<String>,
    pub versioned_files: Vec<VersionedFileSpec>,
}

/// One versioned file definition to apply, with the version of its owner,
/// the release-wide version when there is one, and the dependency names it is about.
pub struct VersionedFileJob {
    pub definition: VersionedFileSpec,
    pub owner_version: String,
    pub shared_release_version: Option<String>,
    pub dep_names: Vec<String>,
}

/// A job as a mathematical value.
pub struct JobModel {
    pub definition: VersionedFileModel,
    pub owner_version: Seq<char>,
    pub shared_release_version: Option<Seq<char>>,
    pub dep_names: Seq<Seq<char>>,
}

impl View for VersionedFileJob {
    type V = JobModel;

    open spec fn view(&self) -> JobModel {
        JobModel {
            definition: self.definition@,
            owner_version: self.owner_version@,
            shared_release_version: opt_text(self.shared_release_version),
            dep_names: views(self.dep_names@),
        }
    }
}

pub open spec fn job_models(js: Seq<VersionedFileJob>) -> Seq<JobModel> {
    js.map_values(|j: VersionedFileJob| j@)
}

/// The jobs of a package's definitions: each about the package's name, or
/// about the name the definition gives.
pub open spec fn package_file_jobs(
    fs: Seq<VersionedFileModel>,
    version: Seq<char>,
    shared: Option<Seq<char>>,
    name: Seq<char>,
) -> Seq<JobModel>
    decreases fs.len(),
{
    if fs.len() == 0 {
        seq![]
    } else {
        let f = fs.last();
        package_file_jobs(fs.drop_last(), version, shared, name).push(JobModel {
            definition: f,
            owner_version: version,
            shared_release_version: shared,
            dep_names: match f.name {
                Some(o) => seq![o],
                None => seq![name],
            },
        })
    }
}

/// The names of configured ids.
pub open spec fn configured_names(ps: Seq<WorkspacePackage>, ids: Seq<Seq<char>>) -> Seq<Seq<char>>
    decreases ids.len(),
{
    if ids.len() == 0 {
        seq![]
    } else {
        configured_names(ps, ids.drop_last()).push(configured_name(ps, ids.last()))
    }
}

/// The jobs of a group's definitions: each at the group's version, which is
/// also the release-wide one, about the names of the group's members.
pub open spec fn group_file_jobs(fs: Seq<VersionedFileModel>, version: Seq<char>, names: Seq<Seq<char>>) -> Seq<JobModel>
    decreases fs.len(),
{
    if fs.len() == 0 {
        seq![]
    } else {
        group_file_jobs(fs.drop_last(), version, names).push(JobModel {
            definition: fs.last(),
            owner_version: version,
            shared_release_version: Some(version),
            dep_names: names,
        })
    }
}

/// The jobs of the configured packages, in order: for each released one,
/// its distinct definitions.
pub open spec fn package_jobs(
    ps: Seq<WorkspacePackage>,
    released: Seq<VersionEntry>,
    defs: Seq<VersionedFileOwner>,
    shared: Option<Seq<char>>,
) -> Seq<JobModel>
    decreases defs.len(),
{
    if defs.len() == 0 {
        seq![]
    } else {
        let d = defs.last();
        package_jobs(ps, released, defs.drop_last(), shared) + match configured_release(ps, released, d.id@) {
            None => Seq::<JobModel>::empty(),
            Some(v) => package_file_jobs(first_occurrences(spec_models(d.versioned_files@)), v, shared, configured_name(ps, d.id@)),
        }
    }
}

/// The jobs of the configured groups, in order: for each with a planned
/// version, all its definitions.
pub open spec fn group_jobs(ps: Seq<WorkspacePackage>, group_versions: Seq<VersionEntry>, groups: Seq<VersionedFileOwner>) -> Seq<JobModel>
    decreases groups.len(),
{
    if groups.len() == 0 {
        seq![]
    } else {
        let g = groups.last();
        group_jobs(ps, group_versions, groups.drop_last()) + match lookup_version(group_versions, g.id@) {
            None => Seq::<JobModel>::empty(),
            Some(v) => group_file_jobs(spec_models(g.versioned_files@), v, configured_names(ps, views(g.members@))),
        }
    }
}

fn push_package_jobs(
    jobs: &mut Vec<VersionedFileJob>,
    files: &[VersionedFileSpec],
    version: &str,
    shared: &Option<String>,
    name: &str,
)
    ensures
        job_models(final(jobs)@) == job_models(old(jobs)@) + package_file_jobs(spec_models(files@), version@, opt_text(*shared), name@),
{
    let ghost start = job_models(jobs@);
    let mut i: usize = 0;
    while i < files.len()
        invariant
            i <= files@.len(),
            job_models(jobs@) == start + package_file_jobs(spec_models(files@.take(i as int)), version@, opt_text(*shared), name@),
        decreases files@.len() - i,
    {
        proof {
            assert(spec_models(files@.take(i + 1)).drop_last() =~= spec_models(files@.take(i as int)));
            assert(spec_models(files@.take(i + 1)).last() == files@[i as int]@);
        }
        let names: Vec<String> = match &files[i].name {
            Some(o) => vec![o.clone()],
            None => vec![name.to_string()],
        };
        let job = VersionedFileJob {
            definition: files[i].duplicate(),
            owner_version: version.to_string(),
            shared_release_version: copy_text(shared),
            dep_names: names,
        };
        let ghost before = job_models(jobs@);
        jobs.push(job);
        proof {
            assert(views(job.dep_names@) =~= match files@[i as int]@.name {
                Some(o) => seq![o],
                None => seq![name@],
            });
            assert(job_models(jobs@) =~= before.push(job@));
        }
        i = i + 1;
    }
    assert(files@.take(files@.len() as int) =~= files@);
}

fn configured_names_of(packages: &[WorkspacePackage], ids: &[String]) -> (r: Vec<String>)
    ensures
        views(r@) == configured_names(packages@, views(ids@)),
{
    let mut out: Vec<String> = Vec::new();
    let mut i: usize = 0;
    while i < ids.len()
        invariant
            i <= ids@.len(),
            views(out@) == configured_names(packages@, views(ids@.take(i as int))),
        decreases ids@.len() - i,
    {
        proof {
            assert(views(ids@.take(i + 1)).drop_last() =~= views(ids@.take(i as int)));
            assert(views(ids@.take(i + 1)).last() == ids@[i as int]@);
        }
        let ghost before = views(out@);
        let n = configured_name_of(packages, ids[i].as_str());
        out.push(n);
        assert(views(out@) =~= before.push(n@));
        i = i + 1;
    }
    assert(ids@.take(ids@.len() as int) =~= ids@);
    out
}

fn push_group_jobs(jobs: &mut Vec<VersionedFileJob>, files: &[VersionedFileSpec], version: &str, names: &Vec<String>)
    ensures
        job_models(final(jobs)@) == job_models(old(jobs)@) + group_file_jobs(spec_models(files@), version@, views(names@)),
{
    let ghost start = job_models(jobs@);
    let mut i: usize = 0;
    while i < files.len()
        invariant
            i <= files@.len(),
            job_models(jobs@) == start + group_file_jobs(spec_models(files@.take(i as int)), version@, views(names@)),
        decreases files@.len() - i,
    {
        proof {
            assert(spec_models(files@.take(i + 1)).drop_last() =~= spec_models(files@.take(i as int)));
            assert(spec_models(files@.take(i + 1)).last() == files@[i as int]@);
        }
        let job = VersionedFileJob {
            definition: files[i].duplicate(),
            owner_version: version.to_string(),
            shared_release_version: Some(version.to_string()),
            dep_names: copy_texts(names),
        };
        let ghost before = job_models(jobs@);
        jobs.push(job);
        assert(job_models(jobs@) =~= before.push(job@));
        i = i + 1;
    }
    assert(files@.take(files@.len() as int) =~= files@);
}

/// The versioned file definitions to apply for a release, in order: those of
/// each released package (each distinct definition once), at the package's
/// released version, then those of each group with a planned version, at that
/// version. `released` holds the released versions by package id,
/// `group_versions` the planned versions by group id.
pub fn versioned_file_jobs(
    packages: &[WorkspacePackage],
    released: &[VersionEntry],
    package_definitions: &[VersionedFileOwner],
    group_definitions: &[VersionedFileOwner],
    group_versions: &[VersionEntry],
    shared_release_version: Option<String>,
) -> (r: Vec<VersionedFileJob>)
    ensures
        job_models(r@) == package_jobs(packages@, released@, package_definitions@, opt_text(shared_release_version))
            + group_jobs(packages@, group_versions@, group_definitions@),
{
    let mut jobs: Vec<VersionedFileJob> = Vec::new();
    let ghost shared = opt_text(shared_release_version);
    let mut i: usize = 0;
    while i < package_definitions.len()
        invariant
            i <= package_definitions@.len(),
            shared == opt_text(shared_release_version),
            job_models(jobs@) == package_jobs(packages@, released@, package_definitions@.take(i as int), shared),
        decreases package_definitions@.len() - i,
    {
        proof {
            assert(package_definitions@.take(i + 1).drop_last() =~= package_definitions@.take(i as int));
            assert(package_definitions@.take(i + 1).last() == package_definitions@[i as int]);
        }
        let d = &package_definitions[i];
        match configured_release_of(packages, released, d.id.as_str()) {
            Some(v) => {
                let name = configured_name_of(packages, d.id.as_str());
                let files = dedup_versioned_file_definitions(d.versioned_files.as_slice());
                push_package_jobs(&mut jobs, files.as_slice(), v.as_str(), &shared_release_version, name.as_str());
            },
            None => {
                assert(job_models(jobs@) =~= job_models(jobs@) + Seq::<JobModel>::empty());
            },
        }
        i = i + 1;
    }
    assert(package_definitions@.take(package_definitions@.len() as int) =~= package_definitions@);
    let ghost pj = job_models(jobs@);
    let mut g: usize = 0;
    while g < group_definitions.len()
        invariant
            g <= group_definitions@.len(),
            job_models(jobs@) == pj + group_jobs(packages@, group_versions@, group_definitions@.take(g as int)),
        decreases group_definitions@.len() - g,
    {
        proof {
            assert(group_definitions@.take(g + 1).drop_last() =~= group_definitions@.take(g as int));
            assert(group_definitions@.take(g + 1).last() == group_definitions@[g as int]);
        }
        let gd = &group_definitions[g];
        match find_version(group_versions, gd.id.as_str()) {
            Some(v) => {
                let names = configured_names_of(packages, gd.members.as_slice());
                let ghost before = job_models(jobs@);
                push_group_jobs(&mut jobs, gd.versioned_files.as_slice(), v.as_str(), &names);
                assert(job_models(jobs@) =~= pj + group_jobs(packages@, group_versions@, group_definitions@.take(g + 1)));
            },
            None => {
                assert(job_models(jobs@) =~= pj + group_jobs(packages@, group_versions@, group_definitions@.take(g + 1)));
            },
        }
        g = g + 1;
    }
    assert(group_definitions@.take(group_definitions@.len() as int) =~= group_definitions@);
    jobs
}

/// The kinds of files the ecosystems update.
#[derive(Clone, Copy, Debug, PartialEq, Eq, Structural)]
pub enum VersionedFileKind {
    Cargo,
    NpmManifest,
    NpmPackageLock,
    NpmPnpmLock,
    NpmBunLock,
    NpmBunLockBinary,
    DenoManifest,
    DenoLock,
    DartManifest,
    DartLock,
    PythonManifest,
    PythonLock,
    Go,
}

/// How a versioned file is read before it is updated.
#[derive(Clone, Copy, Debug, PartialEq, Eq, Structural)]
pub enum DocumentRead {
    /// Kept as raw bytes.
    Bytes,
    /// Kept as text.
    Text,
    /// Kept as text once its ecosystem has parsed it without error.
    CheckedText,
    /// Rewritten by its ecosystem before it is kept as text.
    RewrittenText,
    /// Parsed as a JSON value.
    Json,
    /// Parsed as a YAML mapping.
    Yaml,
}

/// How each kind of file is read.
pub open spec fn document_read_of(kind: VersionedFileKind) -> DocumentRead {
    match kind {
        VersionedFileKind::NpmBunLockBinary => DocumentRead::Bytes,
        VersionedFileKind::Cargo => DocumentRead::CheckedText,
        VersionedFileKind::NpmPnpmLock => DocumentRead::CheckedText,
        VersionedFileKind::NpmManifest => DocumentRead::CheckedText,
        VersionedFileKind::DenoManifest => DocumentRead::CheckedText,
        VersionedFileKind::DartManifest => DocumentRead::CheckedText,
        VersionedFileKind::PythonManifest => DocumentRead::RewrittenText,
        VersionedFileKind::DartLock => DocumentRead::Yaml,
        VersionedFileKind::NpmPackageLock => DocumentRead::Json,
        VersionedFileKind::DenoLock => DocumentRead::Json,
        VersionedFileKind::NpmBunLock => DocumentRead::Text,
        VersionedFileKind::PythonLock => DocumentRead::Text,
        VersionedFileKind::Go => DocumentRead::Text,
    }
}

/// Decides how a versioned file of the given kind is read.
pub fn document_read(kind: VersionedFileKind) -> (r: DocumentRead)
    ensures
        r == document_read_of(kind),
{
    match kind {
        VersionedFileKind::NpmBunLockBinary => DocumentRead::Bytes,
        VersionedFileKind::Cargo => DocumentRead::CheckedText,
        VersionedFileKind::NpmPnpmLock => DocumentRead::CheckedText,
        VersionedFileKind::NpmManifest => DocumentRead::CheckedText,
        VersionedFileKind::DenoManifest => DocumentRead::CheckedText,
        VersionedFileKind::DartManifest => DocumentRead::CheckedText,
        VersionedFileKind::PythonManifest => DocumentRead::RewrittenText,
        VersionedFileKind::DartLock => DocumentRead::Yaml,
        VersionedFileKind::NpmPackageLock => DocumentRead::Json,
        VersionedFileKind::DenoLock => DocumentRead::Json,
        VersionedFileKind::NpmBunLock => DocumentRead::Text,
        VersionedFileKind::PythonLock => DocumentRead::Text,
        VersionedFileKind::Go => DocumentRead::Text,
    }
}

/// The error for a versioned file that is not text: Python files say it is
/// not valid UTF-8, the others that it failed to parse as text.
pub open spec fn not_text_message(kind: VersionedFileKind, path: Seq<char>) -> Seq<char> {
    match kind {
        VersionedFileKind::PythonManifest | VersionedFileKind::PythonLock => path + " is not valid UTF-8"@,
        _ => "failed to parse "@ + path + " as text"@,
    }
}

/// Reports a versioned file that is not text.
pub fn not_text_error(kind: VersionedFileKind, path: &str) -> (r: MonochangeError)
    ensures
        r matches MonochangeError::Config(m) && m@ == not_text_message(kind, path@),
{
    let mut m = String::new();
    match kind {
        VersionedFileKind::PythonManifest | VersionedFileKind::PythonLock => {
            push_str(&mut m, path);
            push_str(&mut m, " is not valid UTF-8");
        },
        _ => {
            push_str(&mut m, "failed to parse ");
            push_str(&mut m, path);
            push_str(&mut m, " as text");
        },
    }
    proof {
        reveal_strlit(" is not valid UTF-8");
        reveal_strlit("failed to parse ");
        reveal_strlit(" as text");
    }
    MonochangeError::Config(m)
}

/// The error for a file that the ecosystem of a versioned file cannot update.
pub open spec fn unsupported_file_message(path: Seq<char>, ecosystem: Ecosystem) -> Seq<char> {
    "unsupported versioned file `"@ + path + "` for ecosystem `"@ + ecosystem_name(ecosystem) + "`"@
}

/// Reports a file that the ecosystem of a versioned file cannot update.
pub fn unsupported_file_error(path: &str, ecosystem: Ecosystem) -> (r: MonochangeError)
    ensures
        r matches MonochangeError::Config(m) && m@ == unsupported_file_message(path@, ecosystem),
{
    let mut m = "unsupported versioned file `".to_string();
    push_str(&mut m, path);
    push_str(&mut m, "` for ecosystem `");
    push_str(&mut m, ecosystem.as_str());
    push_str(&mut m, "`");
    proof {
        reveal_strlit("unsupported versioned file `");
        reveal_strlit("` for ecosystem `");
        reveal_strlit("`");
    }
    MonochangeError::Config(m)
}

/// The error for a versioned file that failed to parse.
pub open spec fn parse_failure_message(path: Seq<char>, error: Seq<char>) -> Seq<char> {
    "failed to parse "@ + path + ": "@ + error
}

/// Reports a versioned file that failed to parse, with the parser's error text.
pub fn parse_failure_error(path: &str, error: &str) -> (r: MonochangeError)
    ensures
        r matches MonochangeError::Config(m) && m@ == parse_failure_message(path@, error@),
{
    let mut m = "failed to parse ".to_string();
    push_str(&mut m, path);
    push_str(&mut m, ": ");
    push_str(&mut m, error);
    proof {
        reveal_strlit("failed to parse ");
        reveal_strlit(": ");
    }
    MonochangeError::Config(m)
}

} // verus!
