use monochange::error::MonochangeError;
use monochange::model::Ecosystem;
use monochange::path_order::{path_less, path_same};
use monochange::version_table::{find_version, set_version, VersionEntry};
use monochange::versioned::MissingFieldBehavior;
use monochange::versioned_plan::{
    current_versions_by_native_name, dedup_versioned_file_definitions, document_read, not_text_error,
    parse_failure_error, plan_versioned_file_update, planned_group_versions, released_versions_by_native_name,
    released_versions_by_record_id, resolve_versioned_prefix, unsupported_file_error, unsupported_glob_match_error,
    versioned_file_jobs, DocumentRead, PlannedGroup, PlannedRelease, VersionedFileFormat, VersionedFileKind,
    VersionedFileOwner, VersionedFileSpec, VersionedFileUpdate, WorkspacePackage,
};

fn spec(path: &str) -> VersionedFileSpec {
    VersionedFileSpec {
        path: path.to_string(),
        ecosystem_type: None,
        format: None,
        prefix: None,
        fields: None,
        name: None,
        missing_field_behavior: MissingFieldBehavior::Ignore,
        regex: None,
    }
}

fn entry(name: &str, version: &str) -> VersionEntry {
    VersionEntry { name: name.to_string(), version: version.to_string() }
}

fn config_message(error: MonochangeError) -> String {
    match error {
        MonochangeError::Config(m) => m,
        _ => panic!("expected a configuration error"),
    }
}

fn strings(values: &[&str]) -> Vec<String> {
    values.iter().map(|v| v.to_string()).collect()
}

#[test]
fn released_version_maps_skip_unplanned_groups() {
    let groups = vec![PlannedGroup { group_id: "sdk".to_string(), planned_version: None, members: strings(&["core"]) }];
    let released = released_versions_by_record_id(&[], &groups);
    assert!(released.is_empty());
    assert!(released_versions_by_native_name(&[], &released).is_empty());
}

#[test]
fn group_versions_override_package_decisions() {
    let decisions = vec![
        PlannedRelease { package_id: "core".to_string(), releases: true, planned_version: Some("1.1.0".to_string()) },
        PlannedRelease { package_id: "web".to_string(), releases: false, planned_version: Some("3.0.0".to_string()) },
        PlannedRelease { package_id: "cli".to_string(), releases: true, planned_version: Some("0.2.0".to_string()) },
    ];
    let groups = vec![PlannedGroup {
        group_id: "sdk".to_string(),
        planned_version: Some("2.0.0".to_string()),
        members: strings(&["core", "extra"]),
    }];
    let released = released_versions_by_record_id(&decisions, &groups);
    let names: Vec<&str> = released.iter().map(|e| e.name.as_str()).collect();
    assert_eq!(names, vec!["cli", "core", "extra"]);
    assert_eq!(find_version(&released, "core").as_deref(), Some("2.0.0"));
    assert_eq!(find_version(&released, "web"), None);
    let groups_by_id = planned_group_versions(&groups);
    assert_eq!(find_version(&groups_by_id, "sdk").as_deref(), Some("2.0.0"));
}

#[test]
fn version_tables_keep_names_sorted_and_unique() {
    let mut table = Vec::new();
    set_version(&mut table, "b".to_string(), "1".to_string());
    set_version(&mut table, "a".to_string(), "2".to_string());
    set_version(&mut table, "b".to_string(), "3".to_string());
    let pairs: Vec<(&str, &str)> = table.iter().map(|e| (e.name.as_str(), e.version.as_str())).collect();
    assert_eq!(pairs, vec![("a", "2"), ("b", "3")]);
}

#[test]
fn native_name_tables_follow_record_ids_and_current_versions() {
    let packages = vec![
        WorkspacePackage {
            record_id: "cargo:core".to_string(),
            name: "core-crate".to_string(),
            config_id: Some("core".to_string()),
            current_version: Some("1.0.0".to_string()),
        },
        WorkspacePackage { record_id: "cargo:app".to_string(), name: "app".to_string(), config_id: None, current_version: None },
    ];
    let released = vec![entry("cargo:core", "1.1.0")];
    let by_name = released_versions_by_native_name(&packages, &released);
    assert_eq!(find_version(&by_name, "core-crate").as_deref(), Some("1.1.0"));
    assert_eq!(find_version(&by_name, "app"), None);
    let current = current_versions_by_native_name(&packages);
    assert_eq!(find_version(&current, "core-crate").as_deref(), Some("1.0.0"));
    assert_eq!(current.len(), 1);
}

#[test]
fn regex_and_format_definitions_choose_their_mode() {
    let mut regex = spec("README.md");
    regex.regex = Some("v(?<version>\\d+)".to_string());
    match plan_versioned_file_update(&regex, &strings(&["core"]), "1.0.0", None, "", &[], &[]).ok().unwrap() {
        VersionedFileUpdate::Regex(pattern) => assert_eq!(pattern, "v(?<version>\\d+)"),
        _ => panic!("expected a regex update"),
    }

    let mut format = spec("metadata.json");
    format.format = Some(VersionedFileFormat::Json);
    let missing = plan_versioned_file_update(&format, &strings(&["core"]), "1.0.0", None, "", &[], &[]);
    assert_eq!(
        config_message(missing.err().unwrap()),
        "versioned file `metadata.json` with format mode is missing fields"
    );
    format.fields = Some(strings(&["release.version"]));
    match plan_versioned_file_update(&format, &strings(&["core", "web"]), "1.0.0", None, "", &[], &[]).ok().unwrap() {
        VersionedFileUpdate::Format { format, fields, name, missing_field_behavior } => {
            assert_eq!(format, VersionedFileFormat::Json);
            assert_eq!(fields, strings(&["release.version"]));
            assert_eq!(name.as_deref(), Some("core"));
            assert_eq!(missing_field_behavior, MissingFieldBehavior::Ignore);
        },
        _ => panic!("expected a format update"),
    }

    let untyped = plan_versioned_file_update(&spec("Cargo.toml"), &[], "1.0.0", None, "", &[], &[]);
    assert_eq!(config_message(untyped.err().unwrap()), "versioned file `Cargo.toml` is missing an ecosystem type");
}

#[test]
fn ecosystem_definitions_update_only_released_dependencies() {
    let mut manifest = spec("packages/*/package.json");
    manifest.ecosystem_type = Some(Ecosystem::Npm);
    manifest.fields = Some(strings(&["dependencies.{{ name }}", "version"]));
    let released = vec![entry("@acme/core", "2.0.0")];
    let names = strings(&["@acme/core", "@acme/web"]);
    match plan_versioned_file_update(&manifest, &names, "9.9.9", Some("~"), "^", &[], &released).ok().unwrap() {
        VersionedFileUpdate::Ecosystem { ecosystem, fields, owner_version, versioned_deps, raw_versions } => {
            assert_eq!(ecosystem, Ecosystem::Npm);
            assert_eq!(fields, strings(&["dependencies.@acme/core", "dependencies.@acme/web", "version"]));
            assert_eq!(owner_version.as_deref(), Some("9.9.9"));
            assert_eq!(versioned_deps.len(), 1);
            assert_eq!(versioned_deps[0].version, "~2.0.0");
            assert_eq!(raw_versions[0].version, "2.0.0");
        },
        _ => panic!("expected an ecosystem update"),
    }
    let nothing = plan_versioned_file_update(&manifest, &strings(&["@acme/web"]), "9.9.9", None, "^", &[], &released);
    assert!(matches!(nothing.ok().unwrap(), VersionedFileUpdate::Unchanged));

    let mut defaults = spec("Cargo.toml");
    defaults.ecosystem_type = Some(Ecosystem::Cargo);
    match plan_versioned_file_update(&defaults, &strings(&["core"]), "1.0.0", None, "", &strings(&["dependencies.{{name}}.version"]), &[entry("core", "1.0.0")]).ok().unwrap() {
        VersionedFileUpdate::Ecosystem { fields, owner_version, .. } => {
            assert_eq!(fields, strings(&["dependencies.core.version"]));
            assert_eq!(owner_version, None);
        },
        _ => panic!("expected an ecosystem update"),
    }
}

#[test]
fn prefixes_prefer_the_definition_then_the_configuration() {
    let mut definition = spec("Cargo.toml");
    assert_eq!(resolve_versioned_prefix(&definition, Some("="), "^"), "=");
    assert_eq!(resolve_versioned_prefix(&definition, None, "^"), "^");
    definition.prefix = Some("~".to_string());
    assert_eq!(resolve_versioned_prefix(&definition, Some("="), "^"), "~");
}

#[test]
fn duplicate_definitions_are_applied_once() {
    let mut named = spec("Cargo.toml");
    named.name = Some("other".to_string());
    let definitions = vec![spec("Cargo.toml"), named, spec("Cargo.toml"), spec("README.md")];
    let unique = dedup_versioned_file_definitions(&definitions);
    let paths: Vec<&str> = unique.iter().map(|d| d.path.as_str()).collect();
    assert_eq!(paths, vec!["Cargo.toml", "Cargo.toml", "README.md"]);
    assert_eq!(unique[1].name.as_deref(), Some("other"));
}

#[test]
fn jobs_cover_released_packages_and_planned_groups() {
    let packages = vec![
        WorkspacePackage {
            record_id: "cargo:core".to_string(),
            name: "core-crate".to_string(),
            config_id: Some("core".to_string()),
            current_version: None,
        },
        WorkspacePackage {
            record_id: "cargo:cli".to_string(),
            name: "cli-crate".to_string(),
            config_id: Some("cli".to_string()),
            current_version: None,
        },
    ];
    let released = vec![entry("cargo:core", "1.1.0")];
    let mut renamed = spec("docs/version.txt");
    renamed.name = Some("custom".to_string());
    let package_definitions = vec![
        VersionedFileOwner {
            id: "core".to_string(),
            members: Vec::new(),
            versioned_files: vec![spec("Cargo.toml"), spec("Cargo.toml"), renamed],
        },
        VersionedFileOwner { id: "cli".to_string(), members: Vec::new(), versioned_files: vec![spec("cli/Cargo.toml")] },
    ];
    let group_definitions = vec![VersionedFileOwner {
        id: "sdk".to_string(),
        members: strings(&["core", "docs"]),
        versioned_files: vec![spec("sdk.toml")],
    }];
    let group_versions = vec![entry("sdk", "2.0.0")];
    let jobs = versioned_file_jobs(
        &packages,
        &released,
        &package_definitions,
        &group_definitions,
        &group_versions,
        Some("3.0.0".to_string()),
    );
    assert_eq!(jobs.len(), 3);
    assert_eq!(jobs[0].definition.path, "Cargo.toml");
    assert_eq!(jobs[0].owner_version, "1.1.0");
    assert_eq!(jobs[0].shared_release_version.as_deref(), Some("3.0.0"));
    assert_eq!(jobs[0].dep_names, strings(&["core-crate"]));
    assert_eq!(jobs[1].dep_names, strings(&["custom"]));
    assert_eq!(jobs[2].definition.path, "sdk.toml");
    assert_eq!(jobs[2].owner_version, "2.0.0");
    assert_eq!(jobs[2].shared_release_version.as_deref(), Some("2.0.0"));
    assert_eq!(jobs[2].dep_names, strings(&["core-crate", "docs"]));
}

#[test]
fn document_reads_and_errors_follow_the_file_kind() {
    assert_eq!(document_read(VersionedFileKind::NpmBunLockBinary), DocumentRead::Bytes);
    assert_eq!(document_read(VersionedFileKind::DartLock), DocumentRead::Yaml);
    assert_eq!(document_read(VersionedFileKind::DenoLock), DocumentRead::Json);
    assert_eq!(document_read(VersionedFileKind::Go), DocumentRead::Text);
    assert_eq!(document_read(VersionedFileKind::Cargo), DocumentRead::CheckedText);
    assert_eq!(document_read(VersionedFileKind::PythonManifest), DocumentRead::RewrittenText);
    assert_eq!(config_message(not_text_error(VersionedFileKind::DenoLock, "deno.lock")), "failed to parse deno.lock as text");
    assert_eq!(config_message(not_text_error(VersionedFileKind::PythonLock, "uv.lock")), "uv.lock is not valid UTF-8");
    assert_eq!(
        config_message(unsupported_file_error("notes.txt", Ecosystem::Go)),
        "unsupported versioned file `notes.txt` for ecosystem `go`"
    );
    assert_eq!(
        config_message(unsupported_glob_match_error("*.txt", "notes.txt", Ecosystem::Go)),
        "versioned_files glob `*.txt` matched unsupported file `notes.txt` for ecosystem `go`; narrow the glob or change the `type`"
    );
    assert_eq!(config_message(parse_failure_error("go.mod", "bad")), "failed to parse go.mod: bad");
}

#[test]
fn paths_compare_by_components() {
    assert!(path_less("a/b", "a-b/x"));
    assert!(!path_less("a-b/x", "a/b"));
    assert!(path_same("a//b/", "a/./b"));
    assert!(!path_same("./a", "a"));
    assert!(path_less("/z", "a"));
    assert!(path_less("../a", "a"));
    assert!(path_less("./a", "../a"));
}
