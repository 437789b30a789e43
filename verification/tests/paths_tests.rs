use std::io::Write;

use monochange::fnv::{input_fingerprint, render_fingerprint, update_input_fingerprint_hash, InputFile};
use monochange::paths::{
    absolute_output_path, cli_snapshot_baseline_path, cli_snapshot_root_relative, describe_cli_snapshot_baseline,
    insert_existing_path, insert_lockfile_paths, insert_path_if_file, insert_publish_tooling_paths, join_path,
    no_notes_message, package_manifest_names_for_type, readiness_relative_path, relative_path_text, stderr_excerpt,
    stderr_text_excerpt, CliSnapshotBaseline, PackageLocation, publish_readiness_input_paths,
    insert_candidates_if_files, readiness_candidate_paths, readiness_inputs_from,
};

fn fnv(mut hash: u64, bytes: &[u8]) -> u64 {
    for byte in bytes {
        hash ^= u64::from(*byte);
        hash = hash.wrapping_mul(0x0000_0100_0000_01b3);
    }
    hash
}

#[test]
fn paths_join_like_the_standard_library() {
    assert_eq!(join_path("/repo", "Cargo.toml"), "/repo/Cargo.toml");
    assert_eq!(join_path("/repo/", "Cargo.toml"), "/repo/Cargo.toml");
    assert_eq!(join_path("/repo", "/etc/hosts"), "/etc/hosts");
    assert_eq!(join_path("", "a"), "a");
    assert_eq!(absolute_output_path("/repo", "out/report.json"), "/repo/out/report.json");
}

#[test]
fn readiness_paths_are_relative_to_the_root() {
    assert_eq!(readiness_relative_path("/repo", "/repo/packages/a/Cargo.toml"), "packages/a/Cargo.toml");
    assert_eq!(readiness_relative_path("/repo", "/elsewhere/Cargo.toml"), "/elsewhere/Cargo.toml");
    assert_eq!(relative_path_text(Some("a\\b".to_string()), "/x"), "a/b");
    assert_eq!(relative_path_text(None, "/x"), "/x");
}

#[test]
fn snapshot_baselines_live_under_the_monochange_directory() {
    assert_eq!(cli_snapshot_baseline_path("tool"), ".monochange/cli-snapshots/tool.json");
    assert_eq!(cli_snapshot_root_relative("/repo", "tool"), ".monochange/cli-snapshots/tool.json");
    assert_eq!(
        describe_cli_snapshot_baseline(&CliSnapshotBaseline::Missing),
        "no committed baseline; run `monochange snapshot --save` for this package during release"
    );
    assert_eq!(
        describe_cli_snapshot_baseline(&CliSnapshotBaseline::Invalid("expected value".to_string())),
        "committed baseline is not a valid snapshot document: expected value"
    );
    assert_eq!(
        describe_cli_snapshot_baseline(&CliSnapshotBaseline::Stale { schema_version: 1, expected_schema_version: 2 }),
        "committed baseline uses snapshot schema version `1` but this monochange expects `2`"
    );
    assert_eq!(describe_cli_snapshot_baseline(&CliSnapshotBaseline::Current), "baseline is current");
}

#[test]
fn stderr_excerpts_are_trimmed_and_decoded_lossily() {
    assert_eq!(stderr_text_excerpt("   \n"), "");
    assert_eq!(stderr_text_excerpt("  boom\n"), "\nstderr:\nboom");
    assert_eq!(stderr_excerpt(b"  failed\n"), "\nstderr:\nfailed");
    assert_eq!(stderr_excerpt(&[0x66, 0xff, 0x6f]), "\nstderr:\nf\u{fffd}o");
    assert_eq!(stderr_excerpt(b""), "");
}

#[test]
fn release_note_messages_name_the_output_and_target() {
    assert_eq!(no_notes_message("github", None), "changelog output `github` produced no release notes");
    assert_eq!(
        no_notes_message("github", Some("core")),
        "changelog output `github` produced no release notes for target `core`"
    );
}

#[test]
fn manifest_names_follow_the_package_type() {
    assert_eq!(package_manifest_names_for_type("cargo"), vec!["Cargo.toml"]);
    assert_eq!(package_manifest_names_for_type("deno"), vec!["deno.json", "deno.jsonc"]);
    assert!(package_manifest_names_for_type("unknown").is_empty());
}

#[test]
fn existing_paths_are_collected_once() {
    let dir = tempfile::tempdir().unwrap();
    let root = dir.path().to_str().unwrap().to_string();
    let _manifest = tempfile::Builder::new().prefix("Cargo.toml").rand_bytes(0).tempfile_in(dir.path()).unwrap();
    let _lockfile = tempfile::Builder::new().prefix("Cargo.lock").rand_bytes(0).tempfile_in(dir.path()).unwrap();
    let mut paths: Vec<String> = Vec::new();
    insert_existing_path(&mut paths, format!("{root}/Cargo.toml"));
    insert_existing_path(&mut paths, format!("{root}/Cargo.toml"));
    insert_existing_path(&mut paths, format!("{root}/missing.toml"));
    assert_eq!(paths, vec![format!("{root}/Cargo.toml")]);
    insert_publish_tooling_paths(&mut paths, &root);
    insert_lockfile_paths(&mut paths, &root);
    assert_eq!(paths, vec![format!("{root}/Cargo.toml"), format!("{root}/Cargo.lock")]);
    insert_path_if_file(&mut paths, "x".to_string(), false);
    assert_eq!(paths.len(), 2);
}

#[test]
fn input_fingerprints_hash_paths_lengths_and_contents() {
    let domain = fnv(0xcbf2_9ce4_8422_2325, b"monochange.publishReadiness.inputs.v1");
    assert_eq!(input_fingerprint(&[]), format!("fnv1a64:{domain:016x}"));
    let files = vec![InputFile { relative_path: "Cargo.toml".to_string(), contents: b"[workspace]".to_vec() }];
    let mut expected = domain;
    for part in [&b"Cargo.toml"[..], b"\0", b"11", b"\0", b"[workspace]", b"\0"] {
        expected = fnv(expected, part);
    }
    assert_eq!(input_fingerprint(&files), format!("fnv1a64:{expected:016x}"));
    assert_eq!(update_input_fingerprint_hash(7, b"abc"), fnv(7, b"abc"));
    assert_eq!(render_fingerprint(0xab), "fnv1a64:00000000000000ab");
}

fn make_dir(parent: &std::path::Path, name: &str) -> std::path::PathBuf {
    tempfile::Builder::new().prefix(name).rand_bytes(0).keep(true).tempdir_in(parent).unwrap().path().to_path_buf()
}

fn make_file(dir: &std::path::Path, name: &str, contents: &[u8]) {
    let mut file = tempfile::Builder::new().prefix(name).rand_bytes(0).keep(true).tempfile_in(dir).unwrap();
    file.write_all(contents).unwrap();
}

#[test]
fn publish_readiness_input_fingerprint_tracks_publish_inputs() {
    let tempdir = tempfile::tempdir().unwrap();
    let root_path = tempdir.path();
    let root = root_path.to_str().unwrap().to_string();
    let mut contents: Vec<(&str, Vec<u8>)> = vec![
        ("monochange.toml", b"[workspace]\n".to_vec()),
        ("Cargo.toml", b"[workspace]\n".to_vec()),
        ("package.json", br#"{"private":true}"#.to_vec()),
        ("pnpm-lock.yaml", b"lockfileVersion: '9.0'\n".to_vec()),
        (".npmrc", b"provenance=true\n".to_vec()),
    ];
    for (name, bytes) in &contents {
        make_file(root_path, name, bytes);
    }
    let crates = make_dir(root_path, "crates");
    let core = make_dir(&crates, "core");
    make_file(&core, "Cargo.toml", b"[package]\nname='core'\n");
    make_file(&core, "Cargo.lock", b"version = 4\n");
    let packages_dir = make_dir(root_path, "packages");
    let web = make_dir(&packages_dir, "web");
    make_file(&web, "package.json", br#"{"name":"web"}"#);
    make_file(&web, "pnpm-lock.yaml", b"lockfileVersion: '9.0'\n");
    make_file(&make_dir(&packages_dir, "deno"), "deno.jsonc", b"{}\n");
    make_file(&make_dir(&packages_dir, "dart"), "pubspec.yaml", b"name: dart\n");
    make_file(&make_dir(&packages_dir, "flutter"), "pubspec.yaml", b"name: flutter\n");
    make_file(&make_dir(&packages_dir, "python"), "pyproject.toml", b"[project]\nname='python'\n");
    contents.push(("crates/core/Cargo.toml", b"[package]\nname='core'\n".to_vec()));
    contents.push(("crates/core/Cargo.lock", b"version = 4\n".to_vec()));
    contents.push(("packages/web/package.json", br#"{"name":"web"}"#.to_vec()));
    contents.push(("packages/web/pnpm-lock.yaml", b"lockfileVersion: '9.0'\n".to_vec()));
    contents.push(("packages/deno/deno.jsonc", b"{}\n".to_vec()));
    contents.push(("packages/dart/pubspec.yaml", b"name: dart\n".to_vec()));
    contents.push(("packages/flutter/pubspec.yaml", b"name: flutter\n".to_vec()));
    contents.push(("packages/python/pyproject.toml", b"[project]\nname='python'\n".to_vec()));

    let packages = vec![
        PackageLocation { path: "crates/core".to_string(), package_type: "cargo".to_string() },
        PackageLocation { path: "packages/web".to_string(), package_type: "npm".to_string() },
        PackageLocation { path: "packages/deno".to_string(), package_type: "deno".to_string() },
        PackageLocation { path: "packages/dart".to_string(), package_type: "dart".to_string() },
        PackageLocation { path: "packages/flutter".to_string(), package_type: "dart".to_string() },
        PackageLocation { path: "packages/python".to_string(), package_type: "python".to_string() },
    ];
    let paths = publish_readiness_input_paths(&root, &packages);
    let relative_paths: std::collections::BTreeSet<String> =
        paths.iter().map(|path| readiness_relative_path(&root, path)).collect();
    let expected_paths: std::collections::BTreeSet<String> = [
        ".npmrc",
        "Cargo.toml",
        "crates/core/Cargo.lock",
        "crates/core/Cargo.toml",
        "monochange.toml",
        "package.json",
        "packages/dart/pubspec.yaml",
        "packages/deno/deno.jsonc",
        "packages/flutter/pubspec.yaml",
        "packages/python/pyproject.toml",
        "packages/web/package.json",
        "packages/web/pnpm-lock.yaml",
        "pnpm-lock.yaml",
    ]
    .iter()
    .map(|path| path.to_string())
    .collect();
    assert_eq!(relative_paths, expected_paths);
    assert!(package_manifest_names_for_type("unknown").is_empty());

    let inputs = |contents: &Vec<(&str, Vec<u8>)>| -> Vec<InputFile> {
        paths
            .iter()
            .map(|path| {
                let relative = readiness_relative_path(&root, path);
                let bytes = contents.iter().find(|(name, _)| *name == relative).map(|(_, bytes)| bytes.clone()).unwrap();
                InputFile { relative_path: relative, contents: bytes }
            })
            .collect()
    };
    let initial_fingerprint = input_fingerprint(&inputs(&contents));
    for entry in contents.iter_mut() {
        if entry.0 == "packages/web/package.json" {
            entry.1 = br#"{"name":"web","type":"module"}"#.to_vec();
        }
    }
    let changed_fingerprint = input_fingerprint(&inputs(&contents));
    assert_ne!(initial_fingerprint, changed_fingerprint);
    assert!(initial_fingerprint.starts_with("fnv1a64:"));
}

#[test]
fn readiness_candidates_are_asked_in_a_fixed_order() {
    let packages = [PackageLocation { path: "crates/core".to_string(), package_type: "cargo".to_string() }];
    let candidates = readiness_candidate_paths("/w", &packages);
    assert_eq!(candidates.len(), 1 + 1 + 12 + 19 + 12);
    assert_eq!(candidates[0], "/w/monochange.toml");
    assert_eq!(candidates[1], "/w/crates/core/Cargo.toml");
    assert_eq!(candidates[2], "/w/crates/core/Cargo.lock");
    assert_eq!(candidates[14], "/w/Cargo.toml");
    assert_eq!(candidates[33], "/w/Cargo.lock");
}

#[test]
fn readiness_inputs_keep_the_answered_candidates_sorted_once() {
    let packages = [PackageLocation { path: "".to_string(), package_type: "cargo".to_string() }];
    let candidates = readiness_candidate_paths("/w", &packages);
    let mut answers = vec![false; candidates.len()];
    for (i, candidate) in candidates.iter().enumerate() {
        if candidate == "/w/Cargo.toml" || candidate == "/w/monochange.toml" || candidate == "/w/Cargo.lock" {
            answers[i] = true;
        }
    }
    let inputs = readiness_inputs_from("/w", &packages, &answers);
    assert_eq!(inputs, vec!["/w/Cargo.lock".to_string(), "/w/Cargo.toml".to_string(), "/w/monochange.toml".to_string()]);
    assert!(readiness_inputs_from("/w", &packages, &vec![false; candidates.len()]).is_empty());
}

#[test]
fn candidates_are_added_exactly_when_answered() {
    let mut paths = vec!["/w/a".to_string()];
    let names = vec!["Cargo.toml", "Cargo.lock", "package.json"];
    insert_candidates_if_files(&mut paths, "/w", &names, &[true, false, true]);
    assert_eq!(paths, vec!["/w/a".to_string(), "/w/Cargo.toml".to_string(), "/w/package.json".to_string()]);
}
