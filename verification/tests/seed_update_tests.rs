use monochange::error::MonochangeError;
use monochange::seed_updates::{assemble_file_updates, seed_text_updates, FileUpdate};

#[test]
fn seed_cached_text_updates_rejects_invalid_utf8_and_resolves_relative_paths() {
    let seeded = seed_text_updates(
        "/root",
        &[FileUpdate { path: "pubspec.yaml".to_string(), content: b"name: app\n".to_vec() }],
    )
    .unwrap_or_else(|_| panic!("seed relative update"));
    assert_eq!(seeded.len(), 1);
    assert_eq!(seeded[0].path, "/root/pubspec.yaml");
    assert_eq!(seeded[0].content, "name: app\n");

    match seed_text_updates("/root", &[FileUpdate { path: "invalid.yaml".to_string(), content: vec![0xff, 0xfe] }]) {
        Err(MonochangeError::Config(message)) => assert!(message.contains("failed to parse invalid.yaml as text")),
        _ => panic!("invalid seeded text update should fail"),
    }
}

#[test]
fn later_seeded_updates_win_and_paths_come_in_order() {
    let seeded = seed_text_updates(
        "/root",
        &[
            FileUpdate { path: "b.toml".to_string(), content: b"first".to_vec() },
            FileUpdate { path: "/abs/a.toml".to_string(), content: b"absolute".to_vec() },
            FileUpdate { path: "./b.toml".to_string(), content: b"second".to_vec() },
        ],
    )
    .unwrap_or_else(|_| panic!("seed updates"));
    let entries: Vec<(&str, &str)> = seeded.iter().map(|s| (s.path.as_str(), s.content.as_str())).collect();
    assert_eq!(entries, [("/abs/a.toml", "absolute"), ("/root/b.toml", "second")]);
}

#[test]
fn assembled_updates_keep_the_last_write_per_file_in_path_order() {
    let updates = assemble_file_updates(
        "/root",
        vec![
            FileUpdate { path: "package.json".to_string(), content: b"one".to_vec() },
            FileUpdate { path: "/other/Cargo.toml".to_string(), content: b"cargo".to_vec() },
            FileUpdate { path: "Cargo.lock".to_string(), content: b"lock".to_vec() },
            FileUpdate { path: "package.json".to_string(), content: b"two".to_vec() },
        ],
    );
    let entries: Vec<(&str, &[u8])> = updates.iter().map(|u| (u.path.as_str(), u.content.as_slice())).collect();
    assert_eq!(
        entries,
        [("/other/Cargo.toml", &b"cargo"[..]), ("/root/Cargo.lock", &b"lock"[..]), ("/root/package.json", &b"two"[..])]
    );
}
