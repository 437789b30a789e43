use monochange::error::MonochangeError;
use monochange::regex_update::{splice_version_spans, update_versioned_file_regex};

#[test]
fn regex_updates_replace_only_the_version_group() {
    let updated = update_versioned_file_regex(
        "name = \"app\"\nversion = \"1.0.0\"\n# version = \"1.0.0\"\n",
        r#"(?m)^version = "(?<version>[^"]+)""#,
        "2.0.0",
    )
    .unwrap();
    assert_eq!(updated, "name = \"app\"\nversion = \"2.0.0\"\n# version = \"1.0.0\"\n");
}

#[test]
fn regex_updates_keep_multibyte_text_around_matches() {
    let updated = update_versioned_file_regex("é v1.0 ü v1.0", r"v(?<version>\d+\.\d+)", "2.5").unwrap();
    assert_eq!(updated, "é v2.5 ü v2.5");
}

#[test]
fn invalid_regex_patterns_are_configuration_errors() {
    match update_versioned_file_regex("text", "(", "1.0.0") {
        Err(MonochangeError::Config(message)) => assert!(message.starts_with("invalid versioned_files regex `(`: ")),
        other => panic!("unexpected {other:?}"),
    }
}

#[test]
fn splicing_given_spans_replaces_each_version_group() {
    let spans = [(0, 6, Some((1, 6))), (7, 13, Some((8, 13)))];
    assert_eq!(splice_version_spans("v1.0.0 v2.0.0", &spans, "3.1.4"), b"v3.1.4 v3.1.4".to_vec());
    let without_group = [(0, 2, None), (1, 3, Some((2, 3)))];
    assert_eq!(splice_version_spans("abc", &without_group, "Z"), b"abc".to_vec());
}
