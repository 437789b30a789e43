use monochange::error::MonochangeError;
use monochange::versioned::{
    add_env_key, expand_versioned_file_fields, field_path_segments, is_missing_field_error,
    render_versioned_template, update_env_key, update_env_versioned_file_text, update_format_error_action,
    MissingFieldBehavior,
};

fn texts(items: &[&str]) -> Vec<String> {
    items.iter().map(|item| item.to_string()).collect()
}

#[test]
fn field_paths_split_on_dots_and_reject_empty_segments() {
    match field_path_segments("package.version") {
        Ok(segments) => assert_eq!(segments, texts(&["package", "version"])),
        Err(_) => panic!("expected segments"),
    }
    match field_path_segments("package..version") {
        Err(MonochangeError::Config(message)) => assert_eq!(
            message,
            "versioned_files field path `package..version` must contain non-empty dot-separated segments"
        ),
        _ => panic!("expected a configuration error"),
    }
}

#[test]
fn templates_fill_version_and_name_placeholders() {
    assert_eq!(
        render_versioned_template("deps.{{ name }}.version = {{version}}", Some("core"), "1.2.3"),
        "deps.core.version = 1.2.3"
    );
    assert_eq!(render_versioned_template("{{name}}@{{ version }}", None, "2.0.0"), "@2.0.0");
}

#[test]
fn env_keys_are_updated_in_place_keeping_exports_and_indentation() {
    let contents = "# settings\n  export APP_VERSION=1.0.0\nOTHER=x\n";
    match update_env_key(contents, "APP_VERSION", "2.0.0") {
        Ok(updated) => assert_eq!(updated, "# settings\n  export APP_VERSION=2.0.0\nOTHER=x\n"),
        Err(_) => panic!("expected the key to be updated"),
    }
    match update_env_key(contents, "MISSING", "2.0.0") {
        Err(error) => {
            assert_eq!(error.render(), "versioned_files env field `MISSING` was not found");
            assert!(is_missing_field_error(&error));
        }
        Ok(_) => panic!("expected a missing key"),
    }
}

#[test]
fn env_keys_are_appended_on_a_line_of_their_own() {
    assert_eq!(add_env_key("", "V", "1"), "V=1\n");
    assert_eq!(add_env_key("A=b", "V", "1"), "A=b\nV=1\n");
    assert_eq!(add_env_key("A=b\n", "V", "1"), "A=b\nV=1\n");
}

#[test]
fn missing_fields_are_added_or_ignored_as_configured() {
    let missing = MonochangeError::Config("field `a` is missing leaf `b`".to_string());
    assert!(matches!(update_format_error_action("a.b", missing.clone(), MissingFieldBehavior::Add), Ok(true)));
    assert!(matches!(update_format_error_action("a.b", missing, MissingFieldBehavior::Ignore), Ok(false)));
    let broken = MonochangeError::Config("failed to parse toml versioned file".to_string());
    assert!(!is_missing_field_error(&broken));
    assert!(matches!(
        update_format_error_action("a.b", broken, MissingFieldBehavior::Add),
        Err(MonochangeError::Config(_))
    ));
}

#[test]
fn env_versioned_files_update_each_rendered_field() {
    let fields = texts(&["{{ name }}_VERSION", "EXTRA"]);
    let ignored = update_env_versioned_file_text("core_VERSION=0.1.0\n", &fields, "0.2.0", Some("core"), MissingFieldBehavior::Ignore);
    assert_eq!(ignored, "core_VERSION=0.2.0\n");
    let added = update_env_versioned_file_text("core_VERSION=0.1.0\n", &fields, "0.2.0", Some("core"), MissingFieldBehavior::Add);
    assert_eq!(added, "core_VERSION=0.2.0\nEXTRA=0.2.0\n");
}

#[test]
fn field_templates_expand_once_per_dependency_name() {
    let names = texts(&["core", "utils"]);
    let own = texts(&["dependencies.{{ name }}", "package.version", "dev.{{name}}.version"]);
    assert_eq!(
        expand_versioned_file_fields(Some(&own), &[], &names),
        texts(&[
            "dependencies.core",
            "dependencies.utils",
            "package.version",
            "dev.core.version",
            "dev.utils.version",
        ])
    );
    let defaults = texts(&["workspace.dependencies.{{ name }}.version"]);
    assert_eq!(
        expand_versioned_file_fields(None, &defaults, &names),
        texts(&["workspace.dependencies.core.version", "workspace.dependencies.utils.version"])
    );
    assert!(expand_versioned_file_fields(None, &defaults, &[]).is_empty());
}
