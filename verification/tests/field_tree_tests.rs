use monochange::error::MonochangeError;
use monochange::field_tree::{
    set_document_fields, set_field_path, DocumentKind, FieldDoc, FieldKey, FieldNode, PathFailure,
};
use monochange::versioned::{update_env_versioned_file_text, MissingFieldBehavior};

fn texts(items: &[&str]) -> Vec<String> {
    items.iter().map(|item| item.to_string()).collect()
}

fn message(error: MonochangeError) -> String {
    error.render()
}

// Fixtures that carry JSON and YAML values into the library's document and
// back, the way the command line does.

fn json_walk(value: serde_json::Value, nodes: &mut Vec<FieldNode>, kept: &mut Vec<serde_json::Value>) -> usize {
    let at = nodes.len();
    match value {
        serde_json::Value::Object(map) => {
            nodes.push(FieldNode::Mapping(Vec::new()));
            let mut entries = Vec::new();
            for (key, child) in map {
                let index = json_walk(child, nodes, kept);
                entries.push((FieldKey::Text(key), index));
            }
            nodes[at] = FieldNode::Mapping(entries);
        },
        other => {
            nodes.push(FieldNode::Other(kept.len()));
            kept.push(other);
        },
    }
    at
}

fn json_back(doc: &FieldDoc, kept: &[serde_json::Value], at: usize) -> serde_json::Value {
    match &doc.nodes[at] {
        FieldNode::Mapping(entries) => {
            let mut map = serde_json::Map::new();
            for (key, index) in entries {
                if let FieldKey::Text(key) = key {
                    map.insert(key.clone(), json_back(doc, kept, *index));
                }
            }
            serde_json::Value::Object(map)
        },
        FieldNode::Text(text) => serde_json::Value::String(text.clone()),
        FieldNode::Other(k) => kept[*k].clone(),
    }
}

fn edit_json(
    contents: &str,
    fields: &[&str],
    version: &str,
    name: Option<&str>,
    behavior: MissingFieldBehavior,
) -> Result<String, String> {
    let value: serde_json::Value = serde_json::from_str(contents).unwrap_or_else(|error| panic!("parse json: {error}"));
    let mut nodes = Vec::new();
    let mut kept = Vec::new();
    json_walk(value, &mut nodes, &mut kept);
    let mut doc = FieldDoc { nodes };
    set_document_fields(&mut doc, &texts(fields), version, name, behavior, DocumentKind::Json).map_err(message)?;
    let mut output = serde_json::to_string_pretty(&json_back(&doc, &kept, 0))
        .unwrap_or_else(|error| panic!("write json: {error}"));
    output.push('\n');
    Ok(output)
}

fn yaml_walk(value: serde_yaml_ng::Value, nodes: &mut Vec<FieldNode>, kept: &mut Vec<serde_yaml_ng::Value>) -> usize {
    let at = nodes.len();
    match value {
        serde_yaml_ng::Value::Mapping(mapping) => {
            nodes.push(FieldNode::Mapping(Vec::new()));
            let mut entries = Vec::new();
            for (key, child) in mapping {
                let key = match key {
                    serde_yaml_ng::Value::String(text) => FieldKey::Text(text),
                    other => {
                        kept.push(other);
                        FieldKey::Other(kept.len() - 1)
                    },
                };
                let index = yaml_walk(child, nodes, kept);
                entries.push((key, index));
            }
            nodes[at] = FieldNode::Mapping(entries);
        },
        other => {
            nodes.push(FieldNode::Other(kept.len()));
            kept.push(other);
        },
    }
    at
}

fn yaml_back(doc: &FieldDoc, kept: &[serde_yaml_ng::Value], at: usize) -> serde_yaml_ng::Value {
    match &doc.nodes[at] {
        FieldNode::Mapping(entries) => {
            let mut mapping = serde_yaml_ng::Mapping::new();
            for (key, index) in entries {
                let key = match key {
                    FieldKey::Text(text) => serde_yaml_ng::Value::String(text.clone()),
                    FieldKey::Other(k) => kept[*k].clone(),
                };
                mapping.insert(key, yaml_back(doc, kept, *index));
            }
            serde_yaml_ng::Value::Mapping(mapping)
        },
        FieldNode::Text(text) => serde_yaml_ng::Value::String(text.clone()),
        FieldNode::Other(k) => kept[*k].clone(),
    }
}

fn edit_yaml(
    contents: &str,
    fields: &[&str],
    version: &str,
    name: Option<&str>,
    behavior: MissingFieldBehavior,
) -> Result<String, String> {
    let value: serde_yaml_ng::Value =
        serde_yaml_ng::from_str(contents).unwrap_or_else(|error| panic!("parse yaml: {error}"));
    let mut nodes = Vec::new();
    let mut kept = Vec::new();
    yaml_walk(value, &mut nodes, &mut kept);
    let mut doc = FieldDoc { nodes };
    set_document_fields(&mut doc, &texts(fields), version, name, behavior, DocumentKind::Yaml).map_err(message)?;
    Ok(serde_yaml_ng::to_string(&yaml_back(&doc, &kept, 0)).unwrap_or_else(|error| panic!("write yaml: {error}")))
}

fn toml_walk(table: &dyn toml_edit::TableLike, nodes: &mut Vec<FieldNode>) -> usize {
    let at = nodes.len();
    nodes.push(FieldNode::Mapping(Vec::new()));
    let mut entries = Vec::new();
    for (key, item) in table.iter() {
        let index = match item.as_table_like() {
            Some(child) => toml_walk(child, nodes),
            None => {
                nodes.push(FieldNode::Other(0));
                nodes.len() - 1
            },
        };
        entries.push((FieldKey::Text(key.to_string()), index));
    }
    nodes[at] = FieldNode::Mapping(entries);
    at
}

fn toml_apply(doc: &FieldDoc, at: usize, known: usize, table: &mut dyn toml_edit::TableLike) {
    let FieldNode::Mapping(entries) = &doc.nodes[at] else {
        return;
    };
    for (key, index) in entries {
        let FieldKey::Text(key) = key else {
            continue;
        };
        match &doc.nodes[*index] {
            FieldNode::Text(text) if *index >= known => {
                table.insert(key, toml_edit::value(text.as_str()));
            },
            FieldNode::Mapping(_) => {
                if *index >= known {
                    table.insert(key, toml_edit::Item::Table(toml_edit::Table::new()));
                }
                if let Some(child) = table.get_mut(key).and_then(|item| item.as_table_like_mut()) {
                    toml_apply(doc, *index, known, child);
                }
            },
            _ => {},
        }
    }
}

fn edit_toml(
    contents: &str,
    fields: &[&str],
    version: &str,
    name: Option<&str>,
    behavior: MissingFieldBehavior,
) -> Result<String, String> {
    let mut document =
        contents.parse::<toml_edit::DocumentMut>().unwrap_or_else(|error| panic!("parse toml: {error}"));
    let mut nodes = Vec::new();
    toml_walk(document.as_table(), &mut nodes);
    let known = nodes.len();
    let mut doc = FieldDoc { nodes };
    set_document_fields(&mut doc, &texts(fields), version, name, behavior, DocumentKind::Toml).map_err(message)?;
    toml_apply(&doc, 0, known, document.as_table_mut());
    Ok(document.to_string())
}

fn text_of(doc: &FieldDoc, at: usize) -> Option<String> {
    match &doc.nodes[at] {
        FieldNode::Text(text) => Some(text.clone()),
        _ => None,
    }
}

fn entry(doc: &FieldDoc, at: usize, key: &str) -> Option<usize> {
    match &doc.nodes[at] {
        FieldNode::Mapping(entries) => entries.iter().find_map(|(k, index)| match k {
            FieldKey::Text(text) if text == key => Some(*index),
            _ => None,
        }),
        _ => None,
    }
}

#[test]
fn format_versioned_file_updates_json_toml_yaml_and_env_fields() {
    let json = edit_json(
        "{\"release\":{\"version\":\"1.0.0\"}}",
        &["release.version"],
        "1.2.3",
        None,
        MissingFieldBehavior::Ignore,
    )
    .unwrap_or_else(|error| panic!("update json: {error}"));
    assert!(json.contains("\"version\": \"1.2.3\""));

    let toml = edit_toml("[tool.app]\nversion = \"1.0.0\"\n", &["tool.app.version"], "1.2.3", None, MissingFieldBehavior::Ignore)
        .unwrap_or_else(|error| panic!("update toml: {error}"));
    assert!(toml.contains("version = \"1.2.3\""));

    let yaml = edit_yaml("release:\n  version: 1.0.0\n", &["release.version"], "1.2.3", None, MissingFieldBehavior::Ignore)
        .unwrap_or_else(|error| panic!("update yaml: {error}"));
    assert!(yaml.contains("version: 1.2.3"));

    let env = update_env_versioned_file_text(
        "APP=demo\nexport VERSION=1.0.0\n",
        &texts(&["VERSION"]),
        "1.2.3",
        None,
        MissingFieldBehavior::Ignore,
    );
    assert_eq!(env, "APP=demo\nexport VERSION=1.2.3\n");
}

#[test]
fn format_versioned_file_renders_name_and_version_templates_in_fields() {
    let json = edit_json(
        "{\"packages\":{\"app\":{\"version\":\"1.0.0\"}}}",
        &["packages.{{ name }}.version"],
        "1.2.3",
        Some("app"),
        MissingFieldBehavior::Ignore,
    )
    .unwrap_or_else(|error| panic!("update templated json field: {error}"));
    assert!(json.contains("\"version\": \"1.2.3\""));
}

#[test]
fn format_versioned_file_ignores_missing_fields_by_default() {
    let json = edit_json(
        "{\"release\":{\"version\":\"1.0.0\"}}",
        &["release.missing"],
        "1.2.3",
        None,
        MissingFieldBehavior::Ignore,
    )
    .unwrap_or_else(|error| panic!("missing json field should be ignored: {error}"));
    assert!(json.contains("\"version\": \"1.0.0\""));
}

#[test]
fn format_versioned_file_adds_missing_fields_when_configured() {
    let json = edit_json(
        "{\"versions\":{\"app\":\"1.0.0\"}}",
        &["versions.{{ name }}"],
        "1.2.3",
        Some("utils"),
        MissingFieldBehavior::Add,
    )
    .unwrap_or_else(|error| panic!("add missing json field: {error}"));
    assert_eq!(json, "{\n  \"versions\": {\n    \"app\": \"1.0.0\",\n    \"utils\": \"1.2.3\"\n  }\n}\n");

    let toml = edit_toml("[versions]\napp = \"1.0.0\"\n", &["versions.{{ name }}"], "1.2.3", Some("utils"), MissingFieldBehavior::Add)
        .unwrap_or_else(|error| panic!("add missing toml field: {error}"));
    assert_eq!(toml, "[versions]\napp = \"1.0.0\"\nutils = \"1.2.3\"\n");

    let yaml = edit_yaml("versions:\n  app: 1.0.0\n", &["versions.{{ name }}"], "1.2.3", Some("utils"), MissingFieldBehavior::Add)
        .unwrap_or_else(|error| panic!("add missing yaml field: {error}"));
    assert_eq!(yaml, "versions:\n  app: 1.0.0\n  utils: 1.2.3\n");

    let env = update_env_versioned_file_text("APP=demo\n", &texts(&["VERSION"]), "1.2.3", None, MissingFieldBehavior::Add);
    assert_eq!(env, "APP=demo\nVERSION=1.2.3\n");

    let env_without_newline =
        update_env_versioned_file_text("APP=demo", &texts(&["VERSION"]), "1.2.3", None, MissingFieldBehavior::Add);
    assert_eq!(env_without_newline, "APP=demo\nVERSION=1.2.3\n");

    let json_with_nested_parent =
        edit_json("{}", &["versions.packages.{{ name }}"], "1.2.3", Some("utils"), MissingFieldBehavior::Add)
            .unwrap_or_else(|error| panic!("add missing nested json field: {error}"));
    assert_eq!(
        json_with_nested_parent,
        "{\n  \"versions\": {\n    \"packages\": {\n      \"utils\": \"1.2.3\"\n    }\n  }\n}\n"
    );

    let toml_with_nested_parent =
        edit_toml("", &["versions.packages.{{ name }}"], "1.2.3", Some("utils"), MissingFieldBehavior::Add)
            .unwrap_or_else(|error| panic!("add missing nested toml field: {error}"));
    assert_eq!(toml_with_nested_parent, "[versions]\n\n[versions.packages]\nutils = \"1.2.3\"\n");

    let yaml_with_nested_parent =
        edit_yaml("{}\n", &["versions.packages.{{ name }}"], "1.2.3", Some("utils"), MissingFieldBehavior::Add)
            .unwrap_or_else(|error| panic!("add missing nested yaml field: {error}"));
    assert_eq!(yaml_with_nested_parent, "versions:\n  packages:\n    utils: 1.2.3\n");
}

#[test]
fn add_missing_field_helpers_reject_non_container_values() {
    let json_error = edit_json("\"1.0.0\"", &["version"], "1.2.3", None, MissingFieldBehavior::Add)
        .expect_err("json scalar root cannot receive a field");
    assert!(json_error.contains("non-object value"));

    let nested_json_root_error = edit_json("\"1.0.0\"", &["versions.app"], "1.2.3", None, MissingFieldBehavior::Add)
        .expect_err("json scalar root cannot receive a nested field");
    assert!(nested_json_root_error.contains("non-object segment `versions`"));

    let nested_json_error =
        edit_json("{\"versions\":\"1.0.0\"}", &["versions.app"], "1.2.3", None, MissingFieldBehavior::Add)
            .expect_err("json scalar parent cannot receive a child field");
    assert!(nested_json_error.contains("non-object value"));

    let toml_error = edit_toml("[tool]\napp = \"1.0.0\"\n", &["tool.app.version"], "1.2.3", None, MissingFieldBehavior::Add)
        .expect_err("toml scalar segment cannot receive a child field");
    assert!(toml_error.contains("non-table segment `app`"));

    let yaml_error = edit_yaml("1.0.0\n", &["version"], "1.2.3", None, MissingFieldBehavior::Add)
        .expect_err("yaml scalar root cannot receive a field");
    assert!(yaml_error.contains("non-mapping value"));

    let nested_yaml_root_error = edit_yaml("1.0.0\n", &["versions.app"], "1.2.3", None, MissingFieldBehavior::Add)
        .expect_err("yaml scalar root cannot receive a nested field");
    assert!(nested_yaml_root_error.contains("non-mapping segment `versions`"));

    let nested_yaml_error = edit_yaml("versions: 1.0.0\n", &["versions.app"], "1.2.3", None, MissingFieldBehavior::Add)
        .expect_err("yaml scalar parent cannot receive a child field");
    assert!(nested_yaml_error.contains("non-mapping value"));
}

#[test]
fn format_versioned_file_skips_missing_rendered_name_fields() {
    let json = edit_json("{\"app\":\"1.0.0\"}", &["{{ name }}"], "1.2.3", Some("utils"), MissingFieldBehavior::Ignore)
        .unwrap_or_else(|error| panic!("skip missing json name field: {error}"));
    assert!(json.contains("\"app\": \"1.0.0\""));

    let toml = edit_toml("app = \"1.0.0\"\n", &["{{ name }}"], "1.2.3", Some("utils"), MissingFieldBehavior::Ignore)
        .unwrap_or_else(|error| panic!("skip missing toml name field: {error}"));
    assert_eq!(toml, "app = \"1.0.0\"\n");

    let yaml = edit_yaml("app: 1.0.0\n", &["{{ name }}"], "1.2.3", Some("utils"), MissingFieldBehavior::Ignore)
        .unwrap_or_else(|error| panic!("skip missing yaml name field: {error}"));
    assert!(yaml.contains("app: 1.0.0"));

    let env = update_env_versioned_file_text(
        "APP_VERSION=1.0.0\n",
        &texts(&["{{ name }}"]),
        "1.2.3",
        Some("UTILS_VERSION"),
        MissingFieldBehavior::Ignore,
    );
    assert_eq!(env, "APP_VERSION=1.0.0\n");
}

#[test]
fn format_versioned_file_reports_invalid_paths_and_parse_errors() {
    // Parsing the file belongs to the command line.
    let json_non_object =
        edit_json("{\"release\":\"1.0.0\"}", &["release.version"], "1.2.3", None, MissingFieldBehavior::Ignore)
            .expect_err("json traversal through a string should fail");
    assert!(json_non_object.contains("non-object value"));

    let json_non_object_segment = edit_json(
        "{\"release\":{\"metadata\":\"1.0.0\"}}",
        &["release.metadata.inner.version"],
        "1.2.3",
        None,
        MissingFieldBehavior::Ignore,
    )
    .expect_err("json traversal after a string segment should fail");
    assert!(json_non_object_segment.contains("non-object segment `inner`"));

    let json_root_scalar = edit_json("\"1.0.0\"", &["version"], "1.2.3", None, MissingFieldBehavior::Ignore)
        .expect_err("json scalar root should fail");
    assert!(json_root_scalar.contains("non-object value"));

    let toml_non_table = edit_toml("[tool]\napp = \"1.0.0\"\n", &["tool.app.version"], "1.2.3", None, MissingFieldBehavior::Ignore)
        .expect_err("toml traversal through a string should fail");
    assert!(toml_non_table.contains("non-table segment `app`"));

    let yaml_non_mapping = edit_yaml("release: 1.0.0\n", &["release.version"], "1.2.3", None, MissingFieldBehavior::Ignore)
        .expect_err("yaml traversal through a scalar should fail");
    assert!(yaml_non_mapping.contains("non-mapping value"));

    let yaml_non_mapping_segment = edit_yaml(
        "release:\n  metadata: 1.0.0\n",
        &["release.metadata.inner.version"],
        "1.2.3",
        None,
        MissingFieldBehavior::Ignore,
    )
    .expect_err("yaml traversal after a scalar segment should fail");
    assert!(yaml_non_mapping_segment.contains("non-mapping segment `inner`"));

    let yaml_root_scalar = edit_yaml("1.0.0\n", &["version"], "1.2.3", None, MissingFieldBehavior::Ignore)
        .expect_err("yaml scalar root should fail");
    assert!(yaml_root_scalar.contains("non-mapping value"));

    let empty_segment = edit_json(
        "{\"release\":{\"version\":\"1.0.0\"}}",
        &["release..version"],
        "1.2.3",
        None,
        MissingFieldBehavior::Ignore,
    )
    .expect_err("empty path segment should fail");
    assert!(empty_segment.contains("non-empty dot-separated segments"));
}

#[test]
fn setting_a_field_points_its_entry_at_a_new_text_value() {
    // { "a": { "b": <kept 0> } }
    let mut doc = FieldDoc {
        nodes: vec![
            FieldNode::Mapping(vec![(FieldKey::Text("a".to_string()), 1)]),
            FieldNode::Mapping(vec![(FieldKey::Text("b".to_string()), 2)]),
            FieldNode::Other(0),
        ],
    };
    assert_eq!(set_field_path(&mut doc, &texts(&["a", "b"]), "2.0.0", false, false), Ok(()));
    assert_eq!(doc.nodes.len(), 4);
    assert_eq!(entry(&doc, 1, "b"), Some(3));
    assert_eq!(text_of(&doc, 3), Some("2.0.0".to_string()));
}

#[test]
fn a_failed_plain_update_names_the_segment_and_leaves_the_document() {
    let mut doc = FieldDoc {
        nodes: vec![
            FieldNode::Mapping(vec![(FieldKey::Other(0), 1), (FieldKey::Text("a".to_string()), 2)]),
            FieldNode::Other(0),
            FieldNode::Other(1),
        ],
    };
    assert_eq!(set_field_path(&mut doc, &texts(&["b"]), "2.0.0", false, false), Err(PathFailure::MissingLeaf(0)));
    assert_eq!(set_field_path(&mut doc, &texts(&["b", "c"]), "2.0.0", false, false), Err(PathFailure::MissingSegment(0)));
    assert_eq!(set_field_path(&mut doc, &texts(&["a", "c"]), "2.0.0", false, false), Err(PathFailure::NotMapLeaf(1)));
    assert_eq!(set_field_path(&mut doc, &texts(&["a", "c", "d"]), "2.0.0", false, false), Err(PathFailure::NotMapSegment(1)));
    assert_eq!(set_field_path(&mut doc, &texts(&[]), "2.0.0", false, false), Err(PathFailure::NoSegments));
    // Walked as TOML tables, the value that is no mapping fails at its own segment.
    assert_eq!(set_field_path(&mut doc, &texts(&["a", "c", "d"]), "2.0.0", false, true), Err(PathFailure::NotMapSegment(0)));
    assert_eq!(doc.nodes.len(), 3);
}

#[test]
fn adding_a_nested_field_appends_mappings_and_keeps_existing_entries_in_place() {
    let mut doc = FieldDoc {
        nodes: vec![FieldNode::Mapping(vec![(FieldKey::Text("keep".to_string()), 1)]), FieldNode::Other(0)],
    };
    assert_eq!(set_field_path(&mut doc, &texts(&["x", "y"]), "3.0.0", true, false), Ok(()));
    match &doc.nodes[0] {
        FieldNode::Mapping(entries) => {
            assert_eq!(entries.len(), 2);
            assert!(matches!(&entries[0], (FieldKey::Text(k), 1) if k == "keep"));
            assert!(matches!(&entries[1], (FieldKey::Text(k), 2) if k == "x"));
        },
        _ => panic!("root stays a mapping"),
    }
    assert_eq!(entry(&doc, 2, "y"), Some(3));
    assert_eq!(text_of(&doc, 3), Some("3.0.0".to_string()));
}

#[test]
fn a_missing_field_error_is_reported_when_neither_added_nor_ignored_applies() {
    // A path of one segment on a scalar root is no missing field: it fails
    // whatever the behavior.
    let mut doc = FieldDoc { nodes: vec![FieldNode::Other(0)] };
    let error = set_document_fields(&mut doc, &texts(&["v"]), "1.0.0", None, MissingFieldBehavior::Ignore, DocumentKind::Json)
        .expect_err("scalar root");
    assert_eq!(message(error), "versioned_files field `v` cannot set `v` on a non-object value");
}
