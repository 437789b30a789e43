use monochange::release_tags::{latest_release_tag, release_tag_version, render_tag, SemVer, TagIdentity, VersionFormat};

fn parts(v: Option<SemVer>) -> Option<(u64, u64, u64, String, String)> {
    v.map(|v| (v.major, v.minor, v.patch, v.pre, v.build))
}

fn version(major: u64, minor: u64, patch: u64, pre: &str) -> Option<(u64, u64, u64, String, String)> {
    Some((major, minor, patch, pre.to_string(), String::new()))
}

#[test]
fn release_tag_version_supports_primary_namespaced_and_custom_formats() {
    assert_eq!(parts(release_tag_version("v1.2.3", &VersionFormat::Primary, "core", "cargo")), version(1, 2, 3, ""));
    assert_eq!(
        parts(release_tag_version("core/v2.0.0-beta.1", &VersionFormat::Namespaced, "core", "cargo")),
        version(2, 0, 0, "beta.1")
    );
    assert_eq!(
        parts(release_tag_version(
            "release/cargo/core/3.4.5",
            &VersionFormat::Custom("release/{{ ecosystem }}/{{ name }}/{{ version }}".to_string()),
            "core",
            "cargo",
        )),
        version(3, 4, 5, "")
    );
    assert!(release_tag_version("other/v1.2.3", &VersionFormat::Namespaced, "core", "cargo").is_none());
}

#[test]
fn release_tags_render_from_their_format() {
    assert_eq!(render_tag(&VersionFormat::Primary, "core", "1.0.0", "cargo"), "v1.0.0");
    assert_eq!(render_tag(&VersionFormat::Namespaced, "core", "1.0.0", "cargo"), "core/v1.0.0");
    assert_eq!(
        render_tag(&VersionFormat::Custom("{{ ecosystem }}-{{ name }}@{{ version }}".to_string()), "core", "1.0.0", "npm"),
        "npm-core@1.0.0"
    );
}

#[test]
fn a_tag_without_a_parseable_version_has_none() {
    assert!(release_tag_version("v1.2", &VersionFormat::Primary, "core", "cargo").is_none());
    assert!(release_tag_version("", &VersionFormat::Primary, "core", "cargo").is_none());
}

#[test]
fn latest_release_tag_uses_effective_release_identity() {
    let tags = vec!["core/v1.0.0".to_string(), " core/v2.0.0 ".to_string(), "other/v3.0.0".to_string(), "core/v1.5.0".to_string()];
    let enabled = TagIdentity { owner_id: "core".to_string(), tag: true, version_format: VersionFormat::Namespaced };
    assert_eq!(latest_release_tag(&tags, Some(&enabled), "cargo"), Some("core/v2.0.0".to_string()));
    let untagged = TagIdentity { owner_id: "core".to_string(), tag: false, version_format: VersionFormat::Namespaced };
    assert_eq!(latest_release_tag(&tags, Some(&untagged), "cargo"), None);
    assert_eq!(latest_release_tag(&tags, None, "cargo"), None);
    let prerelease = vec!["core/v2.0.0".to_string(), "core/v2.0.0-rc.1".to_string()];
    assert_eq!(latest_release_tag(&prerelease, Some(&enabled), "cargo"), Some("core/v2.0.0".to_string()));
}
