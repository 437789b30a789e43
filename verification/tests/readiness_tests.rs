use monochange::error::MonochangeError;
use monochange::model::Ecosystem;
use monochange::readiness::{
    package_identities, package_set_fingerprint, render_package_identity, render_package_identity_list,
    validate_publish_readiness_plan_artifact, validate_readiness_artifact_header, validate_readiness_input_fingerprint,
    validate_readiness_release_commit, PublishOrderFinding, PublishReadinessGlobalStatus, PublishReadinessPackage,
    PublishReadinessPackageStatus, PublishReadinessReport, TrustedPublishingReadiness,
    TrustedPublishingReadinessStatus,
};
use monochange::readiness_report::{publish_plan_ready_package_ids, render_markdown_report, render_text_report};

fn sample_readiness_package() -> PublishReadinessPackage {
    PublishReadinessPackage {
        package: "core".to_string(),
        ecosystem: Ecosystem::Cargo,
        registry: "crates.io".to_string(),
        version: "1.2.3".to_string(),
        status: PublishReadinessPackageStatus::Ready,
        message: "ready to publish core 1.2.3".to_string(),
        trusted_publishing: None,
    }
}

fn readiness_package(package: &str, registry: &str, status: PublishReadinessPackageStatus) -> PublishReadinessPackage {
    PublishReadinessPackage {
        package: package.to_string(),
        registry: registry.to_string(),
        status,
        message: format!("{package} readiness"),
        ..sample_readiness_package()
    }
}

fn sample_readiness_report(packages: Vec<PublishReadinessPackage>) -> PublishReadinessReport {
    PublishReadinessReport {
        schema_version: 3,
        kind: "monochange.publishReadiness".to_string(),
        status: PublishReadinessGlobalStatus::Ready,
        from: "HEAD".to_string(),
        resolved_commit: "resolved123".to_string(),
        record_commit: "record123".to_string(),
        package_set_fingerprint: package_set_fingerprint(&packages),
        input_fingerprint: "fnv1a64:sample".to_string(),
        packages,
        publish_order: Vec::new(),
        order_findings: Vec::new(),
    }
}

fn validate_readiness_artifact_status(report: &PublishReadinessReport) -> Result<(), MonochangeError> {
    if report.status == PublishReadinessGlobalStatus::Ready {
        return Ok(());
    }
    Err(MonochangeError::Config(
        "publish readiness artifact is blocked; rerun `monochange step publish-readiness` and resolve blockers before `monochange step publish-packages`".to_string(),
    ))
}

fn validate_readiness_current_status(report: &PublishReadinessReport) -> Result<(), MonochangeError> {
    if report.status == PublishReadinessGlobalStatus::Ready {
        return Ok(());
    }
    Err(MonochangeError::Config(
        "current publish readiness is blocked; rerun `monochange step publish-readiness` and resolve blockers before `monochange step publish-packages`".to_string(),
    ))
}

fn validate_readiness_packages(
    artifact: &PublishReadinessReport,
    current: &PublishReadinessReport,
) -> Result<(), MonochangeError> {
    let artifact_packages: Vec<String> =
        package_identities(&artifact.packages)?.iter().map(render_package_identity).collect();
    let current_packages: Vec<String> =
        package_identities(&current.packages)?.iter().map(render_package_identity).collect();
    if artifact.package_set_fingerprint != package_set_fingerprint(&artifact.packages) {
        return Err(MonochangeError::Config(
            "publish readiness artifact package fingerprint does not match its package list".to_string(),
        ));
    }
    if artifact_packages == current_packages {
        return Ok(());
    }
    let missing: Vec<String> =
        current_packages.iter().filter(|p| !artifact_packages.contains(p)).cloned().collect();
    let stale: Vec<String> = artifact_packages.iter().filter(|p| !current_packages.contains(p)).cloned().collect();
    Err(MonochangeError::Config(format!(
        "publish readiness artifact package set is stale or does not match selected packages (missing: {}; stale: {})",
        render_package_identity_list(&missing),
        render_package_identity_list(&stale)
    )))
}

fn validate_publish_readiness_report(
    artifact: &PublishReadinessReport,
    current: &PublishReadinessReport,
) -> Result<(), MonochangeError> {
    validate_readiness_artifact_header(artifact)?;
    validate_readiness_artifact_status(artifact)?;
    validate_readiness_current_status(current)?;
    validate_readiness_release_commit(artifact, current)?;
    validate_readiness_input_fingerprint(artifact, current)?;
    validate_readiness_packages(artifact, current)
}

fn message(error: MonochangeError) -> String {
    error.render()
}

#[test]
fn render_package_identity_list_labels_empty_lists() {
    assert_eq!(render_package_identity_list(&[]), "none");
    assert_eq!(
        render_package_identity_list(&["core Cargo crates.io 1.2.3".to_string()]),
        "core Cargo crates.io 1.2.3"
    );
    assert_eq!(
        render_package_identity_list(&["core Cargo crates.io 1.2.3".to_string(), "web Npm npmjs 4.5.6".to_string()]),
        "core Cargo crates.io 1.2.3, web Npm npmjs 4.5.6"
    );
}

#[test]
fn validate_publish_readiness_report_rejects_stale_input_fingerprints() {
    let mut artifact = sample_readiness_report(vec![sample_readiness_package()]);
    let current = sample_readiness_report(vec![sample_readiness_package()]);
    artifact.input_fingerprint = "fnv1a64:stale".to_string();
    let error = validate_publish_readiness_report(&artifact, &current).expect_err("stale input fingerprint should be rejected");
    assert!(message(error).contains("inputs are stale"));
}

#[test]
fn render_report_supports_json_text_and_markdown() {
    let mut report = sample_readiness_report(vec![sample_readiness_package()]);
    report.publish_order = vec!["core".to_string()];
    report.order_findings.push(PublishOrderFinding {
        package: None,
        message: "release record publication order differs".to_string(),
        blocking: false,
    });
    report.packages[0].trusted_publishing = Some(TrustedPublishingReadiness {
        status: TrustedPublishingReadinessStatus::ManualVerificationRequired,
        message: "verify the registry-side trusted publisher configuration".to_string(),
    });
    let text = render_text_report(&report);
    assert!(text.contains("publish readiness: ready"));
    assert!(text.contains("release record: record123"));
    assert!(text.contains("trusted publishing [manual_verification_required]"));
    assert!(text.contains("publish order: core"));
    assert!(text.contains("order finding [note]: release record publication order differs"));
    let markdown = render_markdown_report(&report);
    assert!(markdown.contains("## Publish readiness"));
    assert!(markdown.contains("Release record: `record123`"));
    assert!(markdown.contains("Trusted publishing"));
    assert!(markdown.contains("Publish order: `core`"));
    assert!(markdown.contains("Order finding (note)"));

    let blocked_report = sample_readiness_report(vec![PublishReadinessPackage {
        trusted_publishing: Some(TrustedPublishingReadiness {
            status: TrustedPublishingReadinessStatus::Blocked,
            message: "blocked".to_string(),
        }),
        ..sample_readiness_package()
    }]);
    assert!(render_text_report(&blocked_report).contains("trusted publishing [blocked]"));
    let disabled_report = sample_readiness_report(vec![PublishReadinessPackage {
        trusted_publishing: Some(TrustedPublishingReadiness {
            status: TrustedPublishingReadinessStatus::Disabled,
            message: "trusted publishing is disabled".to_string(),
        }),
        ..sample_readiness_package()
    }]);
    assert!(render_text_report(&disabled_report).contains("trusted publishing [disabled]"));
}

#[test]
fn render_report_handles_empty_package_sections() {
    let report = sample_readiness_report(Vec::new());
    assert!(render_text_report(&report).contains("packages: none"));
    assert!(render_markdown_report(&report).contains("No packages selected for publishing."));
}

#[test]
fn render_report_labels_blocked_already_published_and_unsupported_packages() {
    let packages = vec![
        PublishReadinessPackage { status: PublishReadinessPackageStatus::AlreadyPublished, ..sample_readiness_package() },
        PublishReadinessPackage {
            package: "external".to_string(),
            status: PublishReadinessPackageStatus::Unsupported,
            ..sample_readiness_package()
        },
        PublishReadinessPackage {
            package: "blocked".to_string(),
            status: PublishReadinessPackageStatus::Blocked,
            ..sample_readiness_package()
        },
    ];
    let report = PublishReadinessReport {
        status: PublishReadinessGlobalStatus::Blocked,
        package_set_fingerprint: package_set_fingerprint(&packages),
        packages,
        ..sample_readiness_report(Vec::new())
    };
    let markdown = render_markdown_report(&report);
    assert!(markdown.contains("Status: `blocked`"));
    assert!(markdown.contains("already_published"));
    assert!(markdown.contains("unsupported"));
    assert!(markdown.contains("blocked"));
}

#[test]
fn markdown_report_escapes_table_separators_in_messages() {
    let report = sample_readiness_report(vec![PublishReadinessPackage {
        message: "a | b".to_string(),
        ..sample_readiness_package()
    }]);
    assert!(render_markdown_report(&report).contains("| a \\| b |"));
}

#[test]
fn validate_publish_readiness_report_accepts_matching_ready_reports() {
    let artifact = sample_readiness_report(vec![sample_readiness_package()]);
    let current = sample_readiness_report(vec![sample_readiness_package()]);
    validate_publish_readiness_report(&artifact, &current).unwrap_or_else(|error| panic!("matching readiness artifact: {}", error.render()));
}

#[test]
fn publish_plan_ready_package_ids_requires_every_package_row_to_be_ready() {
    let report = sample_readiness_report(vec![
        readiness_package("core", "crates.io", PublishReadinessPackageStatus::Ready),
        readiness_package("core", "npm", PublishReadinessPackageStatus::AlreadyPublished),
        readiness_package("web", "crates.io", PublishReadinessPackageStatus::Ready),
        readiness_package("web", "npm", PublishReadinessPackageStatus::Blocked),
        readiness_package("docs", "crates.io", PublishReadinessPackageStatus::AlreadyPublished),
        readiness_package("external", "crates.io", PublishReadinessPackageStatus::Unsupported),
    ]);
    assert_eq!(publish_plan_ready_package_ids(&report), vec!["core".to_string(), "docs".to_string()]);
}

#[test]
fn validate_publish_readiness_plan_artifact_accepts_blocked_subset_reports() {
    let artifact = sample_readiness_report(vec![
        readiness_package("core", "crates.io", PublishReadinessPackageStatus::Ready),
        readiness_package("web", "crates.io", PublishReadinessPackageStatus::Blocked),
        readiness_package("extra", "crates.io", PublishReadinessPackageStatus::Ready),
    ]);
    let current = PublishReadinessReport {
        status: PublishReadinessGlobalStatus::Blocked,
        packages: vec![
            readiness_package("core", "crates.io", PublishReadinessPackageStatus::Ready),
            readiness_package("web", "crates.io", PublishReadinessPackageStatus::Blocked),
        ],
        ..sample_readiness_report(Vec::new())
    };
    validate_publish_readiness_plan_artifact(&artifact, &current)
        .unwrap_or_else(|error| panic!("planning readiness artifact: {}", error.render()));
}

#[test]
fn validate_publish_readiness_plan_artifact_rejects_tampering_and_missing_coverage() {
    let current = sample_readiness_report(vec![
        readiness_package("core", "crates.io", PublishReadinessPackageStatus::Ready),
        readiness_package("web", "crates.io", PublishReadinessPackageStatus::Ready),
    ]);
    let mut tampered = sample_readiness_report(vec![
        readiness_package("core", "crates.io", PublishReadinessPackageStatus::Ready),
        readiness_package("web", "crates.io", PublishReadinessPackageStatus::Ready),
    ]);
    tampered.package_set_fingerprint = "tampered".to_string();
    let tampered_error = validate_publish_readiness_plan_artifact(&tampered, &current).expect_err("tampered");
    assert!(message(tampered_error).contains("package fingerprint"));

    let missing = sample_readiness_report(vec![readiness_package("core", "crates.io", PublishReadinessPackageStatus::Ready)]);
    let missing_error = validate_publish_readiness_plan_artifact(&missing, &current).expect_err("missing");
    assert!(message(missing_error).contains("does not cover selected packages"));
}

#[test]
fn validate_publish_readiness_report_rejects_bad_kind_schema_and_statuses() {
    let current = sample_readiness_report(vec![sample_readiness_package()]);
    let mut bad_kind = sample_readiness_report(vec![sample_readiness_package()]);
    bad_kind.kind = "other".to_string();
    assert!(message(validate_publish_readiness_report(&bad_kind, &current).expect_err("kind")).contains("expected"));
    let mut bad_schema = sample_readiness_report(vec![sample_readiness_package()]);
    bad_schema.schema_version = 99;
    assert!(message(validate_publish_readiness_report(&bad_schema, &current).expect_err("schema")).contains("not supported"));
    let mut blocked_artifact = sample_readiness_report(vec![sample_readiness_package()]);
    blocked_artifact.status = PublishReadinessGlobalStatus::Blocked;
    assert!(message(validate_publish_readiness_report(&blocked_artifact, &current).expect_err("blocked")).contains("artifact is blocked"));
    let mut blocked_current = sample_readiness_report(vec![sample_readiness_package()]);
    blocked_current.status = PublishReadinessGlobalStatus::Blocked;
    assert!(message(validate_publish_readiness_report(&current, &blocked_current).expect_err("current"))
        .contains("current publish readiness is blocked"));
}

#[test]
fn validate_publish_readiness_report_rejects_stale_commits_and_packages() {
    let current = sample_readiness_report(vec![sample_readiness_package()]);
    let mut stale_commit = sample_readiness_report(vec![sample_readiness_package()]);
    stale_commit.record_commit = "old-record".to_string();
    assert!(message(validate_publish_readiness_report(&stale_commit, &current).expect_err("commit")).contains("old-record"));

    let missing_package = sample_readiness_report(Vec::new());
    assert!(message(validate_publish_readiness_report(&missing_package, &current).expect_err("missing")).contains("missing: core"));

    let stale_package = sample_readiness_report(vec![
        sample_readiness_package(),
        PublishReadinessPackage { package: "web".to_string(), ..sample_readiness_package() },
    ]);
    assert!(message(validate_publish_readiness_report(&stale_package, &current).expect_err("stale")).contains("stale: web"));
}

#[test]
fn validate_publish_readiness_report_rejects_tampered_fingerprint_and_duplicates() {
    let current = sample_readiness_report(vec![sample_readiness_package()]);
    let mut bad_fingerprint = sample_readiness_report(vec![sample_readiness_package()]);
    bad_fingerprint.package_set_fingerprint = "tampered".to_string();
    assert!(message(validate_publish_readiness_report(&bad_fingerprint, &current).expect_err("fingerprint"))
        .contains("package fingerprint"));
    let duplicate_package = PublishReadinessPackage { message: "duplicate".to_string(), ..sample_readiness_package() };
    let duplicates = sample_readiness_report(vec![sample_readiness_package(), duplicate_package]);
    assert!(message(validate_publish_readiness_report(&duplicates, &current).expect_err("duplicates"))
        .contains("duplicate package entry"));
}

#[test]
fn package_set_fingerprint_ignores_row_order() {
    let a = vec![
        readiness_package("core", "crates.io", PublishReadinessPackageStatus::Ready),
        readiness_package("web", "npm", PublishReadinessPackageStatus::Blocked),
    ];
    let b = vec![
        readiness_package("web", "npm", PublishReadinessPackageStatus::Ready),
        readiness_package("core", "crates.io", PublishReadinessPackageStatus::Ready),
    ];
    assert_eq!(package_set_fingerprint(&a), package_set_fingerprint(&b));
    assert_eq!(package_set_fingerprint(&a), "core Cargo crates.io 1.2.3\nweb Cargo npm 1.2.3");
}
