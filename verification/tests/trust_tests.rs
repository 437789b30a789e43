use monochange::readiness::TrustedPublishingReadinessStatus;
use monochange::trust::{
    blocked_trust_readiness, check_trusted_publishing_readiness, manual_verification_readiness,
    project_side_blocker, registry_side_readiness, trusted_publishing_project_blocker_message,
    ProjectTrustFacts, RegistryProbe,
};

const NPM_SETUP: &str = "https://www.npmjs.com/package/pkg/access";

fn github_facts() -> ProjectTrustFacts {
    ProjectTrustFacts {
        provider_unknown: false,
        provider_label: "GitHub Actions".to_string(),
        trusted_publishing_supported: true,
        ci_identity_verifiable: true,
        identity_in_env: true,
        capability_message: "npm accepts GitHub Actions OIDC.".to_string(),
        registry: "npm".to_string(),
        setup_url: NPM_SETUP.to_string(),
        trust_context: Ok("release.yml".to_string()),
        workflow_path: ".github/workflows/release.yml".to_string(),
        workflow_exists: true,
    }
}

#[test]
fn disabled_trust_publishing_reports_disabled_status() {
    let readiness = check_trusted_publishing_readiness(false, &github_facts(), "pkg", Ok(RegistryProbe::Exists));
    assert_eq!(readiness.status, TrustedPublishingReadinessStatus::Disabled);
}

#[test]
fn local_environment_degrades_to_manual_verification() {
    let mut facts = github_facts();
    facts.provider_unknown = true;
    let readiness = check_trusted_publishing_readiness(true, &facts, "pkg", Ok(RegistryProbe::Exists));
    assert_eq!(readiness.status, TrustedPublishingReadinessStatus::ManualVerificationRequired);
    assert!(readiness.message.contains("CI workflow"));
}

#[test]
fn unsupported_provider_blocks_trusted_publishing() {
    let mut facts = github_facts();
    facts.provider_label = "CircleCI".to_string();
    facts.trusted_publishing_supported = false;
    let readiness = check_trusted_publishing_readiness(true, &facts, "pkg", Ok(RegistryProbe::Exists));
    assert_eq!(readiness.status, TrustedPublishingReadinessStatus::Blocked);
    assert!(readiness.message.contains("not supported"));
    assert!(readiness.message.contains(NPM_SETUP));
}

#[test]
fn missing_workflow_file_blocks_github_ci_context() {
    let mut facts = github_facts();
    facts.workflow_exists = false;
    let readiness = check_trusted_publishing_readiness(true, &facts, "pkg", Ok(RegistryProbe::Exists));
    assert_eq!(readiness.status, TrustedPublishingReadinessStatus::Blocked);
    assert!(readiness.message.contains("release.yml"));
}

#[test]
fn existing_workflow_file_passes_project_side_checks() {
    let facts = github_facts();
    assert!(project_side_blocker(&facts).is_none());
    let readiness = check_trusted_publishing_readiness(true, &facts, "pkg", Err("offline".to_string()));
    assert_eq!(readiness.status, TrustedPublishingReadinessStatus::ManualVerificationRequired);
    assert!(readiness.message.contains("registry"));
    assert_eq!(
        readiness.message,
        "trusted publishing registry state could not be checked: offline; verify the registry-side trusted publishing setup manually at https://www.npmjs.com/package/pkg/access"
    );
}

#[test]
fn project_blocker_message_returns_blocked_messages_only() {
    let mut facts = github_facts();
    assert!(trusted_publishing_project_blocker_message(false, &facts).is_none());
    assert!(trusted_publishing_project_blocker_message(true, &facts).is_none());
    facts.provider_unknown = true;
    assert!(trusted_publishing_project_blocker_message(true, &facts).is_none());
    facts.provider_unknown = false;
    facts.trust_context = Ok("missing.yml".to_string());
    facts.workflow_path = ".github/workflows/missing.yml".to_string();
    facts.workflow_exists = false;
    let blocker = trusted_publishing_project_blocker_message(true, &facts);
    assert!(blocker.is_some_and(|message| message.contains("missing.yml")));
}

#[test]
fn incomplete_ci_identity_blocks_in_ci() {
    let mut facts = github_facts();
    facts.identity_in_env = false;
    let readiness = check_trusted_publishing_readiness(true, &facts, "pkg", Ok(RegistryProbe::Exists));
    assert_eq!(readiness.status, TrustedPublishingReadinessStatus::Blocked);
    assert!(readiness.message.contains("incomplete"));
}

#[test]
fn unresolved_trust_context_blocks_with_its_reason() {
    let mut facts = github_facts();
    facts.trust_context = Err("no repository is configured".to_string());
    let readiness = check_trusted_publishing_readiness(true, &facts, "pkg", Ok(RegistryProbe::Exists));
    assert_eq!(readiness.status, TrustedPublishingReadinessStatus::Blocked);
    assert!(readiness.message.starts_with("trusted publishing setup is incomplete: no repository is configured. "));
}

#[test]
fn registry_answers_decide_the_remaining_status() {
    let exists = registry_side_readiness("pkg", "npm", NPM_SETUP, RegistryProbe::Exists);
    assert_eq!(exists.status, TrustedPublishingReadinessStatus::ManualVerificationRequired);
    assert!(exists.message.starts_with("package exists on npm; verify the registry-side trusted publisher configuration at"));
    let missing = registry_side_readiness("pkg", "npm", NPM_SETUP, RegistryProbe::Missing);
    assert_eq!(missing.status, TrustedPublishingReadinessStatus::Blocked);
    assert!(missing.message.starts_with("`pkg` has never been published to npm"));
    let silent = registry_side_readiness("pkg", "npm", NPM_SETUP, RegistryProbe::NotProbeable);
    assert_eq!(silent.status, TrustedPublishingReadinessStatus::ManualVerificationRequired);
    let failed = registry_side_readiness("pkg", "npm", NPM_SETUP, RegistryProbe::Failed("timeout".to_string()));
    assert!(failed.message.starts_with("trusted publishing registry lookup failed: timeout;"));
}

#[test]
fn manual_and_blocked_messages_point_at_the_setup_page() {
    let manual = manual_verification_readiness("reason", "detail", "https://setup");
    assert_eq!(
        manual.message,
        "reason: detail; verify the registry-side trusted publishing setup manually at https://setup"
    );
    let blocked = blocked_trust_readiness("reason", "https://setup");
    assert_eq!(blocked.status, TrustedPublishingReadinessStatus::Blocked);
    assert_eq!(
        blocked.message,
        "reason; open https://setup to finish trusted publishing setup, or set `publish.trusted_publishing = false` to opt out"
    );
}
