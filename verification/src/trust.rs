use vstd::prelude::*;

use crate::readiness::{TrustedPublishingReadiness, TrustedPublishingReadinessStatus};
use crate::text::push_str;

verus! {

broadcast use vstd::string::group_string_axioms;

pub open spec fn manual_text(reason: Seq<char>, detail: Seq<char>, setup_url: Seq<char>) -> Seq<char> {
    reason + ": "@ + detail + "; verify the registry-side trusted publishing setup manually at "@ + setup_url
}

/// A decision that asks for the registry-side setup to be checked by hand.
pub fn manual_verification_readiness(reason: &str, detail: &str, setup_url: &str) -> (r: TrustedPublishingReadiness)
    ensures
        r.status == TrustedPublishingReadinessStatus::ManualVerificationRequired,
        r.message@ == manual_text(reason@, detail@, setup_url@),
{
    let mut m = String::new();
    push_str(&mut m, reason);
    push_str(&mut m, ": ");
    push_str(&mut m, detail);
    push_str(&mut m, "; verify the registry-side trusted publishing setup manually at ");
    push_str(&mut m, setup_url);
    TrustedPublishingReadiness { status: TrustedPublishingReadinessStatus::ManualVerificationRequired, message: m }
}

pub open spec fn blocked_text(reason: Seq<char>, setup_url: Seq<char>) -> Seq<char> {
    reason + "; open "@ + setup_url
        + " to finish trusted publishing setup, or set `publish.trusted_publishing = false` to opt out"@
}

/// A decision that blocks the package, pointing at the registry's setup page.
pub fn blocked_trust_readiness(reason: &str, setup_url: &str) -> (r: TrustedPublishingReadiness)
    ensures
        r.status == TrustedPublishingReadinessStatus::Blocked,
        r.message@ == blocked_text(reason@, setup_url@),
{
    let mut m = String::new();
    push_str(&mut m, reason);
    push_str(&mut m, "; open ");
    push_str(&mut m, setup_url);
    push_str(&mut m, " to finish trusted publishing setup, or set `publish.trusted_publishing = false` to opt out");
    TrustedPublishingReadiness { status: TrustedPublishingReadinessStatus::Blocked, message: m }
}

/// What a registry said about a package: it exists, it does not, it cannot
/// be asked without credentials, or the lookup failed with a message.
pub enum RegistryProbe {
    Exists,
    Missing,
    NotProbeable,
    Failed(String),
}

/// The decision for what the registry said about a package.
pub open spec fn registry_decision_matches(
    r: TrustedPublishingReadiness,
    package_name: Seq<char>,
    registry: Seq<char>,
    setup_url: Seq<char>,
    probe: RegistryProbe,
) -> bool {
    match probe {
        RegistryProbe::Exists => r.status == TrustedPublishingReadinessStatus::ManualVerificationRequired
            && r.message@ == "package exists on "@ + registry + "; verify the registry-side trusted publisher configuration at "@
                + setup_url + " (monochange cannot read trusted publisher entries without registry credentials)"@,
        RegistryProbe::Missing => r.status == TrustedPublishingReadinessStatus::Blocked
            && r.message@ == "`"@ + package_name + "` has never been published to "@ + registry
                + " and trusted publishing can only be configured after an initial publish; bootstrap the package with `monochange step placeholder-publish`, then rerun `monochange step publish-readiness --from HEAD --output <PATH>`"@,
        RegistryProbe::NotProbeable => r.status == TrustedPublishingReadinessStatus::ManualVerificationRequired
            && r.message@ == manual_text("trusted publishing is not probe-able for this registry without credentials"@, setup_url, setup_url),
        RegistryProbe::Failed(e) => r.status == TrustedPublishingReadinessStatus::ManualVerificationRequired
            && r.message@ == manual_text("trusted publishing registry lookup failed"@, e@, setup_url),
    }
}

/// Turns what the registry said about a package into a trusted-publishing decision.
pub fn registry_side_readiness(
    package_name: &str,
    registry: &str,
    setup_url: &str,
    probe: RegistryProbe,
) -> (r: TrustedPublishingReadiness)
    ensures
        registry_decision_matches(r, package_name@, registry@, setup_url@, probe),
{
    match probe {
        RegistryProbe::Exists => {
            let mut m = String::new();
            push_str(&mut m, "package exists on ");
            push_str(&mut m, registry);
            push_str(&mut m, "; verify the registry-side trusted publisher configuration at ");
            push_str(&mut m, setup_url);
            push_str(&mut m, " (monochange cannot read trusted publisher entries without registry credentials)");
            TrustedPublishingReadiness { status: TrustedPublishingReadinessStatus::ManualVerificationRequired, message: m }
        },
        RegistryProbe::Missing => {
            let mut m = String::new();
            push_str(&mut m, "`");
            push_str(&mut m, package_name);
            push_str(&mut m, "` has never been published to ");
            push_str(&mut m, registry);
            push_str(&mut m, " and trusted publishing can only be configured after an initial publish; bootstrap the package with `monochange step placeholder-publish`, then rerun `monochange step publish-readiness --from HEAD --output <PATH>`");
            TrustedPublishingReadiness { status: TrustedPublishingReadinessStatus::Blocked, message: m }
        },
        RegistryProbe::NotProbeable => {
            manual_verification_readiness(
                "trusted publishing is not probe-able for this registry without credentials",
                setup_url,
                setup_url,
            )
        },
        RegistryProbe::Failed(e) => {
            manual_verification_readiness("trusted publishing registry lookup failed", e.as_str(), setup_url)
        },
    }
}

/// What the project-side trusted-publishing check found out about the
/// environment and the configuration of one package.
pub struct ProjectTrustFacts {
    /// The CI provider could not be recognized.
    pub provider_unknown: bool,
    /// The name of the CI provider.
    pub provider_label: String,
    /// The registry accepts trusted publishing from this provider.
    pub trusted_publishing_supported: bool,
    /// The provider's CI identity can be verified.
    pub ci_identity_verifiable: bool,
    /// The environment holds what the publish-time identity check needs.
    pub identity_in_env: bool,
    /// The explanation of the provider's and registry's capability.
    pub capability_message: String,
    /// The registry, as messages name it.
    pub registry: String,
    /// Where the registry-side setup is done.
    pub setup_url: String,
    /// The configured workflow file name, or why the trust context could not be resolved.
    pub trust_context: Result<String, String>,
    /// The path of the workflow file.
    pub workflow_path: String,
    /// A file exists at that path.
    pub workflow_exists: bool,
}

/// A decision as its status and message.
pub open spec fn decision_view(r: Option<TrustedPublishingReadiness>) -> Option<(TrustedPublishingReadinessStatus, Seq<char>)> {
    match r {
        Some(v) => Some((v.status, v.message@)),
        None => None,
    }
}

/// The project-side decision: nothing when the package may proceed. An unknown
/// CI provider asks for manual verification; an unsupported registry or
/// provider, an incomplete publish-time environment, an unresolved trust
/// context or a missing workflow file blocks.
pub open spec fn project_decision(f: ProjectTrustFacts) -> Option<(TrustedPublishingReadinessStatus, Seq<char>)> {
    if f.provider_unknown {
        Some((TrustedPublishingReadinessStatus::ManualVerificationRequired,
            "trusted publishing identity could not be verified in this environment; built-in release publishing must run from the configured CI workflow. "@
                + f.capability_message@))
    } else if !f.trusted_publishing_supported || !f.ci_identity_verifiable {
        Some((TrustedPublishingReadinessStatus::Blocked, blocked_text(
            "trusted publishing is not supported for "@ + f.registry@ + " from "@ + f.provider_label@
                + "; set `publish.trusted_publishing = false` to opt out. "@ + f.capability_message@,
            f.setup_url@,
        )))
    } else if !f.identity_in_env {
        Some((TrustedPublishingReadinessStatus::Blocked, blocked_text(
            "trusted publishing publish-time environment is incomplete; built-in release publishing would be rejected. "@
                + f.capability_message@,
            f.setup_url@,
        )))
    } else {
        match f.trust_context {
            Ok(workflow) => if f.workflow_exists {
                None
            } else {
                Some((TrustedPublishingReadinessStatus::Blocked, blocked_text(
                    "trusted publishing workflow `"@ + workflow@ + "` does not exist at "@ + f.workflow_path@
                        + "; fix `publish.trusted_publishing.workflow`"@,
                    f.setup_url@,
                )))
            },
            Err(e) => Some((TrustedPublishingReadinessStatus::Blocked, blocked_text(
                "trusted publishing setup is incomplete: "@ + e@ + ". "@ + f.capability_message@,
                f.setup_url@,
            ))),
        }
    }
}

/// Decides whether the project side blocks trusted publishing of a package.
pub fn project_side_blocker(f: &ProjectTrustFacts) -> (r: Option<TrustedPublishingReadiness>)
    ensures
        decision_view(r) == project_decision(*f),
{
    if f.provider_unknown {
        let mut m = String::new();
        push_str(&mut m, "trusted publishing identity could not be verified in this environment; built-in release publishing must run from the configured CI workflow. ");
        push_str(&mut m, f.capability_message.as_str());
        return Some(TrustedPublishingReadiness {
            status: TrustedPublishingReadinessStatus::ManualVerificationRequired,
            message: m,
        });
    }
    if !f.trusted_publishing_supported || !f.ci_identity_verifiable {
        let mut reason = String::new();
        push_str(&mut reason, "trusted publishing is not supported for ");
        push_str(&mut reason, f.registry.as_str());
        push_str(&mut reason, " from ");
        push_str(&mut reason, f.provider_label.as_str());
        push_str(&mut reason, "; set `publish.trusted_publishing = false` to opt out. ");
        push_str(&mut reason, f.capability_message.as_str());
        return Some(blocked_trust_readiness(reason.as_str(), f.setup_url.as_str()));
    }
    if !f.identity_in_env {
        let mut reason = String::new();
        push_str(&mut reason, "trusted publishing publish-time environment is incomplete; built-in release publishing would be rejected. ");
        push_str(&mut reason, f.capability_message.as_str());
        return Some(blocked_trust_readiness(reason.as_str(), f.setup_url.as_str()));
    }
    match &f.trust_context {
        Ok(workflow) => {
            if f.workflow_exists {
                None
            } else {
                let mut reason = String::new();
                push_str(&mut reason, "trusted publishing workflow `");
                push_str(&mut reason, workflow.as_str());
                push_str(&mut reason, "` does not exist at ");
                push_str(&mut reason, f.workflow_path.as_str());
                push_str(&mut reason, "; fix `publish.trusted_publishing.workflow`");
                Some(blocked_trust_readiness(reason.as_str(), f.setup_url.as_str()))
            }
        },
        Err(e) => {
            let mut reason = String::new();
            push_str(&mut reason, "trusted publishing setup is incomplete: ");
            push_str(&mut reason, e.as_str());
            push_str(&mut reason, ". ");
            push_str(&mut reason, f.capability_message.as_str());
            Some(blocked_trust_readiness(reason.as_str(), f.setup_url.as_str()))
        },
    }
}

/// The message of a package whose trusted publishing is turned off.
pub open spec fn disabled_text() -> Seq<char> {
    "trusted publishing is disabled; publishing will use registry tokens"@
}

/// The blocked message of the project-side check, used before a publish run:
/// nothing when trusted publishing is off or the project side does not block.
pub fn trusted_publishing_project_blocker_message(enabled: bool, f: &ProjectTrustFacts) -> (r: Option<String>)
    ensures
        !enabled ==> r is None,
        enabled ==> (match project_decision(*f) {
            Some((TrustedPublishingReadinessStatus::Blocked, m)) => r matches Some(x) && x@ == m,
            _ => r is None,
        }),
{
    if !enabled {
        return None;
    }
    match project_side_blocker(f) {
        Some(v) => {
            match v.status {
                TrustedPublishingReadinessStatus::Blocked => Some(v.message),
                _ => None,
            }
        },
        None => None,
    }
}

/// The whole trusted-publishing decision of a package: disabled when trusted
/// publishing is off; otherwise the project-side decision when there is one;
/// otherwise manual verification when no registry client could be made
/// (`client` holds its error), or the registry-side decision.
pub fn check_trusted_publishing_readiness(
    enabled: bool,
    facts: &ProjectTrustFacts,
    package_name: &str,
    client: Result<RegistryProbe, String>,
) -> (r: TrustedPublishingReadiness)
    ensures
        !enabled ==> r.status == TrustedPublishingReadinessStatus::Disabled && r.message@ == disabled_text(),
        enabled && project_decision(*facts) is Some ==> Some((r.status, r.message@)) == project_decision(*facts),
        enabled && project_decision(*facts) is None ==> (match client {
            Err(e) => r.status == TrustedPublishingReadinessStatus::ManualVerificationRequired
                && r.message@ == manual_text("trusted publishing registry state could not be checked"@, e@, facts.setup_url@),
            Ok(probe) => registry_decision_matches(r, package_name@, facts.registry@, facts.setup_url@, probe),
        }),
{
    if !enabled {
        return TrustedPublishingReadiness {
            status: TrustedPublishingReadinessStatus::Disabled,
            message: "trusted publishing is disabled; publishing will use registry tokens".to_string(),
        };
    }
    match project_side_blocker(facts) {
        Some(v) => v,
        None => match client {
            Err(e) => manual_verification_readiness(
                "trusted publishing registry state could not be checked",
                e.as_str(),
                facts.setup_url.as_str(),
            ),
            Ok(probe) => registry_side_readiness(package_name, facts.registry.as_str(), facts.setup_url.as_str(), probe),
        },
    }
}

} // verus!
