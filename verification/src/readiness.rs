use vstd::prelude::*;

use crate::error::MonochangeError;
use crate::model::{ecosystem_debug_name, ecosystem_rank, Ecosystem};
use crate::text::{decimal, lex_less, lex_lt, lemma_lex_asymmetric, lemma_lex_irreflexive, lemma_lex_total, lemma_lex_transitive, push_char, push_str, str_eq};

verus! {

broadcast use vstd::string::group_string_axioms;

/// Whether a whole release is ready to publish.
#[derive(Clone, Copy, Debug, PartialEq, Eq, Structural)]
pub enum PublishReadinessGlobalStatus {
    Ready,
    Blocked,
}

/// Whether one package publication is ready.
#[derive(Clone, Copy, Debug, PartialEq, Eq, Structural)]
pub enum PublishReadinessPackageStatus {
    Ready,
    AlreadyPublished,
    Unsupported,
    Blocked,
}

/// What trusted-publishing checks concluded for one package.
#[derive(Clone, Copy, Debug, PartialEq, Eq, Structural)]
pub enum TrustedPublishingReadinessStatus {
    Disabled,
    Verified,
    ManualVerificationRequired,
    Blocked,
}

/// The outcome of a dry-run publish for one package.
#[derive(Clone, Copy, Debug, PartialEq, Eq, Structural)]
pub enum PackagePublishStatus {
    Planned,
    Published,
    SkippedExisting,
    SkippedExternal,
    Blocked,
    Failed,
}

/// A trusted-publishing decision with its explanation.
#[derive(Clone, Debug)]
pub struct TrustedPublishingReadiness {
    pub status: TrustedPublishingReadinessStatus,
    pub message: String,
}

/// The readiness of one package publication.
#[derive(Clone, Debug)]
pub struct PublishReadinessPackage {
    pub package: String,
    pub ecosystem: Ecosystem,
    pub registry: String,
    pub version: String,
    pub status: PublishReadinessPackageStatus,
    pub message: String,
    pub trusted_publishing: Option<TrustedPublishingReadiness>,
}

/// A finding about the order in which packages publish.
#[derive(Clone, Debug)]
pub struct PublishOrderFinding {
    pub package: Option<String>,
    pub message: String,
    pub blocking: bool,
}

/// The publish-readiness report and artifact.
#[derive(Clone, Debug)]
pub struct PublishReadinessReport {
    pub schema_version: u64,
    pub kind: String,
    pub status: PublishReadinessGlobalStatus,
    pub from: String,
    pub resolved_commit: String,
    pub record_commit: String,
    pub package_set_fingerprint: String,
    pub input_fingerprint: String,
    pub packages: Vec<PublishReadinessPackage>,
    pub publish_order: Vec<String>,
    pub order_findings: Vec<PublishOrderFinding>,
}

/// The artifact kind a readiness report declares.
pub open spec fn readiness_kind() -> Seq<char> {
    "monochange.publishReadiness"@
}

/// The schema version of readiness reports.
pub open spec fn readiness_schema_version() -> u64 {
    3
}

/// The schema version used when an artifact omits it.
pub fn publish_readiness_schema_version() -> (r: u64)
    ensures
        r == readiness_schema_version(),
{
    3
}

/// The kind used when an artifact omits it.
pub fn default_publish_readiness_kind() -> (r: String)
    ensures
        r@ == readiness_kind(),
{
    "monochange.publishReadiness".to_string()
}

/// The input fingerprint used when an artifact omits it: empty.
pub fn default_publish_readiness_input_fingerprint() -> (r: String)
    ensures
        r@ == Seq::<char>::empty(),
{
    String::new()
}

/// The readiness status that a dry-run publish outcome implies.
pub open spec fn readiness_from_publish(status: PackagePublishStatus) -> PublishReadinessPackageStatus {
    match status {
        PackagePublishStatus::Planned | PackagePublishStatus::Published => PublishReadinessPackageStatus::Ready,
        PackagePublishStatus::SkippedExisting => PublishReadinessPackageStatus::AlreadyPublished,
        PackagePublishStatus::SkippedExternal => PublishReadinessPackageStatus::Unsupported,
        PackagePublishStatus::Blocked | PackagePublishStatus::Failed => PublishReadinessPackageStatus::Blocked,
    }
}

/// Maps a dry-run publish outcome to a readiness status.
pub fn readiness_status_from_publish_status(status: PackagePublishStatus) -> (r: PublishReadinessPackageStatus)
    ensures
        r == readiness_from_publish(status),
{
    match status {
        PackagePublishStatus::Planned | PackagePublishStatus::Published => PublishReadinessPackageStatus::Ready,
        PackagePublishStatus::SkippedExisting => PublishReadinessPackageStatus::AlreadyPublished,
        PackagePublishStatus::SkippedExternal => PublishReadinessPackageStatus::Unsupported,
        PackagePublishStatus::Blocked | PackagePublishStatus::Failed => PublishReadinessPackageStatus::Blocked,
    }
}

/// The label of a global status.
pub fn readiness_global_status_label(status: PublishReadinessGlobalStatus) -> (r: &'static str)
    ensures
        r@ == (match status {
            PublishReadinessGlobalStatus::Ready => "ready"@,
            PublishReadinessGlobalStatus::Blocked => "blocked"@,
        }),
{
    match status {
        PublishReadinessGlobalStatus::Ready => "ready",
        PublishReadinessGlobalStatus::Blocked => "blocked",
    }
}

/// The label of a package status.
pub open spec fn package_status_label(status: PublishReadinessPackageStatus) -> Seq<char> {
    match status {
        PublishReadinessPackageStatus::Ready => "ready"@,
        PublishReadinessPackageStatus::AlreadyPublished => "already_published"@,
        PublishReadinessPackageStatus::Unsupported => "unsupported"@,
        PublishReadinessPackageStatus::Blocked => "blocked"@,
    }
}

/// The label of a package status.
pub fn readiness_package_status_label(status: PublishReadinessPackageStatus) -> (r: &'static str)
    ensures
        r@ == package_status_label(status),
{
    match status {
        PublishReadinessPackageStatus::Ready => "ready",
        PublishReadinessPackageStatus::AlreadyPublished => "already_published",
        PublishReadinessPackageStatus::Unsupported => "unsupported",
        PublishReadinessPackageStatus::Blocked => "blocked",
    }
}

/// The label of a trusted-publishing status.
pub open spec fn trust_status_label(status: TrustedPublishingReadinessStatus) -> Seq<char> {
    match status {
        TrustedPublishingReadinessStatus::Disabled => "disabled"@,
        TrustedPublishingReadinessStatus::Verified => "verified"@,
        TrustedPublishingReadinessStatus::ManualVerificationRequired => "manual_verification_required"@,
        TrustedPublishingReadinessStatus::Blocked => "blocked"@,
    }
}

/// The label of a trusted-publishing status.
pub fn trust_readiness_status_label(status: TrustedPublishingReadinessStatus) -> (r: &'static str)
    ensures
        r@ == trust_status_label(status),
{
    match status {
        TrustedPublishingReadinessStatus::Disabled => "disabled",
        TrustedPublishingReadinessStatus::Verified => "verified",
        TrustedPublishingReadinessStatus::ManualVerificationRequired => "manual_verification_required",
        TrustedPublishingReadinessStatus::Blocked => "blocked",
    }
}

/// The key joining dry-run outcomes to publish requests: package id, registry and version.
pub fn publish_request_key(package_id: &str, registry: &str, version: &str) -> (r: (String, String, String))
    ensures
        r.0@ == package_id@,
        r.1@ == registry@,
        r.2@ == version@,
{
    (package_id.to_string(), registry.to_string(), version.to_string())
}

/// The trusted-publishing decision used when no publish request matches an outcome.
pub fn disabled_trust_readiness_fallback() -> (r: TrustedPublishingReadiness)
    ensures
        r.status == TrustedPublishingReadinessStatus::Disabled,
        r.message@ == "trusted publishing could not be evaluated because the publish request was not found; publish runs verify trust settings separately"@,
{
    TrustedPublishingReadiness {
        status: TrustedPublishingReadinessStatus::Disabled,
        message: "trusted publishing could not be evaluated because the publish request was not found; publish runs verify trust settings separately".to_string(),
    }
}

/// A package row that keeps the release from being ready.
pub open spec fn row_blocks(p: PublishReadinessPackage) -> bool {
    p.status == PublishReadinessPackageStatus::Unsupported || p.status == PublishReadinessPackageStatus::Blocked
}

/// The report is blocked exactly when some package is unsupported or blocked.
pub open spec fn global_status(packages: Seq<PublishReadinessPackage>) -> PublishReadinessGlobalStatus {
    if exists|i: int| 0 <= i < packages.len() && #[trigger] row_blocks(packages[i]) {
        PublishReadinessGlobalStatus::Blocked
    } else {
        PublishReadinessGlobalStatus::Ready
    }
}

/// The report is blocked exactly when some package row is unsupported or
/// blocked, and ready exactly when every row is neither.
pub proof fn lemma_global_status_blocked_by_any_row(packages: Seq<PublishReadinessPackage>)
    ensures
        global_status(packages) == PublishReadinessGlobalStatus::Blocked <==> exists|i: int| 0 <= i < packages.len()
            && ((#[trigger] packages[i]).status == PublishReadinessPackageStatus::Unsupported
                || packages[i].status == PublishReadinessPackageStatus::Blocked),
        global_status(packages) == PublishReadinessGlobalStatus::Ready <==> forall|i: int| 0 <= i < packages.len()
            ==> (#[trigger] packages[i]).status != PublishReadinessPackageStatus::Unsupported
                && packages[i].status != PublishReadinessPackageStatus::Blocked,
{
    if exists|i: int| 0 <= i < packages.len()
        && ((#[trigger] packages[i]).status == PublishReadinessPackageStatus::Unsupported
            || packages[i].status == PublishReadinessPackageStatus::Blocked) {
        let w = choose|i: int| 0 <= i < packages.len()
            && ((#[trigger] packages[i]).status == PublishReadinessPackageStatus::Unsupported
                || packages[i].status == PublishReadinessPackageStatus::Blocked);
        assert(row_blocks(packages[w]));
    }
}

/// The global status of a report with these package rows.
pub fn report_global_status(packages: &[PublishReadinessPackage]) -> (r: PublishReadinessGlobalStatus)
    ensures
        r == global_status(packages@),
{
    let mut i: usize = 0;
    while i < packages.len()
        invariant
            i <= packages@.len(),
            forall|j: int| 0 <= j < i ==> !#[trigger] row_blocks(packages@[j]),
        decreases packages@.len() - i,
    {
        match packages[i].status {
            PublishReadinessPackageStatus::Unsupported | PublishReadinessPackageStatus::Blocked => {
                assert(row_blocks(packages@[i as int]));
                return PublishReadinessGlobalStatus::Blocked;
            },
            _ => {},
        }
        i = i + 1;
    }
    PublishReadinessGlobalStatus::Ready
}

} // verus!
verus! {

/// What identifies a package publication: package, ecosystem (by its place in
/// the declared order), registry and version.
pub type Identity = (Seq<char>, nat, Seq<char>, Seq<char>);

/// The identity of a readiness row.
pub open spec fn identity_of(p: PublishReadinessPackage) -> Identity {
    (p.package@, ecosystem_rank(p.ecosystem), p.registry@, p.version@)
}

/// The identities of readiness rows, in row order.
pub open spec fn identities_of(ps: Seq<PublishReadinessPackage>) -> Seq<Identity> {
    ps.map_values(|p: PublishReadinessPackage| identity_of(p))
}

/// The order of identities: by package, then ecosystem, registry and version.
pub open spec fn identity_lt(x: Identity, y: Identity) -> bool {
    lex_lt(x.0, y.0) || (x.0 == y.0 && (x.1 < y.1 || (x.1 == y.1 && (lex_lt(x.2, y.2) || (x.2
        == y.2 && lex_lt(x.3, y.3))))))
}

pub proof fn lemma_identity_order(x: Identity, y: Identity, z: Identity)
    ensures
        !identity_lt(x, x),
        identity_lt(x, y) ==> !identity_lt(y, x),
        x == y || identity_lt(x, y) || identity_lt(y, x),
        identity_lt(x, y) && identity_lt(y, z) ==> identity_lt(x, z),
{
    lemma_lex_irreflexive(x.0);
    lemma_lex_irreflexive(x.2);
    lemma_lex_irreflexive(x.3);
    lemma_lex_asymmetric(x.0, y.0);
    lemma_lex_asymmetric(x.2, y.2);
    lemma_lex_asymmetric(x.3, y.3);
    lemma_lex_total(x.0, y.0);
    lemma_lex_total(x.2, y.2);
    lemma_lex_total(x.3, y.3);
    if identity_lt(x, y) && identity_lt(y, z) {
        if lex_lt(x.0, y.0) && lex_lt(y.0, z.0) {
            lemma_lex_transitive(x.0, y.0, z.0);
        }
        if x.0 == y.0 && y.0 == z.0 && x.1 == y.1 && y.1 == z.1 {
            if lex_lt(x.2, y.2) && lex_lt(y.2, z.2) {
                lemma_lex_transitive(x.2, y.2, z.2);
            }
            if x.2 == y.2 && y.2 == z.2 && lex_lt(x.3, y.3) && lex_lt(y.3, z.3) {
                lemma_lex_transitive(x.3, y.3, z.3);
            }
        }
    }
}

/// Strictly ascending: no repeats, each entry before the next.
pub open spec fn strictly_sorted(s: Seq<Identity>) -> bool {
    forall|i: int, j: int| 0 <= i < j < s.len() ==> identity_lt(#[trigger] s[i], #[trigger] s[j])
}

/// How many leading entries of `sorted` come before `x`.
pub open spec fn count_below(sorted: Seq<Identity>, x: Identity) -> nat
    decreases sorted.len(),
{
    if sorted.len() > 0 && identity_lt(sorted[0], x) {
        1 + count_below(sorted.drop_first(), x)
    } else {
        0
    }
}

/// `sorted` with `x` added at its place, unless it is already there.
pub open spec fn insert_unique(sorted: Seq<Identity>, x: Identity) -> Seq<Identity> {
    let k = count_below(sorted, x);
    if k < sorted.len() && sorted[k as int] == x {
        sorted
    } else {
        sorted.insert(k as int, x)
    }
}

/// The distinct identities of `ids` in ascending order.
pub open spec fn sorted_unique(ids: Seq<Identity>) -> Seq<Identity>
    decreases ids.len(),
{
    if ids.len() == 0 {
        ids
    } else {
        insert_unique(sorted_unique(ids.drop_last()), ids.last())
    }
}

pub proof fn lemma_count_below(sorted: Seq<Identity>, x: Identity)
    requires
        strictly_sorted(sorted),
    ensures
        count_below(sorted, x) <= sorted.len(),
        forall|j: int| 0 <= j < count_below(sorted, x) ==> identity_lt(#[trigger] sorted[j], x),
        forall|j: int| count_below(sorted, x) <= j < sorted.len() ==> !identity_lt(#[trigger] sorted[j], x),
    decreases sorted.len(),
{
    if sorted.len() > 0 && identity_lt(sorted[0], x) {
        let rest = sorted.drop_first();
        assert(strictly_sorted(rest)) by {
            assert forall|i: int, j: int| 0 <= i < j < rest.len() implies identity_lt(#[trigger] rest[i], #[trigger] rest[j]) by {
                assert(rest[i] == sorted[i + 1] && rest[j] == sorted[j + 1]);
            }
        }
        lemma_count_below(rest, x);
        assert forall|j: int| 0 <= j < count_below(sorted, x) implies identity_lt(#[trigger] sorted[j], x) by {
            if j > 0 {
                assert(sorted[j] == rest[j - 1]);
            }
        }
        assert forall|j: int| count_below(sorted, x) <= j < sorted.len() implies !identity_lt(#[trigger] sorted[j], x) by {
            assert(sorted[j] == rest[j - 1]);
        }
    } else if sorted.len() > 0 {
        assert forall|j: int| 0 <= j < sorted.len() implies !identity_lt(#[trigger] sorted[j], x) by {
            if j > 0 && identity_lt(sorted[j], x) {
                assert(identity_lt(sorted[0], sorted[j]));
                lemma_identity_order(sorted[0], sorted[j], x);
            }
        }
    }
}

pub proof fn lemma_insert_unique(sorted: Seq<Identity>, x: Identity)
    requires
        strictly_sorted(sorted),
    ensures
        strictly_sorted(insert_unique(sorted, x)),
        insert_unique(sorted, x).to_set() == sorted.to_set().insert(x),
        sorted.contains(x) <==> (count_below(sorted, x) < sorted.len() && sorted[count_below(sorted, x) as int] == x),
{
    let k = count_below(sorted, x) as int;
    lemma_count_below(sorted, x);
    if sorted.contains(x) {
        let j = choose|j: int| 0 <= j < sorted.len() && sorted[j] == x;
        lemma_identity_order(x, x, x);
        if j != k {
            if j < k {
                assert(identity_lt(sorted[j], x));
            } else {
                assert(identity_lt(sorted[k], sorted[j]));
                lemma_identity_order(sorted[k], x, x);
            }
        }
    }
    if k < sorted.len() && sorted[k] == x {
        assert(sorted.to_set().insert(x) =~= sorted.to_set());
    } else {
        let r = sorted.insert(k, x);
        assert forall|i: int, j: int| 0 <= i < j < r.len() implies identity_lt(#[trigger] r[i], #[trigger] r[j]) by {
            if i < k && j == k {
            } else if i == k && j > k {
                let y = sorted[j - 1];
                lemma_identity_order(x, y, y);
                assert(!identity_lt(y, x));
            } else if i < k && j > k {
                assert(r[i] == sorted[i] && r[j] == sorted[j - 1]);
            } else if j < k {
            } else {
                assert(r[i] == sorted[i - 1] && r[j] == sorted[j - 1]);
            }
        }
        assert forall|y: Identity| r.to_set().contains(y) <==> sorted.to_set().insert(x).contains(y) by {
            if r.contains(y) {
                let i = choose|i: int| 0 <= i < r.len() && r[i] == y;
                if i < k {
                    assert(sorted[i] == y);
                } else if i > k {
                    assert(sorted[i - 1] == y);
                }
            }
            if sorted.contains(y) {
                let i = choose|i: int| 0 <= i < sorted.len() && sorted[i] == y;
                if i < k {
                    assert(r[i] == y);
                } else {
                    assert(r[i + 1] == y);
                }
            }
            if y == x {
                assert(r[k] == x);
            }
        }
        assert(r.to_set() =~= sorted.to_set().insert(x));
    }
}

pub proof fn lemma_sorted_unique(ids: Seq<Identity>)
    ensures
        strictly_sorted(sorted_unique(ids)),
        sorted_unique(ids).to_set() == ids.to_set(),
    decreases ids.len(),
{
    if ids.len() == 0 {
        assert(ids.to_set() =~= Set::<Identity>::empty());
        assert(sorted_unique(ids).to_set() =~= Set::<Identity>::empty());
    } else {
        lemma_sorted_unique(ids.drop_last());
        lemma_insert_unique(sorted_unique(ids.drop_last()), ids.last());
        assert(ids =~= ids.drop_last().push(ids.last()));
        assert(ids.to_set() =~= ids.drop_last().to_set().insert(ids.last())) by {
            assert forall|y: Identity| ids.to_set().contains(y) <==> ids.drop_last().to_set().insert(ids.last()).contains(y) by {
                if ids.contains(y) {
                    let i = choose|i: int| 0 <= i < ids.len() && ids[i] == y;
                    if i < ids.len() - 1 {
                        assert(ids.drop_last()[i] == y);
                    }
                }
                if ids.drop_last().contains(y) {
                    let i = choose|i: int| 0 <= i < ids.drop_last().len() && ids.drop_last()[i] == y;
                    assert(ids[i] == y);
                }
            }
        }
    }
}

} // verus!
verus! {

/// The `Debug` name of the ecosystem at a place in the declared order.
pub open spec fn ecosystem_name_by_rank(rank: nat) -> Seq<char> {
    if rank == 0 { "Cargo"@ } else if rank == 1 { "Npm"@ } else if rank == 2 { "Deno"@ }
    else if rank == 3 { "Dart"@ } else if rank == 4 { "Python"@ } else { "Go"@ }
}

/// `package Ecosystem registry version`.
pub open spec fn render_identity(x: Identity) -> Seq<char> {
    x.0 + seq![' '] + ecosystem_name_by_rank(x.1) + seq![' '] + x.2 + seq![' '] + x.3
}

/// An owned package identity.
#[derive(Clone, Debug)]
pub struct PackageIdentity {
    pub package: String,
    pub ecosystem: Ecosystem,
    pub registry: String,
    pub version: String,
}

/// The identity a `PackageIdentity` holds.
pub open spec fn pid_view(p: PackageIdentity) -> Identity {
    (p.package@, ecosystem_rank(p.ecosystem), p.registry@, p.version@)
}

/// The identities a list of `PackageIdentity` holds.
pub open spec fn pid_views(s: Seq<PackageIdentity>) -> Seq<Identity> {
    s.map_values(|p: PackageIdentity| pid_view(p))
}

/// The identity of a readiness row.
pub fn package_identity(package: &PublishReadinessPackage) -> (r: PackageIdentity)
    ensures
        pid_view(r) == identity_of(*package),
{
    PackageIdentity {
        package: package.package.clone(),
        ecosystem: package.ecosystem,
        registry: package.registry.clone(),
        version: package.version.clone(),
    }
}

fn identity_less(a: &PackageIdentity, b: &PackageIdentity) -> (r: bool)
    ensures
        r == identity_lt(pid_view(*a), pid_view(*b)),
{
    if lex_less(a.package.as_str(), b.package.as_str()) {
        return true;
    }
    if !str_eq(a.package.as_str(), b.package.as_str()) {
        return false;
    }
    let ra = a.ecosystem.rank();
    let rb = b.ecosystem.rank();
    if ra != rb {
        return ra < rb;
    }
    if lex_less(a.registry.as_str(), b.registry.as_str()) {
        return true;
    }
    if !str_eq(a.registry.as_str(), b.registry.as_str()) {
        return false;
    }
    lex_less(a.version.as_str(), b.version.as_str())
}

fn identity_same(a: &PackageIdentity, b: &PackageIdentity) -> (r: bool)
    ensures
        r == (pid_view(*a) == pid_view(*b)),
{
    str_eq(a.package.as_str(), b.package.as_str()) && a.ecosystem.rank() == b.ecosystem.rank()
        && str_eq(a.registry.as_str(), b.registry.as_str()) && str_eq(a.version.as_str(), b.version.as_str())
}

/// Renders `package Ecosystem registry version`.
pub fn render_package_identity(identity: &PackageIdentity) -> (r: String)
    ensures
        r@ == render_identity(pid_view(*identity)),
{
    let mut out = String::new();
    push_str(&mut out, identity.package.as_str());
    push_char(&mut out, ' ');
    push_str(&mut out, identity.ecosystem.debug_name());
    push_char(&mut out, ' ');
    push_str(&mut out, identity.registry.as_str());
    push_char(&mut out, ' ');
    push_str(&mut out, identity.version.as_str());
    assert(ecosystem_debug_name(identity.ecosystem) == ecosystem_name_by_rank(ecosystem_rank(identity.ecosystem)));
    assert(out@ =~= render_identity(pid_view(*identity)));
    out
}

/// Adds `x` to the ascending list `sorted` unless it is already there; reports whether it was added.
fn insert_identity(sorted: &mut Vec<PackageIdentity>, x: PackageIdentity) -> (added: bool)
    requires
        strictly_sorted(pid_views(old(sorted)@)),
    ensures
        pid_views(final(sorted)@) == insert_unique(pid_views(old(sorted)@), pid_view(x)),
        added == !pid_views(old(sorted)@).contains(pid_view(x)),
{
    let ghost before = pid_views(sorted@);
    proof {
        lemma_count_below(before, pid_view(x));
        lemma_insert_unique(before, pid_view(x));
    }
    let mut k: usize = 0;
    assert(before.skip(0) =~= before);
    while k < sorted.len() && identity_less(&sorted[k], &x)
        invariant
            k <= sorted@.len(),
            before == pid_views(sorted@),
            count_below(before, pid_view(x)) == k + count_below(before.skip(k as int), pid_view(x)),
        decreases sorted@.len() - k,
    {
        assert(before.skip(k as int).drop_first() =~= before.skip(k + 1));
        k = k + 1;
    }
    if k < sorted.len() {
        assert(before.skip(k as int)[0] == before[k as int]);
    }
    if k < sorted.len() && identity_same(&sorted[k], &x) {
        return false;
    }
    sorted.insert(k, x);
    assert(pid_views(sorted@) =~= before.insert(k as int, pid_view(x)));
    true
}

/// Index of the first identity that repeats an earlier one.
pub open spec fn first_repeat(ids: Seq<Identity>) -> Option<int>
    decreases ids.len(),
{
    if ids.len() == 0 {
        None
    } else {
        match first_repeat(ids.drop_last()) {
            Some(j) => Some(j),
            None => if ids.drop_last().contains(ids.last()) {
                Some(ids.len() - 1)
            } else {
                None
            },
        }
    }
}

pub proof fn lemma_first_repeat_extends(ids: Seq<Identity>, n: int)
    requires
        0 <= n <= ids.len(),
        first_repeat(ids.take(n)) is Some,
    ensures
        first_repeat(ids) == first_repeat(ids.take(n)),
    decreases ids.len() - n,
{
    if n < ids.len() {
        assert(ids.take(n + 1).drop_last() =~= ids.take(n));
        lemma_first_repeat_extends(ids, n + 1);
    } else {
        assert(ids.take(n) =~= ids);
    }
}

pub proof fn lemma_first_repeat_none_extends(ids: Seq<Identity>)
    requires
        first_repeat(ids) is None,
    ensures
        forall|i: int, j: int| 0 <= i < j < ids.len() ==> ids[i] != ids[j],
    decreases ids.len(),
{
    if ids.len() > 0 {
        lemma_first_repeat_none_extends(ids.drop_last());
        assert forall|i: int, j: int| 0 <= i < j < ids.len() implies ids[i] != ids[j] by {
            if j == ids.len() - 1 {
                if ids[i] == ids[j] {
                    assert(ids.drop_last()[i] == ids.last());
                }
            } else {
                assert(ids.drop_last()[i] == ids[i] && ids.drop_last()[j] == ids[j]);
            }
        }
    }
}

/// The message reporting a repeated package entry.
pub open spec fn duplicate_entry_message(x: Identity) -> Seq<char> {
    "publish readiness artifact contains duplicate package entry "@ + render_identity(x)
}

/// The identities of the rows in ascending order, or the error naming the
/// first row that repeats an earlier identity.
pub fn package_identities(packages: &[PublishReadinessPackage]) -> (r: Result<Vec<PackageIdentity>, MonochangeError>)
    ensures
        match first_repeat(identities_of(packages@)) {
            None => r matches Ok(v) && pid_views(v@) == sorted_unique(identities_of(packages@)),
            Some(j) => r matches Err(MonochangeError::Config(m)) && m@ == duplicate_entry_message(
                identities_of(packages@)[j],
            ),
        },
{
    let ghost ids = identities_of(packages@);
    let mut sorted: Vec<PackageIdentity> = Vec::new();
    let mut i: usize = 0;
    while i < packages.len()
        invariant
            i <= packages@.len(),
            ids == identities_of(packages@),
            pid_views(sorted@) == sorted_unique(ids.take(i as int)),
            first_repeat(ids.take(i as int)) is None,
        decreases packages@.len() - i,
    {
        proof {
            lemma_sorted_unique(ids.take(i as int));
            assert(ids.take(i + 1).drop_last() =~= ids.take(i as int));
            assert(ids.take(i + 1).last() == ids[i as int]);
        }
        let identity = package_identity(&packages[i]);
        let rendered = render_package_identity(&identity);
        let added = insert_identity(&mut sorted, identity);
        if !added {
            proof {
                assert(ids.take(i as int).to_set().contains(ids[i as int]));
                assert(first_repeat(ids.take(i + 1)) == Some(i as int));
                lemma_first_repeat_extends(ids, i + 1);
            }
            let mut message = String::new();
            push_str(&mut message, "publish readiness artifact contains duplicate package entry ");
            push_str(&mut message, rendered.as_str());
            assert(message@ =~= duplicate_entry_message(ids[i as int]));
            return Err(MonochangeError::Config(message));
        }
        proof {
            assert(!ids.take(i as int).to_set().contains(ids[i as int]));
        }
        i = i + 1;
    }
    assert(ids.take(packages@.len() as int) =~= ids);
    Ok(sorted)
}

} // verus!
verus! {

/// The entries of `xs` joined by `sep`.
pub open spec fn join(xs: Seq<Seq<char>>, sep: Seq<char>) -> Seq<char>
    decreases xs.len(),
{
    if xs.len() == 0 {
        Seq::empty()
    } else if xs.len() == 1 {
        xs[0]
    } else {
        join(xs.drop_last(), sep) + sep + xs.last()
    }
}

/// The rendered identities.
pub open spec fn rendered_identities(ids: Seq<Identity>) -> Seq<Seq<char>> {
    ids.map_values(|x: Identity| render_identity(x))
}

/// The package-set fingerprint: the distinct identities in ascending order, one per line.
pub open spec fn set_fingerprint(ids: Seq<Identity>) -> Seq<char> {
    join(rendered_identities(sorted_unique(ids)), seq!['\n'])
}

/// Two strictly ascending sequences with the same entries are equal.
pub proof fn lemma_strictly_sorted_determined(s: Seq<Identity>, t: Seq<Identity>)
    requires
        strictly_sorted(s),
        strictly_sorted(t),
        s.to_set() == t.to_set(),
    ensures
        s == t,
    decreases s.len(),
{
    if s.len() == 0 {
        if t.len() > 0 {
            assert(t.to_set().contains(t[0]));
        }
        assert(s =~= t);
    } else {
        assert(s.to_set().contains(s[0]));
        assert(t.contains(s[0]));
        let j = choose|j: int| 0 <= j < t.len() && t[j] == s[0];
        assert(t.to_set().contains(t[0]));
        assert(s.contains(t[0]));
        let i = choose|i: int| 0 <= i < s.len() && s[i] == t[0];
        lemma_identity_order(s[0], s[i], s[0]);
        lemma_identity_order(t[0], t[j], t[0]);
        if j > 0 {
            assert(identity_lt(t[0], t[j]));
            if i > 0 {
                assert(identity_lt(s[0], s[i]));
            }
        }
        assert(j == 0);
        let s1 = s.drop_first();
        let t1 = t.drop_first();
        assert(strictly_sorted(s1)) by {
            assert forall|a: int, b: int| 0 <= a < b < s1.len() implies identity_lt(#[trigger] s1[a], #[trigger] s1[b]) by {
                assert(s1[a] == s[a + 1] && s1[b] == s[b + 1]);
            }
        }
        assert(strictly_sorted(t1)) by {
            assert forall|a: int, b: int| 0 <= a < b < t1.len() implies identity_lt(#[trigger] t1[a], #[trigger] t1[b]) by {
                assert(t1[a] == t[a + 1] && t1[b] == t[b + 1]);
            }
        }
        assert forall|y: Identity| s1.to_set().contains(y) <==> t1.to_set().contains(y) by {
            if s1.contains(y) {
                let a = choose|a: int| 0 <= a < s1.len() && s1[a] == y;
                assert(s[a + 1] == y);
                assert(identity_lt(s[0], s[a + 1]));
                lemma_identity_order(s[0], y, y);
                assert(s.to_set().contains(y));
                assert(t.contains(y));
                let m = choose|m: int| 0 <= m < t.len() && t[m] == y;
                assert(m != 0);
                assert(t1[m - 1] == y);
            }
            if t1.contains(y) {
                let a = choose|a: int| 0 <= a < t1.len() && t1[a] == y;
                assert(t[a + 1] == y);
                assert(identity_lt(t[0], t[a + 1]));
                lemma_identity_order(t[0], y, y);
                assert(t.to_set().contains(y));
                assert(s.contains(y));
                let m = choose|m: int| 0 <= m < s.len() && s[m] == y;
                assert(m != 0);
                assert(s1[m - 1] == y);
            }
        }
        assert(s1.to_set() =~= t1.to_set());
        lemma_strictly_sorted_determined(s1, t1);
        assert(s =~= seq![s[0]] + s1);
        assert(t =~= seq![t[0]] + t1);
    }
}

/// The package-set fingerprint depends only on which identities the rows
/// have: rows in another order, or repeated, give the same fingerprint.
pub proof fn lemma_set_fingerprint_ignores_row_order(a: Seq<PublishReadinessPackage>, b: Seq<PublishReadinessPackage>)
    requires
        identities_of(a).to_set() == identities_of(b).to_set(),
    ensures
        set_fingerprint(identities_of(a)) == set_fingerprint(identities_of(b)),
{
    lemma_sorted_unique(identities_of(a));
    lemma_sorted_unique(identities_of(b));
    lemma_strictly_sorted_determined(sorted_unique(identities_of(a)), sorted_unique(identities_of(b)));
}

pub proof fn lemma_join_push(xs: Seq<Seq<char>>, x: Seq<char>, sep: Seq<char>)
    ensures
        join(xs.push(x), sep) == if xs.len() == 0 { x } else { join(xs, sep) + sep + x },
{
    assert(xs.push(x).drop_last() =~= xs);
}

/// Joins identity texts in order; `sep` goes between neighbours.
fn join_rendered(sorted: &[PackageIdentity], sep: &str) -> (r: String)
    ensures
        r@ == join(rendered_identities(pid_views(sorted@)), sep@),
{
    let ghost all = rendered_identities(pid_views(sorted@));
    let mut out = String::new();
    let mut i: usize = 0;
    while i < sorted.len()
        invariant
            i <= sorted@.len(),
            all == rendered_identities(pid_views(sorted@)),
            out@ == join(all.take(i as int), sep@),
        decreases sorted@.len() - i,
    {
        let rendered = render_package_identity(&sorted[i]);
        proof {
            lemma_join_push(all.take(i as int), all[i as int], sep@);
            assert(all.take(i + 1) =~= all.take(i as int).push(all[i as int]));
        }
        if i > 0 {
            push_str(&mut out, sep);
        }
        push_str(&mut out, rendered.as_str());
        i = i + 1;
    }
    assert(all.take(sorted@.len() as int) =~= all);
    out
}

/// The package-set fingerprint of a list of readiness rows.
pub fn package_set_fingerprint(packages: &[PublishReadinessPackage]) -> (r: String)
    ensures
        r@ == set_fingerprint(identities_of(packages@)),
{
    let ghost ids = identities_of(packages@);
    let mut sorted: Vec<PackageIdentity> = Vec::new();
    let mut i: usize = 0;
    while i < packages.len()
        invariant
            i <= packages@.len(),
            ids == identities_of(packages@),
            pid_views(sorted@) == sorted_unique(ids.take(i as int)),
        decreases packages@.len() - i,
    {
        proof {
            lemma_sorted_unique(ids.take(i as int));
            assert(ids.take(i + 1).drop_last() =~= ids.take(i as int));
        }
        let identity = package_identity(&packages[i]);
        let _ = insert_identity(&mut sorted, identity);
        i = i + 1;
    }
    assert(ids.take(packages@.len() as int) =~= ids);
    proof {
        reveal_strlit("\n");
        assert("\n"@ =~= seq!['\n']);
    }
    join_rendered(sorted.as_slice(), "\n")
}

/// The string views of a list.
pub open spec fn str_views(v: Seq<String>) -> Seq<Seq<char>> {
    v.map_values(|s: String| s@)
}

/// `none` for an empty list, otherwise the entries joined by `, `.
pub open spec fn identity_list_text(xs: Seq<Seq<char>>) -> Seq<char> {
    if xs.len() == 0 {
        "none"@
    } else {
        join(xs, ", "@)
    }
}

/// Renders a list of rendered identities for an error message.
pub fn render_package_identity_list(identities: &[String]) -> (r: String)
    ensures
        r@ == identity_list_text(str_views(identities@)),
{
    if identities.len() == 0 {
        return "none".to_string();
    }
    let ghost all = str_views(identities@);
    let mut out = String::new();
    let mut i: usize = 0;
    while i < identities.len()
        invariant
            i <= identities@.len(),
            all == str_views(identities@),
            out@ == join(all.take(i as int), ", "@),
        decreases identities@.len() - i,
    {
        proof {
            lemma_join_push(all.take(i as int), all[i as int], ", "@);
            assert(all.take(i + 1) =~= all.take(i as int).push(all[i as int]));
        }
        if i > 0 {
            push_str(&mut out, ", ");
        }
        push_str(&mut out, identities[i].as_str());
        i = i + 1;
    }
    assert(all.take(identities@.len() as int) =~= all);
    out
}

} // verus!
verus! {

/// The outcome a validation promises for a message: an error with exactly
/// that text, or success when there is none.
pub open spec fn config_outcome(r: Result<(), MonochangeError>, message: Option<Seq<char>>) -> bool {
    match message {
        Some(m) => r matches Err(MonochangeError::Config(x)) && x@ == m,
        None => r is Ok,
    }
}

/// Why an artifact's header is not accepted, if it is not.
pub open spec fn header_error(report: PublishReadinessReport) -> Option<Seq<char>> {
    if report.kind@ != readiness_kind() {
        Some("publish readiness artifact has kind `"@ + report.kind@ + "`, expected `monochange.publishReadiness`"@)
    } else if report.schema_version != readiness_schema_version() {
        Some("publish readiness artifact schema version "@ + decimal(report.schema_version as nat)
            + " is not supported; expected 3"@)
    } else {
        None
    }
}

/// Checks the artifact kind and schema version.
pub fn validate_readiness_artifact_header(report: &PublishReadinessReport) -> (r: Result<(), MonochangeError>)
    ensures
        config_outcome(r, header_error(*report)),
{
    if !str_eq(report.kind.as_str(), "monochange.publishReadiness") {
        let mut m = String::new();
        push_str(&mut m, "publish readiness artifact has kind `");
        push_str(&mut m, report.kind.as_str());
        push_str(&mut m, "`, expected `monochange.publishReadiness`");
        assert(m@ =~= "publish readiness artifact has kind `"@ + report.kind@ + "`, expected `monochange.publishReadiness`"@);
        return Err(MonochangeError::Config(m));
    }
    if report.schema_version != 3 {
        let mut m = String::new();
        push_str(&mut m, "publish readiness artifact schema version ");
        crate::text::push_decimal(&mut m, report.schema_version as u128);
        push_str(&mut m, " is not supported; expected 3");
        assert(m@ =~= "publish readiness artifact schema version "@ + decimal(report.schema_version as nat) + " is not supported; expected 3"@);
        return Err(MonochangeError::Config(m));
    }
    Ok(())
}

/// Why the artifact's release record does not match, if it does not.
pub open spec fn release_commit_error(artifact: PublishReadinessReport, current: PublishReadinessReport) -> Option<Seq<char>> {
    if artifact.record_commit@ == current.record_commit@ {
        None
    } else {
        Some("publish readiness artifact was generated for release record "@ + artifact.record_commit@
            + ", but `monochange step publish-packages` selected "@ + current.record_commit@
            + "; rerun `monochange step publish-readiness --from HEAD --output <PATH>`"@)
    }
}

/// Checks that the artifact was made for the release record being published.
pub fn validate_readiness_release_commit(artifact: &PublishReadinessReport, current: &PublishReadinessReport) -> (r: Result<(), MonochangeError>)
    ensures
        config_outcome(r, release_commit_error(*artifact, *current)),
{
    if str_eq(artifact.record_commit.as_str(), current.record_commit.as_str()) {
        return Ok(());
    }
    let mut m = String::new();
    push_str(&mut m, "publish readiness artifact was generated for release record ");
    push_str(&mut m, artifact.record_commit.as_str());
    push_str(&mut m, ", but `monochange step publish-packages` selected ");
    push_str(&mut m, current.record_commit.as_str());
    push_str(&mut m, "; rerun `monochange step publish-readiness --from HEAD --output <PATH>`");
    assert(m@ =~= "publish readiness artifact was generated for release record "@ + artifact.record_commit@
        + ", but `monochange step publish-packages` selected "@ + current.record_commit@
        + "; rerun `monochange step publish-readiness --from HEAD --output <PATH>`"@);
    Err(MonochangeError::Config(m))
}

/// The message for an artifact whose inputs changed since it was made.
pub open spec fn stale_inputs_message() -> Seq<char> {
    "publish readiness artifact inputs are stale; workspace config, manifests, lockfiles, or publish tooling inputs changed, so rerun `monochange step publish-readiness --from HEAD --output <PATH>`"@
}

/// Why the artifact's inputs no longer match, if they do not.
pub open spec fn input_fingerprint_error(artifact: PublishReadinessReport, current: PublishReadinessReport) -> Option<Seq<char>> {
    if artifact.input_fingerprint@ == current.input_fingerprint@ {
        None
    } else {
        Some(stale_inputs_message())
    }
}

/// Checks that the workspace inputs have not changed since the artifact was made.
pub fn validate_readiness_input_fingerprint(artifact: &PublishReadinessReport, current: &PublishReadinessReport) -> (r: Result<(), MonochangeError>)
    ensures
        config_outcome(r, input_fingerprint_error(*artifact, *current)),
{
    if str_eq(artifact.input_fingerprint.as_str(), current.input_fingerprint.as_str()) {
        return Ok(());
    }
    Err(MonochangeError::Config("publish readiness artifact inputs are stale; workspace config, manifests, lockfiles, or publish tooling inputs changed, so rerun `monochange step publish-readiness --from HEAD --output <PATH>`".to_string()))
}

/// The current identities the artifact does not cover, in ascending order.
pub open spec fn missing_identities(artifact: Seq<Identity>, current: Seq<Identity>) -> Seq<Identity> {
    sorted_unique(current).filter(|x: Identity| !artifact.contains(x))
}

/// Why the artifact's package list cannot stand for the current one, if it cannot.
pub open spec fn package_subset_error(artifact: PublishReadinessReport, current: PublishReadinessReport) -> Option<Seq<char>> {
    let a = identities_of(artifact.packages@);
    let c = identities_of(current.packages@);
    match first_repeat(a) {
        Some(j) => Some(duplicate_entry_message(a[j])),
        None => match first_repeat(c) {
            Some(j) => Some(duplicate_entry_message(c[j])),
            None => if artifact.package_set_fingerprint@ != set_fingerprint(a) {
                Some("publish readiness artifact package fingerprint does not match its package list"@)
            } else if missing_identities(a, c).len() == 0 {
                None
            } else {
                Some("publish readiness artifact does not cover selected packages: "@ + identity_list_text(
                    rendered_identities(missing_identities(a, c)),
                ))
            },
        },
    }
}

/// Checks that the artifact's packages are free of repeats, match their
/// fingerprint, and cover every current package.
pub fn validate_readiness_package_subset(artifact: &PublishReadinessReport, current: &PublishReadinessReport) -> (r: Result<(), MonochangeError>)
    ensures
        config_outcome(r, package_subset_error(*artifact, *current)),
{
    let ghost a = identities_of(artifact.packages@);
    let ghost c = identities_of(current.packages@);
    let artifact_ids = match package_identities(artifact.packages.as_slice()) {
        Ok(v) => v,
        Err(e) => return Err(e),
    };
    let current_ids = match package_identities(current.packages.as_slice()) {
        Ok(v) => v,
        Err(e) => return Err(e),
    };
    let fingerprint = package_set_fingerprint(artifact.packages.as_slice());
    if !str_eq(artifact.package_set_fingerprint.as_str(), fingerprint.as_str()) {
        return Err(MonochangeError::Config("publish readiness artifact package fingerprint does not match its package list".to_string()));
    }
    proof {
        lemma_sorted_unique(a);
    }
    let ghost cs = pid_views(current_ids@);
    let mut missing: Vec<String> = Vec::new();
    let mut i: usize = 0;
    while i < current_ids.len()
        invariant
            i <= current_ids@.len(),
            cs == pid_views(current_ids@),
            pid_views(artifact_ids@).to_set() == a.to_set(),
            str_views(missing@) == rendered_identities(cs.take(i as int).filter(|x: Identity| !a.contains(x))),
        decreases current_ids@.len() - i,
    {
        let ghost x = cs[i as int];
        let ghost av = pid_views(artifact_ids@);
        let mut found = false;
        let mut k: usize = 0;
        while k < artifact_ids.len()
            invariant
                i < current_ids@.len(),
                cs == pid_views(current_ids@),
                x == cs[i as int],
                av == pid_views(artifact_ids@),
                k <= artifact_ids@.len(),
                found == exists|j: int| 0 <= j < k && av[j] == x,
            decreases artifact_ids@.len() - k,
        {
            assert(av[k as int] == pid_view(artifact_ids@[k as int]));
            if identity_same(&artifact_ids[k], &current_ids[i]) {
                found = true;
            }
            k = k + 1;
        }
        proof {
            let x = cs[i as int];
            assert(found == pid_views(artifact_ids@).contains(x));
            assert(pid_views(artifact_ids@).contains(x) == a.to_set().contains(x));
            assert(cs.take(i + 1) =~= cs.take(i as int).push(x));
            reveal_with_fuel(Seq::<_>::filter, 1);
            assert(cs.take(i + 1).drop_last() =~= cs.take(i as int));
        }
        let ghost prev = str_views(missing@);
        if !found {
            let rendered = render_package_identity(&current_ids[i]);
            missing.push(rendered);
            assert(str_views(missing@) =~= prev.push(render_identity(x)));
        } else {
            assert(str_views(missing@) =~= prev);
        }
        proof {
            let x = cs[i as int];
            let f = cs.take(i as int).filter(|y: Identity| !a.contains(y));
            if !found {
                assert(cs.take(i + 1).filter(|y: Identity| !a.contains(y)) =~= f.push(x));
                assert(rendered_identities(f.push(x)) =~= rendered_identities(f).push(render_identity(x)));
            } else {
                assert(cs.take(i + 1).filter(|y: Identity| !a.contains(y)) =~= f);
            }
        }
        i = i + 1;
    }
    assert(cs.take(current_ids@.len() as int) =~= cs);
    if missing.len() == 0 {
        return Ok(());
    }
    let list = render_package_identity_list(missing.as_slice());
    let mut m = String::new();
    push_str(&mut m, "publish readiness artifact does not cover selected packages: ");
    push_str(&mut m, list.as_str());
    Err(MonochangeError::Config(m))
}

/// Why a planning artifact is rejected, if it is: the header, then the
/// release record, then the inputs, then the package list.
pub open spec fn plan_artifact_error(artifact: PublishReadinessReport, current: PublishReadinessReport) -> Option<Seq<char>> {
    if header_error(artifact) is Some {
        header_error(artifact)
    } else if release_commit_error(artifact, current) is Some {
        release_commit_error(artifact, current)
    } else if input_fingerprint_error(artifact, current) is Some {
        input_fingerprint_error(artifact, current)
    } else {
        package_subset_error(artifact, current)
    }
}

/// A report of the current kind and schema, with no repeated package and a
/// package fingerprint that matches its rows, is accepted as the plan
/// artifact for itself.
pub proof fn lemma_report_plans_itself(r: PublishReadinessReport)
    requires
        header_error(r) is None,
        first_repeat(identities_of(r.packages@)) is None,
        r.package_set_fingerprint@ == set_fingerprint(identities_of(r.packages@)),
    ensures
        plan_artifact_error(r, r) is None,
{
    let a = identities_of(r.packages@);
    lemma_sorted_unique(a);
    let pred = |y: Identity| !a.contains(y);
    let m = sorted_unique(a).filter(pred);
    assert(m == missing_identities(a, a));
    if m.len() > 0 {
        sorted_unique(a).filter_lemma(pred);
        assert(pred(m[0]));
        assert(m.contains(m[0]));
        sorted_unique(a).lemma_filter_contains_rev(pred, m[0]);
        assert(sorted_unique(a).to_set().contains(m[0]));
        assert(a.to_set().contains(m[0]));
    }
}

/// Checks that a readiness artifact may plan the current publish run.
pub fn validate_publish_readiness_plan_artifact(artifact: &PublishReadinessReport, current: &PublishReadinessReport) -> (r: Result<(), MonochangeError>)
    ensures
        config_outcome(r, plan_artifact_error(*artifact, *current)),
{
    match validate_readiness_artifact_header(artifact) {
        Err(e) => return Err(e),
        Ok(()) => {},
    }
    match validate_readiness_release_commit(artifact, current) {
        Err(e) => return Err(e),
        Ok(()) => {},
    }
    match validate_readiness_input_fingerprint(artifact, current) {
        Err(e) => return Err(e),
        Ok(()) => {},
    }
    validate_readiness_package_subset(artifact, current)
}

} // verus!
