use vstd::prelude::*;

use crate::text::{chars_of, push_str, replace_all, replace_str, str_eq, string_from_range, trim, trim_str};

verus! {

broadcast use vstd::string::group_string_axioms;

/// A semantic version: major, minor and patch numbers, the pre-release and
/// the build metadata (each empty when absent).
pub struct SemVer {
    pub major: u64,
    pub minor: u64,
    pub patch: u64,
    pub pre: String,
    pub build: String,
}

impl View for SemVer {
    type V = (u64, u64, u64, Seq<char>, Seq<char>);

    open spec fn view(&self) -> (u64, u64, u64, Seq<char>, Seq<char>) {
        (self.major, self.minor, self.patch, self.pre@, self.build@)
    }
}

/// The version `semver::Version::parse` reads from a text, or `None` when it
/// rejects the text.
pub uninterp spec fn semver_of(text: Seq<char>) -> Option<(u64, u64, u64, Seq<char>, Seq<char>)>;

/// The view of an optional version.
pub open spec fn opt_semver(v: Option<SemVer>) -> Option<(u64, u64, u64, Seq<char>, Seq<char>)> {
    match v {
        Some(x) => Some(x@),
        None => None,
    }
}

/// `semver::Version::parse`: the version a text denotes under the SemVer
/// grammar, with its parts as plain values. Its result depends on the text
/// alone and is given the name `semver_of`; what the grammar accepts is not
/// restated here.
#[verifier::external_body]
fn semver_parse(text: &str) -> (r: Option<SemVer>)
    ensures
        opt_semver(r) == semver_of(text@),
{
    match semver::Version::parse(text) {
        Ok(v) => Some(SemVer {
            major: v.major,
            minor: v.minor,
            patch: v.patch,
            pre: v.pre.as_str().to_string(),
            build: v.build.as_str().to_string(),
        }),
        Err(_) => None,
    }
}

/// How a release tag is formed from a version.
pub enum VersionFormat {
    /// `v{version}`.
    Primary,
    /// `{name}/v{version}`.
    Namespaced,
    /// A template in which `{{ name }}`, `{{ version }}` and `{{ ecosystem }}`
    /// are replaced.
    Custom(String),
}

/// The tag a release of `owner_id` at `version` gets.
pub open spec fn render_tag_text(format: VersionFormat, owner_id: Seq<char>, version: Seq<char>, ecosystem: Seq<char>) -> Seq<char> {
    match format {
        VersionFormat::Primary => "v"@ + version,
        VersionFormat::Namespaced => owner_id + "/v"@ + version,
        VersionFormat::Custom(template) => replace_all(
            replace_all(replace_all(template@, "{{ name }}"@, owner_id), "{{ version }}"@, version),
            "{{ ecosystem }}"@,
            ecosystem,
        ),
    }
}

/// The tag a release of `owner_id` at `version` gets.
pub fn render_tag(format: &VersionFormat, owner_id: &str, version: &str, ecosystem: &str) -> (r: String)
    ensures
        r@ == render_tag_text(*format, owner_id@, version@, ecosystem@),
{
    match format {
        VersionFormat::Primary => {
            let mut t = String::new();
            push_str(&mut t, "v");
            push_str(&mut t, version);
            proof {
                reveal_strlit("v");
            }
            t
        },
        VersionFormat::Namespaced => {
            let mut t = String::new();
            push_str(&mut t, owner_id);
            push_str(&mut t, "/v");
            push_str(&mut t, version);
            proof {
                reveal_strlit("/v");
            }
            t
        },
        VersionFormat::Custom(template) => {
            proof {
                reveal_strlit("{{ name }}");
                reveal_strlit("{{ version }}");
                reveal_strlit("{{ ecosystem }}");
            }
            let a = replace_str(template.as_str(), "{{ name }}", owner_id);
            let b = replace_str(a.as_str(), "{{ version }}", version);
            replace_str(b.as_str(), "{{ ecosystem }}", ecosystem)
        },
    }
}

/// `c` is an ASCII digit.
pub open spec fn is_ascii_digit(c: char) -> bool {
    '0' <= c && c <= '9'
}

/// The part of `tag` from `s` to `e` starts at a digit, is a version, and
/// the release tag of that version is `tag` itself.
pub open spec fn tag_version_at(
    tag: Seq<char>,
    format: VersionFormat,
    owner_id: Seq<char>,
    ecosystem: Seq<char>,
    s: int,
    e: int,
) -> bool {
    &&& 0 <= s < e <= tag.len()
    &&& is_ascii_digit(tag[s])
    &&& semver_of(tag.subrange(s, e)) is Some
    &&& render_tag_text(format, owner_id, tag.subrange(s, e), ecosystem) == tag
}

/// `(s1, e1)` comes before `(s2, e2)`: an earlier start, or the same start and an earlier end.
pub open spec fn span_before(s1: int, e1: int, s2: int, e2: int) -> bool {
    s1 < s2 || (s1 == s2 && e1 < e2)
}

/// The span that `release_tag_version` reads: the first (by start, then by
/// end) at which the tag names a version.
pub open spec fn is_first_span(tag: Seq<char>, format: VersionFormat, owner_id: Seq<char>, ecosystem: Seq<char>, s: int, e: int) -> bool {
    &&& tag_version_at(tag, format, owner_id, ecosystem, s, e)
    &&& forall|s2: int, e2: int| #[trigger] span_before(s2, e2, s, e) ==> !tag_version_at(tag, format, owner_id, ecosystem, s2, e2)
}

/// The version a release tag names (see `release_tag_version`).
pub open spec fn tag_version_of(tag: Seq<char>, format: VersionFormat, owner_id: Seq<char>, ecosystem: Seq<char>) -> Option<(u64, u64, u64, Seq<char>, Seq<char>)> {
    if exists|s: int, e: int| #[trigger] is_first_span(tag, format, owner_id, ecosystem, s, e) {
        let (s, e) = choose|s: int, e: int| #[trigger] is_first_span(tag, format, owner_id, ecosystem, s, e);
        semver_of(tag.subrange(s, e))
    } else {
        None
    }
}

proof fn lemma_first_span_unique(tag: Seq<char>, format: VersionFormat, owner_id: Seq<char>, ecosystem: Seq<char>, s1: int, e1: int, s2: int, e2: int)
    requires
        is_first_span(tag, format, owner_id, ecosystem, s1, e1),
        is_first_span(tag, format, owner_id, ecosystem, s2, e2),
    ensures
        s1 == s2 && e1 == e2,
{
    if !(s1 == s2 && e1 == e2) {
        if span_before(s1, e1, s2, e2) {
            assert(!tag_version_at(tag, format, owner_id, ecosystem, s1, e1));
        } else {
            assert(span_before(s2, e2, s1, e1));
            assert(!tag_version_at(tag, format, owner_id, ecosystem, s2, e2));
        }
    }
}

/// The version of a release tag: that of the first part of the tag (by start,
/// then by end) that starts at a digit, parses as a version, and renders back
/// to the tag; `None` when no part does.
pub fn release_tag_version(tag: &str, format: &VersionFormat, owner_id: &str, ecosystem: &str) -> (r: Option<SemVer>)
    ensures
        opt_semver(r) == tag_version_of(tag@, *format, owner_id@, ecosystem@),
        r is None <==> forall|s: int, e: int| !#[trigger] tag_version_at(tag@, *format, owner_id@, ecosystem@, s, e),
        r matches Some(v) ==> exists|s: int, e: int| {
            &&& #[trigger] tag_version_at(tag@, *format, owner_id@, ecosystem@, s, e)
            &&& semver_of(tag@.subrange(s, e)) == Some(v@)
            &&& forall|s2: int, e2: int| #[trigger] span_before(s2, e2, s, e)
                ==> !tag_version_at(tag@, *format, owner_id@, ecosystem@, s2, e2)
        },
{
    let v = chars_of(tag);
    let n = v.len();
    let mut s: usize = 0;
    while s < n
        invariant
            v@ == tag@,
            n == v@.len(),
            s <= n,
            forall|s2: int, e2: int| s2 < s ==> !#[trigger] tag_version_at(tag@, *format, owner_id@, ecosystem@, s2, e2),
        decreases n - s,
    {
        let c = v[s];
        if '0' <= c && c <= '9' {
            let mut e: usize = s;
            while e < n
                invariant
                    v@ == tag@,
                    n == v@.len(),
                    s < n,
                    s <= e <= n,
                    is_ascii_digit(tag@[s as int]),
                    forall|s2: int, e2: int| s2 < s ==> !#[trigger] tag_version_at(tag@, *format, owner_id@, ecosystem@, s2, e2),
                    forall|e2: int| e2 <= e ==> !#[trigger] tag_version_at(tag@, *format, owner_id@, ecosystem@, s as int, e2),
                decreases n - e,
            {
                e = e + 1;
                let candidate = string_from_range(v.as_slice(), s, e);
                assert(candidate@ == tag@.subrange(s as int, e as int));
                match semver_parse(candidate.as_str()) {
                    Some(version) => {
                        let rendered = render_tag(format, owner_id, candidate.as_str(), ecosystem);
                        if str_eq(rendered.as_str(), tag) {
                            proof {
                                assert(tag_version_at(tag@, *format, owner_id@, ecosystem@, s as int, e as int));
                                assert forall|s2: int, e2: int| #[trigger] span_before(s2, e2, s as int, e as int)
                                    implies !tag_version_at(tag@, *format, owner_id@, ecosystem@, s2, e2) by {
                                    if s2 == s {
                                        assert(e2 <= e - 1);
                                    }
                                }
                                assert(is_first_span(tag@, *format, owner_id@, ecosystem@, s as int, e as int));
                                let (cs, ce) = choose|cs: int, ce: int| #[trigger] is_first_span(tag@, *format, owner_id@, ecosystem@, cs, ce);
                                lemma_first_span_unique(tag@, *format, owner_id@, ecosystem@, s as int, e as int, cs, ce);
                            }
                            return Some(version);
                        }
                    },
                    None => {},
                }
            }
            assert forall|s2: int, e2: int| s2 < s + 1 implies !#[trigger] tag_version_at(tag@, *format, owner_id@, ecosystem@, s2, e2) by {
                if s2 == s && tag_version_at(tag@, *format, owner_id@, ecosystem@, s2, e2) {
                    assert(e2 <= e);
                }
            }
        } else {
            assert forall|s2: int, e2: int| s2 < s + 1 implies !#[trigger] tag_version_at(tag@, *format, owner_id@, ecosystem@, s2, e2) by {
                if s2 == s {
                    assert(!is_ascii_digit(tag@[s as int]));
                }
            }
        }
        s = s + 1;
    }
    proof {
        if exists|s1: int, e1: int| #[trigger] is_first_span(tag@, *format, owner_id@, ecosystem@, s1, e1) {
            let (s1, e1) = choose|s1: int, e1: int| #[trigger] is_first_span(tag@, *format, owner_id@, ecosystem@, s1, e1);
            assert(!tag_version_at(tag@, *format, owner_id@, ecosystem@, s1, e1));
        }
    }
    None
}

/// Whether version `a` sorts before version `b` as the `semver` crate orders
/// versions (major, minor, patch, pre-release precedence, then build metadata).
pub uninterp spec fn semver_lt(a: (u64, u64, u64, Seq<char>, Seq<char>), b: (u64, u64, u64, Seq<char>, Seq<char>)) -> bool;

/// `<` on `semver::Version`: the two versions are rebuilt from their parts
/// (a pre-release or build text that `semver` rejects, which a parsed
/// version never has, counts as empty) and compared. The order is given the
/// name `semver_lt`; its rules are not restated here.
#[verifier::external_body]
fn semver_less(a: &SemVer, b: &SemVer) -> (r: bool)
    ensures
        r == semver_lt(a@, b@),
{
    let x = semver::Version {
        major: a.major, minor: a.minor, patch: a.patch,
        pre: semver::Prerelease::new(&a.pre).unwrap_or(semver::Prerelease::EMPTY),
        build: semver::BuildMetadata::new(&a.build).unwrap_or(semver::BuildMetadata::EMPTY),
    };
    let y = semver::Version {
        major: b.major, minor: b.minor, patch: b.patch,
        pre: semver::Prerelease::new(&b.pre).unwrap_or(semver::Prerelease::EMPTY),
        build: semver::BuildMetadata::new(&b.build).unwrap_or(semver::BuildMetadata::EMPTY),
    };
    x < y
}

/// How a package's releases are tagged: the owner whose tags they are,
/// whether releases are tagged at all, and the tag format.
pub struct TagIdentity {
    pub owner_id: String,
    pub tag: bool,
    pub version_format: VersionFormat,
}

/// The latest release tag among the first `n` tags (each trimmed) with its
/// version: a later tag replaces the one kept unless its version sorts
/// before it, so of equal versions the last one wins.
pub open spec fn latest_upto(tags: Seq<String>, id: TagIdentity, ecosystem: Seq<char>, n: int) -> Option<(Seq<char>, (u64, u64, u64, Seq<char>, Seq<char>))>
    decreases n,
{
    if n <= 0 || n > tags.len() {
        None
    } else {
        let prev = latest_upto(tags, id, ecosystem, n - 1);
        let t = trim(tags[n - 1]@);
        match tag_version_of(t, id.version_format, id.owner_id@, ecosystem) {
            None => prev,
            Some(v) => match prev {
                Some((pt, pv)) => if semver_lt(v, pv) { prev } else { Some((t, v)) },
                None => Some((t, v)),
            },
        }
    }
}

/// The version the tag at index `k` names (trimmed), if it names one.
pub open spec fn version_at(tags: Seq<String>, id: TagIdentity, ecosystem: Seq<char>, k: int) -> Option<(u64, u64, u64, Seq<char>, Seq<char>)> {
    tag_version_of(trim(tags[k]@), id.version_format, id.owner_id@, ecosystem)
}

proof fn lemma_latest_upto_chosen(tags: Seq<String>, id: TagIdentity, ecosystem: Seq<char>, n: int)
    requires
        0 <= n <= tags.len(),
    ensures
        latest_upto(tags, id, ecosystem, n) is None <==> forall|k: int| 0 <= k < n ==> #[trigger] version_at(tags, id, ecosystem, k) is None,
        latest_upto(tags, id, ecosystem, n) matches Some((t, v)) ==> exists|k: int| 0 <= k < n
            && trim(tags[k]@) == t && #[trigger] version_at(tags, id, ecosystem, k) == Some(v)
            && forall|m: int| k < m < n && #[trigger] version_at(tags, id, ecosystem, m) is Some
                ==> semver_lt(version_at(tags, id, ecosystem, m)->0, v),
    decreases n,
{
    if n > 0 {
        lemma_latest_upto_chosen(tags, id, ecosystem, n - 1);
        let prev = latest_upto(tags, id, ecosystem, n - 1);
        match version_at(tags, id, ecosystem, n - 1) {
            None => {
                if prev is None {
                    assert forall|k: int| 0 <= k < n implies #[trigger] version_at(tags, id, ecosystem, k) is None by {
                        if k < n - 1 {
                            assert(version_at(tags, id, ecosystem, k) is None);
                        }
                    }
                }
            },
            Some(v) => {
                assert(!(forall|k: int| 0 <= k < n ==> #[trigger] version_at(tags, id, ecosystem, k) is None));
                match prev {
                    Some((pt, pv)) => {
                        if semver_lt(v, pv) {
                            let k = choose|k: int| 0 <= k < n - 1
                                && trim(tags[k]@) == pt && #[trigger] version_at(tags, id, ecosystem, k) == Some(pv)
                                && forall|m: int| k < m < n - 1 && #[trigger] version_at(tags, id, ecosystem, m) is Some
                                    ==> semver_lt(version_at(tags, id, ecosystem, m)->0, pv);
                            assert(version_at(tags, id, ecosystem, k) == Some(pv));
                        } else {
                            assert(version_at(tags, id, ecosystem, n - 1) == Some(v));
                        }
                    },
                    None => {
                        assert(version_at(tags, id, ecosystem, n - 1) == Some(v));
                    },
                }
            },
        }
    }
}

/// The latest release tag is one of the tags that name a version, there is
/// one exactly when some tag names a version, and every such tag after it
/// names a version that sorts before its version.
pub proof fn lemma_latest_tag_outranks_later_tags(tags: Seq<String>, id: TagIdentity, ecosystem: Seq<char>)
    ensures
        latest_upto(tags, id, ecosystem, tags.len() as int) is None
            <==> forall|k: int| 0 <= k < tags.len() ==> #[trigger] version_at(tags, id, ecosystem, k) is None,
        latest_upto(tags, id, ecosystem, tags.len() as int) matches Some((t, v)) ==> exists|k: int| 0 <= k < tags.len()
            && trim(tags[k]@) == t && #[trigger] version_at(tags, id, ecosystem, k) == Some(v)
            && forall|m: int| k < m < tags.len() && #[trigger] version_at(tags, id, ecosystem, m) is Some
                ==> semver_lt(version_at(tags, id, ecosystem, m)->0, v),
{
    lemma_latest_upto_chosen(tags, id, ecosystem, tags.len() as int);
}

proof fn lemma_latest_upto_maximal(tags: Seq<String>, id: TagIdentity, ecosystem: Seq<char>, n: int)
    requires
        0 <= n <= tags.len(),
        forall|a: (u64, u64, u64, Seq<char>, Seq<char>), b: (u64, u64, u64, Seq<char>, Seq<char>)|
            #[trigger] semver_lt(a, b) ==> !semver_lt(b, a),
        forall|a: (u64, u64, u64, Seq<char>, Seq<char>), b: (u64, u64, u64, Seq<char>, Seq<char>), c: (u64, u64, u64, Seq<char>, Seq<char>)|
            #![trigger semver_lt(a, b), semver_lt(b, c)]
            semver_lt(a, c) ==> semver_lt(a, b) || semver_lt(b, c),
    ensures
        latest_upto(tags, id, ecosystem, n) matches Some((t, v)) ==> forall|k: int| 0 <= k < n
            && #[trigger] version_at(tags, id, ecosystem, k) is Some ==> !semver_lt(v, version_at(tags, id, ecosystem, k)->0),
    decreases n,
{
    if n > 0 {
        lemma_latest_upto_maximal(tags, id, ecosystem, n - 1);
        let prev = latest_upto(tags, id, ecosystem, n - 1);
        match version_at(tags, id, ecosystem, n - 1) {
            None => {
                if let Some((t, v)) = prev {
                    assert forall|k: int| 0 <= k < n && #[trigger] version_at(tags, id, ecosystem, k) is Some
                        implies !semver_lt(v, version_at(tags, id, ecosystem, k)->0) by {
                        if k < n - 1 {
                            assert(version_at(tags, id, ecosystem, k) is Some);
                        }
                    }
                }
            },
            Some(v) => {
                match prev {
                    Some((pt, pv)) => {
                        if semver_lt(v, pv) {
                            assert forall|k: int| 0 <= k < n && #[trigger] version_at(tags, id, ecosystem, k) is Some
                                implies !semver_lt(pv, version_at(tags, id, ecosystem, k)->0) by {
                                if k < n - 1 {
                                    assert(version_at(tags, id, ecosystem, k) is Some);
                                } else {
                                    assert(!semver_lt(pv, v));
                                }
                            }
                        } else {
                            assert forall|k: int| 0 <= k < n && #[trigger] version_at(tags, id, ecosystem, k) is Some
                                implies !semver_lt(v, version_at(tags, id, ecosystem, k)->0) by {
                                let w = version_at(tags, id, ecosystem, k)->0;
                                if k < n - 1 {
                                    assert(version_at(tags, id, ecosystem, k) is Some);
                                    assert(!semver_lt(pv, w));
                                    if semver_lt(v, w) {
                                        assert(semver_lt(v, pv) || semver_lt(pv, w));
                                    }
                                } else {
                                    if semver_lt(v, v) {
                                        assert(!semver_lt(v, v));
                                    }
                                }
                            }
                        }
                    },
                    None => {
                        assert forall|k: int| 0 <= k < n && #[trigger] version_at(tags, id, ecosystem, k) is Some
                            implies !semver_lt(v, version_at(tags, id, ecosystem, k)->0) by {
                            if k < n - 1 {
                                lemma_latest_upto_chosen(tags, id, ecosystem, n - 1);
                                assert(version_at(tags, id, ecosystem, k) is None);
                            } else if semver_lt(v, v) {
                                assert(!semver_lt(v, v));
                            }
                        }
                    },
                }
            },
        }
    }
}

/// Where versions are ordered as SemVer orders them (no version sorts both
/// before and after another, and whatever sorts between two versions that are
/// in order keeps them apart), no tag that names a version names one that
/// sorts after the latest release tag's version.
pub proof fn lemma_latest_tag_is_highest(tags: Seq<String>, id: TagIdentity, ecosystem: Seq<char>)
    requires
        forall|a: (u64, u64, u64, Seq<char>, Seq<char>), b: (u64, u64, u64, Seq<char>, Seq<char>)|
            #[trigger] semver_lt(a, b) ==> !semver_lt(b, a),
        forall|a: (u64, u64, u64, Seq<char>, Seq<char>), b: (u64, u64, u64, Seq<char>, Seq<char>), c: (u64, u64, u64, Seq<char>, Seq<char>)|
            #![trigger semver_lt(a, b), semver_lt(b, c)]
            semver_lt(a, c) ==> semver_lt(a, b) || semver_lt(b, c),
    ensures
        latest_upto(tags, id, ecosystem, tags.len() as int) matches Some((t, v)) ==> forall|k: int| 0 <= k < tags.len()
            && #[trigger] version_at(tags, id, ecosystem, k) is Some ==> !semver_lt(v, version_at(tags, id, ecosystem, k)->0),
{
    lemma_latest_upto_maximal(tags, id, ecosystem, tags.len() as int);
}

/// The latest release tag of a package among the tags reachable from a
/// revision (one per line, trimmed): none when the package has no release
/// identity or does not tag its releases; otherwise the tag whose version
/// (see `release_tag_version`) is highest, the last of equal ones.
pub fn latest_release_tag(tags: &[String], identity: Option<&TagIdentity>, ecosystem: &str) -> (r: Option<String>)
    ensures
        match identity {
            Some(id) if id.tag => match latest_upto(tags@, *id, ecosystem@, tags@.len() as int) {
                Some((t, _)) => r matches Some(x) && x@ == t,
                None => r is None,
            },
            _ => r is None,
        },
{
    let id = match identity {
        Some(id) => id,
        None => return None,
    };
    if !id.tag {
        return None;
    }
    let mut best: Option<(String, SemVer)> = None;
    let mut i: usize = 0;
    while i < tags.len()
        invariant
            i <= tags@.len(),
            match latest_upto(tags@, *id, ecosystem@, i as int) {
                Some((t, v)) => best matches Some(b) && b.0@ == t && b.1@ == v,
                None => best is None,
            },
        decreases tags@.len() - i,
    {
        let tag = trim_str(tags[i].as_str());
        let found = release_tag_version(tag.as_str(), &id.version_format, id.owner_id.as_str(), ecosystem);
        match found {
            None => {},
            Some(version) => {
                let replace = match &best {
                    Some(b) => !semver_less(&version, &b.1),
                    None => true,
                };
                if replace {
                    best = Some((tag, version));
                }
            },
        }
        i = i + 1;
    }
    match best {
        Some(b) => Some(b.0),
        None => None,
    }
}

} // verus!
