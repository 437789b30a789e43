use vstd::prelude::*;

use vstd::multiset::Multiset;

use crate::model::Ecosystem;
use crate::publish_order::{
    dependency_order, lemma_distinct_below, lemma_orderable_leaves_none_out, left_out_blocked,
    targets_first,
};
use crate::text::{lemma_lex_asymmetric, lemma_lex_irreflexive, lemma_lex_total, lemma_lex_transitive, lex_less, lex_lt, str_eq};

verus! {

broadcast use vstd::string::group_string_axioms;

/// The registries packages are published to.
#[derive(Clone, Copy, Debug, PartialEq, Eq, Structural)]
pub enum RegistryKind {
    CratesIo,
    Npm,
    Jsr,
    PubDev,
    Pypi,
    GoProxy,
}

/// Whether monochange publishes a package itself or leaves it to outside tooling.
#[derive(Clone, Copy, Debug, PartialEq, Eq, Structural)]
pub enum PublishMode {
    Builtin,
    External,
}

/// One package version to publish to one registry.
pub struct PublishRequest {
    pub package_id: String,
    pub package_name: String,
    pub ecosystem: Ecosystem,
    pub registry: RegistryKind,
    pub mode: PublishMode,
    pub version: String,
}

/// A package of the workspace, by record id and name.
pub struct PackageRecord {
    pub id: String,
    pub name: String,
}

/// A dependency of the package with record id `from_package_id` on the one
/// with record id `to_package_id`.
pub struct DependencyEdge {
    pub from_package_id: String,
    pub to_package_id: String,
}

/// Whether a rate-limit plan is for placeholder publishes or real ones.
#[derive(Clone, Copy, Debug, PartialEq, Eq, Structural)]
pub enum PublishRateLimitMode {
    Placeholder,
    Publish,
}

pub open spec fn mode_description(mode: PublishRateLimitMode) -> Seq<char> {
    match mode {
        PublishRateLimitMode::Placeholder => "placeholder publish"@,
        PublishRateLimitMode::Publish => "publish"@,
    }
}

impl PublishRateLimitMode {
    /// The words that name the operation in messages.
    pub fn description(self) -> (r: &'static str)
        ensures
            r@ == mode_description(self),
    {
        match self {
            PublishRateLimitMode::Placeholder => "placeholder publish",
            PublishRateLimitMode::Publish => "publish",
        }
    }
}

/// Some request publishes the package with id `s`.
pub open spec fn has_request_id(reqs: Seq<PublishRequest>, s: Seq<char>) -> bool {
    exists|i: int| 0 <= i < reqs.len() && (#[trigger] reqs[i]).package_id@ == s
}

/// Index of the first request for the package named `name`.
pub open spec fn first_named(reqs: Seq<PublishRequest>, name: Seq<char>) -> Option<int>
    decreases reqs.len(),
{
    if reqs.len() == 0 {
        None
    } else if reqs[0].package_name@ == name {
        Some(0)
    } else {
        match first_named(reqs.drop_first(), name) {
            Some(i) => Some(i + 1),
            None => None,
        }
    }
}

/// The request id that the record id `r` stands for: the last package with
/// that record id decides, by its id when a request has it and otherwise by
/// the first request with its name; packages that match neither are passed over.
pub open spec fn record_target(reqs: Seq<PublishRequest>, pkgs: Seq<PackageRecord>, r: Seq<char>) -> Option<Seq<char>>
    decreases pkgs.len(),
{
    if pkgs.len() == 0 {
        None
    } else {
        let p = pkgs.last();
        if p.id@ == r && has_request_id(reqs, r) {
            Some(r)
        } else if p.id@ == r && first_named(reqs, p.name@) is Some {
            Some(reqs[first_named(reqs, p.name@)->0].package_id@)
        } else {
            record_target(reqs, pkgs.drop_last(), r)
        }
    }
}

/// The request ids at both ends of a dependency edge, when both ends have one.
pub open spec fn edge_ends(reqs: Seq<PublishRequest>, pkgs: Seq<PackageRecord>, e: DependencyEdge) -> Option<(Seq<char>, Seq<char>)> {
    match (record_target(reqs, pkgs, e.from_package_id@), record_target(reqs, pkgs, e.to_package_id@)) {
        (Some(a), Some(b)) => Some((a, b)),
        _ => None,
    }
}

/// In `order`, every request comes after the requests of the packages it depends on.
pub open spec fn dependencies_first(
    order: Seq<PublishRequest>,
    reqs: Seq<PublishRequest>,
    pkgs: Seq<PackageRecord>,
    edges: Seq<DependencyEdge>,
) -> bool {
    forall|k: int, i: int, j: int|
        #![trigger edges[k], order[i], order[j]]
        0 <= k < edges.len() && 0 <= i < order.len() && 0 <= j < order.len()
            && edge_ends(reqs, pkgs, edges[k]) == Some((order[i].package_id@, order[j].package_id@))
            ==> j < i
}

/// No two requests publish the same package id.
pub open spec fn unique_ids(reqs: Seq<PublishRequest>) -> bool {
    forall|i: int, j: int|
        0 <= i < reqs.len() && 0 <= j < reqs.len() && i != j ==> (#[trigger] reqs[i]).package_id@ != (#[trigger] reqs[j]).package_id@
}

/// Some reordering of the requests puts every dependency first.
pub open spec fn orderable(reqs: Seq<PublishRequest>, pkgs: Seq<PackageRecord>, edges: Seq<DependencyEdge>) -> bool {
    exists|order: Seq<PublishRequest>| order.to_multiset() == reqs.to_multiset() && dependencies_first(order, reqs, pkgs, edges)
}

/// The views are in strictly increasing order.
pub open spec fn strictly_increasing(v: Seq<String>) -> bool {
    forall|i: int, j: int| 0 <= i < j < v.len() ==> lex_lt((#[trigger] v[i])@, (#[trigger] v[j])@)
}

/// Whether some string of `v` has the view `s`.
pub open spec fn holds_view(v: Seq<String>, s: Seq<char>) -> bool {
    exists|i: int| 0 <= i < v.len() && (#[trigger] v[i])@ == s
}

/// Adds `s` to a strictly increasing vector unless it is already there.
pub fn insert_sorted(v: &mut Vec<String>, s: &String)
    requires
        strictly_increasing(old(v)@),
    ensures
        strictly_increasing(final(v)@),
        forall|t: Seq<char>| holds_view(final(v)@, t) <==> (holds_view(old(v)@, t) || t == s@),
{
    let mut p: usize = 0;
    while p < v.len() && lex_less(v[p].as_str(), s.as_str())
        invariant
            p <= v@.len(),
            strictly_increasing(v@),
            v@ == old(v)@,
            forall|i: int| 0 <= i < p ==> lex_lt((#[trigger] v@[i])@, s@),
        decreases v@.len() - p,
    {
        p = p + 1;
    }
    if p < v.len() && str_eq(v[p].as_str(), s.as_str()) {
        assert(holds_view(v@, s@)) by {
            assert(v@[p as int]@ == s@);
        }
        return;
    }
    proof {
        if p < v@.len() {
            lemma_lex_total(v@[p as int]@, s@);
        }
    }
    let ghost old_v = v@;
    let c = s.clone();
    assert(c@ == s@);
    v.insert(p, c);
    proof {
        assert(old_v == old(v)@);
        assert(v@[p as int]@ == s@);
        assert forall|i: int, j: int| 0 <= i < j < v@.len() implies lex_lt((#[trigger] v@[i])@, (#[trigger] v@[j])@) by {
            if j < p {
                assert(old_v[i] == v@[i] && old_v[j] == v@[j]);
            } else if j == p {
                assert(old_v[i] == v@[i]);
            } else if i < p {
                assert(old_v[i] == v@[i]);
                assert(old_v[j - 1] == v@[j]);
                lemma_lex_transitive(v@[i]@, s@, old_v[p as int]@);
                if j - 1 > p {
                    lemma_lex_transitive(v@[i]@, old_v[p as int]@, old_v[j - 1]@);
                }
            } else if i == p {
                assert(old_v[j - 1] == v@[j]);
                if j - 1 > p {
                    lemma_lex_transitive(s@, old_v[p as int]@, old_v[j - 1]@);
                }
            } else {
                assert(old_v[i - 1] == v@[i] && old_v[j - 1] == v@[j]);
            }
        }
        assert forall|t: Seq<char>| holds_view(v@, t) <==> (holds_view(old_v, t) || t == s@) by {
            if holds_view(v@, t) {
                let w = choose|i: int| 0 <= i < v@.len() && (#[trigger] v@[i])@ == t;
                if w < p {
                    assert(old_v[w] == v@[w]);
                } else if w > p {
                    assert(old_v[w - 1] == v@[w]);
                }
            }
            if holds_view(old_v, t) {
                let w = choose|i: int| 0 <= i < old_v.len() && (#[trigger] old_v[i])@ == t;
                if w < p {
                    assert(old_v[w] == v@[w]);
                } else {
                    assert(old_v[w] == v@[w + 1]);
                }
            }
            if t == s@ {
                assert(v@[p as int]@ == t);
            }
        }
    }
}

/// The distinct package ids of the requests, in increasing order.
fn sorted_request_ids(requests: &Vec<PublishRequest>) -> (ids: Vec<String>)
    ensures
        strictly_increasing(ids@),
        forall|t: Seq<char>| holds_view(ids@, t) <==> has_request_id(requests@, t),
{
    let mut ids: Vec<String> = Vec::new();
    let mut i: usize = 0;
    while i < requests.len()
        invariant
            i <= requests@.len(),
            strictly_increasing(ids@),
            forall|t: Seq<char>| holds_view(ids@, t) <==> has_request_id(requests@.take(i as int), t),
        decreases requests@.len() - i,
    {
        insert_sorted(&mut ids, &requests[i].package_id);
        proof {
            let pre = requests@.take(i as int);
            let post = requests@.take(i + 1);
            assert forall|t: Seq<char>| has_request_id(post, t) <==> (has_request_id(pre, t) || t == requests@[i as int].package_id@) by {
                if has_request_id(post, t) {
                    let w = choose|j: int| 0 <= j < post.len() && (#[trigger] post[j]).package_id@ == t;
                    if w < i {
                        assert(pre[w] == post[w]);
                    }
                }
                if has_request_id(pre, t) {
                    let w = choose|j: int| 0 <= j < pre.len() && (#[trigger] pre[j]).package_id@ == t;
                    assert(pre[w] == post[w]);
                }
                if t == requests@[i as int].package_id@ {
                    assert(post[i as int] == requests@[i as int]);
                }
            }
        }
        i = i + 1;
    }
    assert(requests@.take(requests@.len() as int) =~= requests@);
    ids
}

/// Position of the string with view `s` in a strictly increasing vector.
fn position_of(ids: &Vec<String>, s: &str) -> (r: Option<usize>)
    requires
        strictly_increasing(ids@),
    ensures
        match r {
            Some(k) => k < ids@.len() && ids@[k as int]@ == s@,
            None => !holds_view(ids@, s@),
        },
{
    let mut k: usize = 0;
    while k < ids.len()
        invariant
            k <= ids@.len(),
            forall|j: int| 0 <= j < k ==> (#[trigger] ids@[j])@ != s@,
        decreases ids@.len() - k,
    {
        if str_eq(ids[k].as_str(), s) {
            return Some(k);
        }
        k = k + 1;
    }
    None
}

pub proof fn lemma_increasing_distinct(ids: Seq<String>, a: int, b: int)
    requires
        strictly_increasing(ids),
        0 <= a < ids.len(),
        0 <= b < ids.len(),
        ids[a]@ == ids[b]@,
    ensures
        a == b,
{
    if a < b {
        lemma_lex_irreflexive(ids[a]@);
    } else if b < a {
        lemma_lex_irreflexive(ids[a]@);
    }
}

/// A sequence that holds every value below `m` has at least `m` elements.
pub proof fn lemma_covering_len(s: Seq<usize>, m: usize)
    requires
        forall|x: usize| x < m ==> s.contains(x),
    ensures
        s.len() >= m,
    decreases m,
{
    if m > 0 {
        let top = (m - 1) as usize;
        assert(s.contains(top));
        let k = choose|i: int| 0 <= i < s.len() && s[i] == top;
        let t = s.remove(k);
        assert forall|x: usize| x < top implies t.contains(x) by {
            assert(s.contains(x));
            let w = choose|i: int| 0 <= i < s.len() && s[i] == x;
            if w < k {
                assert(t[w] == x);
            } else {
                assert(w != k);
                assert(t[w - 1] == x);
            }
        }
        lemma_covering_len(t, top);
    }
}

/// A sequence of `m` distinct values below `m` holds every value below `m`.
pub proof fn lemma_distinct_full(s: Seq<usize>, m: usize)
    requires
        s.no_duplicates(),
        forall|i: int| 0 <= i < s.len() ==> s[i] < m,
        s.len() == m,
    ensures
        forall|x: usize| x < m ==> s.contains(x),
{
    assert forall|x: usize| x < m implies s.contains(x) by {
        if !s.contains(x) {
            let t = s.push(x);
            assert forall|i: int, j: int| 0 <= i < t.len() && 0 <= j < t.len() && i != j implies t[i] != t[j] by {
                if i < s.len() && j < s.len() {
                } else if i < s.len() {
                    assert(t[j] == x);
                    assert(t[i] == s[i]);
                } else if j < s.len() {
                    assert(t[i] == x);
                    assert(t[j] == s[j]);
                }
            }
            assert(t.no_duplicates());
            lemma_distinct_below(t, m);
        }
    }
}

/// Index of the first request for the package named `name`.
fn first_named_exec(requests: &Vec<PublishRequest>, name: &str) -> (r: Option<usize>)
    ensures
        match first_named(requests@, name@) {
            Some(j) => r matches Some(x) && x as int == j && 0 <= j < requests@.len(),
            None => r is None,
        },
{
    let mut j: usize = 0;
    assert(requests@.skip(0) =~= requests@);
    while j < requests.len()
        invariant
            j <= requests@.len(),
            first_named(requests@, name@) == (match first_named(requests@.skip(j as int), name@) {
                Some(i) => Some(i + j),
                None => None::<int>,
            }),
            forall|i: int| 0 <= i < j ==> (#[trigger] requests@[i]).package_name@ != name@,
        decreases requests@.len() - j,
    {
        let ghost rest = requests@.skip(j as int);
        proof {
            assert(rest.drop_first() =~= requests@.skip(j + 1));
            assert(rest[0] == requests@[j as int]);
        }
        if str_eq(requests[j].package_name.as_str(), name) {
            return Some(j);
        }
        j = j + 1;
    }
    assert(requests@.skip(j as int).len() == 0);
    None
}

pub proof fn lemma_first_named_bounds(reqs: Seq<PublishRequest>, name: Seq<char>)
    ensures
        first_named(reqs, name) matches Some(j) ==> 0 <= j < reqs.len(),
    decreases reqs.len(),
{
    if reqs.len() > 0 && reqs[0].package_name@ != name {
        lemma_first_named_bounds(reqs.drop_first(), name);
        if let Some(i) = first_named(reqs.drop_first(), name) {
            assert(reqs.drop_first()[i] == reqs[i + 1]);
        }
    }
}

pub proof fn lemma_record_target_is_request(reqs: Seq<PublishRequest>, pkgs: Seq<PackageRecord>, r: Seq<char>)
    ensures
        record_target(reqs, pkgs, r) matches Some(a) ==> has_request_id(reqs, a),
    decreases pkgs.len(),
{
    if pkgs.len() > 0 {
        let p = pkgs.last();
        if p.id@ == r && has_request_id(reqs, r) {
        } else if p.id@ == r && first_named(reqs, p.name@) is Some {
            lemma_first_named_bounds(reqs, p.name@);
            let j = first_named(reqs, p.name@)->0;
            assert(reqs[j].package_id@ == reqs[j].package_id@);
        } else {
            lemma_record_target_is_request(reqs, pkgs.drop_last(), r);
        }
    }
}

/// The position among `ids` of the request id that the record id `r` stands for.
fn lookup_record(
    requests: &Vec<PublishRequest>,
    ids: &Vec<String>,
    keys: &Vec<usize>,
    packages: &[PackageRecord],
    r: &str,
) -> (res: Option<usize>)
    requires
        strictly_increasing(ids@),
        forall|t: Seq<char>| holds_view(ids@, t) <==> has_request_id(requests@, t),
        keys@.len() == requests@.len(),
        forall|i: int| 0 <= i < requests@.len() ==> (#[trigger] keys@[i]) < ids@.len() && ids@[keys@[i] as int]@ == requests@[i].package_id@,
    ensures
        match record_target(requests@, packages@, r@) {
            Some(a) => res matches Some(k) && k < ids@.len() && ids@[k as int]@ == a,
            None => res is None,
        },
{
    let mut idx: usize = packages.len();
    assert(packages@.take(packages@.len() as int) =~= packages@);
    while idx > 0
        invariant
            idx <= packages@.len(),
            record_target(requests@, packages@, r@) == record_target(requests@, packages@.take(idx as int), r@),
            strictly_increasing(ids@),
            forall|t: Seq<char>| holds_view(ids@, t) <==> has_request_id(requests@, t),
            keys@.len() == requests@.len(),
            forall|i: int| 0 <= i < requests@.len() ==> (#[trigger] keys@[i]) < ids@.len() && ids@[keys@[i] as int]@ == requests@[i].package_id@,
        decreases idx,
    {
        let ghost pre = packages@.take(idx as int);
        idx = idx - 1;
        proof {
            assert(pre.drop_last() =~= packages@.take(idx as int));
            assert(pre.last() == packages@[idx as int]);
        }
        let p = &packages[idx];
        if str_eq(p.id.as_str(), r) {
            match position_of(ids, r) {
                Some(k) => {
                    assert(holds_view(ids@, r@)) by {
                        assert(ids@[k as int]@ == r@);
                    }
                    return Some(k);
                },
                None => {},
            }
            match first_named_exec(requests, p.name.as_str()) {
                Some(j) => {
                    proof {
                        assert(!has_request_id(requests@, r@));
                        assert(pre.len() > 0);
                        assert(pre.last().id@ == r@);
                        assert(p.name@ == pre.last().name@);
                        assert(first_named(requests@, p.name@) is Some);
                        assert(first_named(requests@, p.name@) == Some(j as int));
                        assert(record_target(requests@, pre, r@) == Some(requests@[j as int].package_id@));
                    }
                    return Some(keys[j]);
                },
                None => {},
            }
        }
    }
    assert(packages@.take(0).len() == 0);
    None
}

/// The ids of a strictly increasing vector point at the requests that have them.
pub open spec fn ids_of_requests(ids: Seq<String>, reqs: Seq<PublishRequest>) -> bool {
    &&& strictly_increasing(ids)
    &&& forall|t: Seq<char>| holds_view(ids, t) <==> has_request_id(reqs, t)
}

/// `keys[i]` is the position among `ids` of the id of request `i`.
pub open spec fn keys_of_requests(keys: Seq<usize>, ids: Seq<String>, reqs: Seq<PublishRequest>) -> bool {
    &&& keys.len() == reqs.len()
    &&& forall|i: int| 0 <= i < reqs.len() ==> (#[trigger] keys[i]) < ids.len() && ids[keys[i] as int]@ == reqs[i].package_id@
}

/// The index edge `ie` stands for some dependency edge whose ends both have a request.
pub open spec fn stands_for_edge(
    ie: (usize, usize),
    ids: Seq<String>,
    reqs: Seq<PublishRequest>,
    pkgs: Seq<PackageRecord>,
    edges: Seq<DependencyEdge>,
) -> bool {
    &&& ie.0 < ids.len()
    &&& ie.1 < ids.len()
    &&& exists|k: int| 0 <= k < edges.len() && edge_ends(reqs, pkgs, #[trigger] edges[k]) == Some((ids[ie.0 as int]@, ids[ie.1 as int]@))
}

/// When both ends of `edge` have a request, some index edge stands for it.
pub open spec fn edge_kept(
    edge: DependencyEdge,
    emap: Seq<(usize, usize)>,
    ids: Seq<String>,
    reqs: Seq<PublishRequest>,
    pkgs: Seq<PackageRecord>,
) -> bool {
    edge_ends(reqs, pkgs, edge) matches Some((a, b)) ==> exists|e: int|
        0 <= e < emap.len() && ids[(#[trigger] emap[e]).0 as int]@ == a && ids[emap[e].1 as int]@ == b
}

/// The index edges stand for exactly the dependency edges whose ends both have a request.
pub open spec fn edges_of_requests(
    emap: Seq<(usize, usize)>,
    ids: Seq<String>,
    reqs: Seq<PublishRequest>,
    pkgs: Seq<PackageRecord>,
    edges: Seq<DependencyEdge>,
) -> bool {
    &&& forall|e: int| 0 <= e < emap.len() ==> stands_for_edge(#[trigger] emap[e], ids, reqs, pkgs, edges)
    &&& forall|k: int| 0 <= k < edges.len() ==> edge_kept(#[trigger] edges[k], emap, ids, reqs, pkgs)
}

fn request_keys(requests: &Vec<PublishRequest>, ids: &Vec<String>) -> (keys: Vec<usize>)
    requires
        ids_of_requests(ids@, requests@),
    ensures
        keys_of_requests(keys@, ids@, requests@),
{
    let mut keys: Vec<usize> = Vec::new();
    let mut i: usize = 0;
    while i < requests.len()
        invariant
            i <= requests@.len(),
            ids_of_requests(ids@, requests@),
            keys@.len() == i,
            forall|j: int| 0 <= j < i ==> (#[trigger] keys@[j]) < ids@.len() && ids@[keys@[j] as int]@ == requests@[j].package_id@,
        decreases requests@.len() - i,
    {
        assert(has_request_id(requests@, requests@[i as int].package_id@));
        let k = match position_of(ids, requests[i].package_id.as_str()) {
            Some(k) => k,
            None => {
                assert(false);
                0
            },
        };
        keys.push(k);
        i = i + 1;
    }
    keys
}

fn build_edge_map(
    requests: &Vec<PublishRequest>,
    ids: &Vec<String>,
    keys: &Vec<usize>,
    packages: &[PackageRecord],
    edges: &[DependencyEdge],
) -> (emap: Vec<(usize, usize)>)
    requires
        ids_of_requests(ids@, requests@),
        keys_of_requests(keys@, ids@, requests@),
    ensures
        edges_of_requests(emap@, ids@, requests@, packages@, edges@),
{
    let mut emap: Vec<(usize, usize)> = Vec::new();
    let mut k: usize = 0;
    while k < edges.len()
        invariant
            k <= edges@.len(),
            ids_of_requests(ids@, requests@),
            keys_of_requests(keys@, ids@, requests@),
            forall|e: int| 0 <= e < emap@.len() ==> stands_for_edge(#[trigger] emap@[e], ids@, requests@, packages@, edges@),
            forall|kk: int| 0 <= kk < k ==> edge_kept(#[trigger] edges@[kk], emap@, ids@, requests@, packages@),
        decreases edges@.len() - k,
    {
        let from = lookup_record(requests, ids, keys, packages, edges[k].from_package_id.as_str());
        let to = lookup_record(requests, ids, keys, packages, edges[k].to_package_id.as_str());
        let ghost old_e = emap@;
        match (from, to) {
            (Some(f), Some(t)) => {
                emap.push((f, t));
                proof {
                    assert(emap@[old_e.len() as int] == (f, t));
                    assert(edge_ends(requests@, packages@, edges@[k as int]) == Some((ids@[f as int]@, ids@[t as int]@)));
                    assert(stands_for_edge((f, t), ids@, requests@, packages@, edges@));
                    assert forall|e: int| 0 <= e < emap@.len() implies stands_for_edge(#[trigger] emap@[e], ids@, requests@, packages@, edges@) by {
                        if e < old_e.len() {
                            assert(emap@[e] == old_e[e]);
                        }
                    }
                    assert forall|kk: int| 0 <= kk < k + 1 implies edge_kept(#[trigger] edges@[kk], emap@, ids@, requests@, packages@) by {
                        if kk < k {
                            assert(edge_kept(edges@[kk], old_e, ids@, requests@, packages@));
                            if let Some((a, b)) = edge_ends(requests@, packages@, edges@[kk]) {
                                let w = choose|e: int| 0 <= e < old_e.len() && ids@[(#[trigger] old_e[e]).0 as int]@ == a && ids@[old_e[e].1 as int]@ == b;
                                assert(emap@[w] == old_e[w]);
                            }
                        } else {
                            assert(emap@[old_e.len() as int] == (f, t));
                        }
                    }
                }
            },
            _ => {
                proof {
                    assert(edge_ends(requests@, packages@, edges@[k as int]) is None);
                }
            },
        }
        k = k + 1;
    }
    emap
}

/// Some request with the id `s`.
pub open spec fn request_with_id(reqs: Seq<PublishRequest>, s: Seq<char>) -> int {
    choose|i: int| 0 <= i < reqs.len() && (#[trigger] reqs[i]).package_id@ == s
}

/// Some position of the string with view `s` among `ids`.
pub open spec fn id_position(ids: Seq<String>, s: Seq<char>) -> int {
    choose|k: int| 0 <= k < ids.len() && (#[trigger] ids[k])@ == s
}

/// There are no more distinct request ids than requests.
pub proof fn lemma_ids_at_most_requests(ids: Seq<String>, reqs: Seq<PublishRequest>)
    requires
        ids_of_requests(ids, reqs),
        reqs.len() <= usize::MAX,
    ensures
        ids.len() <= reqs.len(),
{
    let owner = Seq::new(ids.len(), |k: int| request_with_id(reqs, ids[k]@) as usize);
    assert forall|k: int| 0 <= k < ids.len() implies
        0 <= #[trigger] request_with_id(reqs, ids[k]@) < reqs.len() && reqs[request_with_id(reqs, ids[k]@)].package_id@ == ids[k]@ by {
        assert(holds_view(ids, ids[k]@));
    }
    assert forall|a: int| 0 <= a < owner.len() implies owner[a] < reqs.len() by {
        assert(0 <= request_with_id(reqs, ids[a]@) < reqs.len());
    }
    assert forall|a: int, b: int| 0 <= a < owner.len() && 0 <= b < owner.len() && a != b implies owner[a] != owner[b] by {
        assert(0 <= request_with_id(reqs, ids[a]@) < reqs.len());
        assert(0 <= request_with_id(reqs, ids[b]@) < reqs.len());
        if owner[a] == owner[b] {
            lemma_increasing_distinct(ids, a, b);
        }
    }
    lemma_distinct_below(owner, reqs.len() as usize);
}

/// Every position among the ids is the key of some request.
pub proof fn lemma_keys_cover(keys: Seq<usize>, ids: Seq<String>, reqs: Seq<PublishRequest>)
    requires
        ids_of_requests(ids, reqs),
        keys_of_requests(keys, ids, reqs),
        ids.len() <= usize::MAX,
    ensures
        forall|x: usize| x < ids.len() ==> keys.contains(x),
{
    assert forall|x: usize| x < ids.len() implies keys.contains(x) by {
        assert(holds_view(ids, ids[x as int]@));
        let i = choose|i: int| 0 <= i < reqs.len() && (#[trigger] reqs[i]).package_id@ == ids[x as int]@;
        assert(keys[i] < ids.len());
        lemma_increasing_distinct(ids, keys[i] as int, x as int);
    }
}

/// With distinct ids the keys are distinct.
pub proof fn lemma_unique_keys(keys: Seq<usize>, ids: Seq<String>, reqs: Seq<PublishRequest>)
    requires
        keys_of_requests(keys, ids, reqs),
        unique_ids(reqs),
    ensures
        keys.no_duplicates(),
{
    assert forall|i: int, j: int| 0 <= i < keys.len() && 0 <= j < keys.len() && i != j implies keys[i] != keys[j] by {
        if keys[i] == keys[j] {
            assert(reqs[i].package_id@ == reqs[j].package_id@);
        }
    }
}

/// When the order of the ids leaves one out, the requests have a repeated id
/// or no reordering puts every dependency first.
pub proof fn lemma_short_order(
    reqs: Seq<PublishRequest>,
    pkgs: Seq<PackageRecord>,
    edges: Seq<DependencyEdge>,
    ids: Seq<String>,
    keys: Seq<usize>,
    emap: Seq<(usize, usize)>,
    q: Seq<usize>,
)
    requires
        reqs.len() <= usize::MAX,
        ids_of_requests(ids, reqs),
        keys_of_requests(keys, ids, reqs),
        edges_of_requests(emap, ids, reqs, pkgs, edges),
        q.no_duplicates(),
        forall|i: int| 0 <= i < q.len() ==> q[i] < ids.len(),
        left_out_blocked(q, emap, ids.len() as usize),
        q.len() != reqs.len(),
    ensures
        !(unique_ids(reqs) && orderable(reqs, pkgs, edges)),
{
    broadcast use vstd::seq_lib::group_to_multiset_ensures;

    if unique_ids(reqs) && orderable(reqs, pkgs, edges) {
        let m = ids.len() as usize;
        lemma_ids_at_most_requests(ids, reqs);
        lemma_unique_keys(keys, ids, reqs);
        assert forall|i: int| 0 <= i < keys.len() implies keys[i] < m by {}
        lemma_distinct_below(keys, m);
        lemma_keys_cover(keys, ids, reqs);
        let order = choose|order: Seq<PublishRequest>| order.to_multiset() == reqs.to_multiset() && dependencies_first(order, reqs, pkgs, edges);
        assert forall|p: int| 0 <= p < order.len() implies reqs.contains(#[trigger] order[p]) by {
            assert(order.contains(order[p]));
            assert(order.to_multiset().count(order[p]) > 0);
            assert(reqs.to_multiset().count(order[p]) > 0);
        }
        let iorder = Seq::new(order.len(), |p: int| id_position(ids, order[p].package_id@) as usize);
        assert forall|p: int| 0 <= p < order.len() implies
            0 <= #[trigger] id_position(ids, order[p].package_id@) < ids.len() && ids[id_position(ids, order[p].package_id@)]@ == order[p].package_id@ by {
            assert(reqs.contains(order[p]));
            let i = choose|i: int| 0 <= i < reqs.len() && reqs[i] == order[p];
            assert(has_request_id(reqs, order[p].package_id@));
            assert(holds_view(ids, order[p].package_id@));
        }
        assert forall|x: usize| x < m implies iorder.contains(x) by {
            assert(keys.contains(x));
            let i = choose|i: int| 0 <= i < keys.len() && keys[i] == x;
            assert(reqs.contains(reqs[i]));
            assert(reqs.to_multiset().count(reqs[i]) > 0);
            assert(order.to_multiset().count(reqs[i]) > 0);
            assert(order.contains(reqs[i]));
            let p = choose|p: int| 0 <= p < order.len() && order[p] == reqs[i];
            lemma_increasing_distinct(ids, iorder[p] as int, x as int);
            assert(iorder[p] == x);
        }
        assert forall|e: int| 0 <= e < emap.len() implies (#[trigger] emap[e]).0 < m && emap[e].1 < m by {
            assert(stands_for_edge(emap[e], ids, reqs, pkgs, edges));
        }
        assert forall|i: int, e: int|
            0 <= i < iorder.len() && 0 <= e < emap.len() && #[trigger] emap[e].0 == #[trigger] iorder[i]
            implies exists|j: int| 0 <= j < i && iorder[j] == emap[e].1 by {
            assert(stands_for_edge(emap[e], ids, reqs, pkgs, edges));
            let k = choose|k: int|
                0 <= k < edges.len() && edge_ends(reqs, pkgs, #[trigger] edges[k]) == Some((ids[emap[e].0 as int]@, ids[emap[e].1 as int]@));
            let t = emap[e].1;
            assert(keys.contains(t));
            let r = choose|r: int| 0 <= r < keys.len() && keys[r] == t;
            assert(reqs.contains(reqs[r]));
            assert(reqs.to_multiset().count(reqs[r]) > 0);
            assert(order.to_multiset().count(reqs[r]) > 0);
            assert(order.contains(reqs[r]));
            let j = choose|j: int| 0 <= j < order.len() && order[j] == reqs[r];
            assert(order[i].package_id@ == ids[emap[e].0 as int]@);
            assert(order[j].package_id@ == ids[t as int]@);
            assert(edge_ends(reqs, pkgs, edges[k]) == Some((order[i].package_id@, order[j].package_id@)));
            lemma_increasing_distinct(ids, iorder[j] as int, t as int);
        }
        lemma_orderable_leaves_none_out(q, emap, m, iorder);
        lemma_covering_len(q, m);
        lemma_distinct_below(q, m);
    }
}

/// When the order of the ids holds one entry per request, the ids are distinct
/// and the order holds every id.
pub proof fn lemma_full_order(
    reqs: Seq<PublishRequest>,
    ids: Seq<String>,
    keys: Seq<usize>,
    q: Seq<usize>,
)
    requires
        reqs.len() <= usize::MAX,
        ids_of_requests(ids, reqs),
        keys_of_requests(keys, ids, reqs),
        q.no_duplicates(),
        forall|i: int| 0 <= i < q.len() ==> q[i] < ids.len(),
        q.len() == reqs.len(),
    ensures
        ids.len() == reqs.len(),
        forall|x: usize| x < ids.len() ==> q.contains(x),
        unique_ids(reqs),
        keys.no_duplicates(),
{
    let m = ids.len() as usize;
    lemma_ids_at_most_requests(ids, reqs);
    lemma_distinct_below(q, m);
    lemma_distinct_full(q, m);
    lemma_keys_cover(keys, ids, reqs);
    assert forall|i: int, j: int| 0 <= i < reqs.len() && 0 <= j < reqs.len() && i != j
        implies (#[trigger] reqs[i]).package_id@ != (#[trigger] reqs[j]).package_id@ by {
        if reqs[i].package_id@ == reqs[j].package_id@ {
            lemma_increasing_distinct(ids, keys[i] as int, keys[j] as int);
            let t = keys.remove(j);
            assert forall|x: usize| x < m implies t.contains(x) by {
                assert(keys.contains(x));
                let w = choose|w: int| 0 <= w < keys.len() && keys[w] == x;
                let w2 = if w == j { i } else { w };
                assert(keys[w2] == x);
                if w2 < j {
                    assert(t[w2] == x);
                } else {
                    assert(t[w2 - 1] == x);
                }
            }
            lemma_covering_len(t, m);
        }
    }
    lemma_unique_keys(keys, ids, reqs);
}

/// Reorders the publish requests so that each request follows the requests of
/// the packages it depends on (Kahn's algorithm over the request ids, roots in
/// increasing id order). The edges are given by record id; a record id stands
/// for a request id as `record_target` says. Requests that repeat a package id,
/// or whose dependencies form a cycle, are left in their original order.
pub fn sort_requests_by_dependencies(
    requests: &mut Vec<PublishRequest>,
    packages: &[PackageRecord],
    edges: &[DependencyEdge],
)
    ensures
        final(requests)@.to_multiset() == old(requests)@.to_multiset(),
        unique_ids(old(requests)@) && orderable(old(requests)@, packages@, edges@)
            ==> dependencies_first(final(requests)@, old(requests)@, packages@, edges@),
        !(unique_ids(old(requests)@) && orderable(old(requests)@, packages@, edges@))
            ==> final(requests)@ == old(requests)@,
{
    broadcast use vstd::seq_lib::group_to_multiset_ensures;

    let ghost orig = requests@;
    let ids = sorted_request_ids(requests);
    let keys = request_keys(requests, &ids);
    let emap = build_edge_map(requests, &ids, &keys, packages, edges);
    proof {
        assert forall|e: int| 0 <= e < emap@.len() implies (#[trigger] emap@[e]).0 < ids@.len() && emap@[e].1 < ids@.len() by {
            assert(stands_for_edge(emap@[e], ids@, orig, packages@, edges@));
        }
    }
    let q = dependency_order(ids.len(), emap.as_slice());
    if q.len() != requests.len() {
        proof {
            lemma_short_order(orig, packages@, edges@, ids@, keys@, emap@, q@);
        }
        return;
    }
    proof {
        lemma_full_order(orig, ids@, keys@, q@);
    }
    let mut work: Vec<PublishRequest> = Vec::new();
    std::mem::swap(requests, &mut work);
    let mut wkeys = keys;
    let mut i: usize = 0;
    proof {
        assert(q@.take(0) =~= Seq::<usize>::empty());
        lemma_keys_cover(wkeys@, ids@, orig);
    }
    while i < q.len()
        invariant
            work@.len() == wkeys@.len(),
            ids@.len() == orig.len(),
            q@.len() == orig.len(),
            q@.no_duplicates(),
            forall|j: int| 0 <= j < q@.len() ==> q@[j] < ids@.len(),
            strictly_increasing(ids@),
            i <= q@.len(),
            requests@.len() == i,
            requests@.to_multiset().add(work@.to_multiset()) == orig.to_multiset(),
            forall|t: int| 0 <= t < work@.len() ==> (#[trigger] wkeys@[t]) < ids@.len() && ids@[wkeys@[t] as int]@ == work@[t].package_id@,
            wkeys@.no_duplicates(),
            forall|x: usize| x < ids@.len() ==> (wkeys@.contains(x) <==> !q@.take(i as int).contains(x)),
            forall|a: int| 0 <= a < i ==> (#[trigger] requests@[a]).package_id@ == ids@[q@[a] as int]@,
        decreases q@.len() - i,
    {
        let target = q[i];
        proof {
            assert(!q@.take(i as int).contains(target)) by {
                if q@.take(i as int).contains(target) {
                    let w = choose|j: int| 0 <= j < i && q@.take(i as int)[j] == target;
                    assert(q@[w] == q@[i as int]);
                }
            }
            assert(wkeys@.contains(target));
        }
        let mut j: usize = 0;
        while j < wkeys.len() && wkeys[j] != target
            invariant
                j <= wkeys@.len(),
                wkeys@.contains(target),
                forall|t: int| 0 <= t < j ==> wkeys@[t] != target,
            decreases wkeys@.len() - j,
        {
            j = j + 1;
        }
        if j == wkeys.len() {
            proof {
                let w = choose|t: int| 0 <= t < wkeys@.len() && wkeys@[t] == target;
            }
            assert(false);
        }
        let ghost old_work = work@;
        let ghost old_wkeys = wkeys@;
        let ghost old_req = requests@;
        let r = work.remove(j);
        wkeys.remove(j);
        requests.push(r);
        proof {
            vstd::seq_lib::to_multiset_remove(old_work, j as int);
            vstd::seq_lib::to_multiset_build(old_req, old_work[j as int]);
            assert(work@ == old_work.remove(j as int));
            assert(requests@ == old_req.push(old_work[j as int]));
            assert(old_work.contains(old_work[j as int]));
            vstd::seq_lib::to_multiset_contains(old_work, old_work[j as int]);
            assert(requests@.to_multiset().add(work@.to_multiset()) =~= orig.to_multiset());
            assert forall|t: int| 0 <= t < work@.len() implies (#[trigger] wkeys@[t]) < ids@.len() && ids@[wkeys@[t] as int]@ == work@[t].package_id@ by {
                if t < j {
                    assert(wkeys@[t] == old_wkeys[t] && work@[t] == old_work[t]);
                } else {
                    assert(wkeys@[t] == old_wkeys[t + 1] && work@[t] == old_work[t + 1]);
                }
            }
            assert(wkeys@.no_duplicates()) by {
                assert forall|a: int, b: int| 0 <= a < wkeys@.len() && 0 <= b < wkeys@.len() && a != b implies wkeys@[a] != wkeys@[b] by {
                    let oa = if a < j { a } else { a + 1 };
                    let ob = if b < j { b } else { b + 1 };
                    assert(wkeys@[a] == old_wkeys[oa] && wkeys@[b] == old_wkeys[ob]);
                }
            }
            let qa = q@.take(i + 1);
            let qb = q@.take(i as int);
            assert(qa =~= qb.push(target));
            assert(wkeys@ == old_wkeys.remove(j as int));
            assert(old_wkeys[j as int] == target);
            assert forall|x: usize| x < ids@.len() implies (wkeys@.contains(x) <==> !qa.contains(x)) by {
                assert(old_wkeys.contains(x) <==> !qb.contains(x));
                if wkeys@.contains(x) {
                    let w = choose|t: int| 0 <= t < wkeys@.len() && wkeys@[t] == x;
                    let ow = if w < j { w } else { w + 1 };
                    assert(old_wkeys[ow] == x);
                    assert(ow != j);
                    assert(x != target);
                    if qa.contains(x) {
                        let z = choose|t: int| 0 <= t < qa.len() && qa[t] == x;
                        if z < i {
                            assert(qb[z] == x);
                        }
                    }
                } else {
                    if x != target && !qb.contains(x) {
                        assert(old_wkeys.contains(x));
                        let w = choose|t: int| 0 <= t < old_wkeys.len() && old_wkeys[t] == x;
                        if w < j {
                            assert(wkeys@[w] == x);
                        } else {
                            assert(wkeys@[w - 1] == x);
                        }
                    }
                    if x == target {
                        assert(qa[i as int] == x);
                    } else if qb.contains(x) {
                        let z = choose|t: int| 0 <= t < qb.len() && qb[t] == x;
                        assert(qa[z] == x);
                    }
                }
            }
            assert forall|a: int| 0 <= a < i + 1 implies (#[trigger] requests@[a]).package_id@ == ids@[q@[a] as int]@ by {
                if a < i {
                    assert(requests@[a] == old_req[a]);
                }
            }
        }
        i = i + 1;
    }
    proof {
        assert(work@.len() == 0) by {
            if work@.len() > 0 {
                assert(wkeys@.contains(wkeys@[0]));
                assert(q@.take(i as int) =~= q@);
                assert(q@.contains(wkeys@[0]));
            }
        }
        assert(work@.to_multiset() =~= Multiset::empty());
        assert(requests@.to_multiset() =~= orig.to_multiset());
        lemma_sorted_respects(requests@, orig, packages@, edges@, ids@, emap@, q@);
    }
}

proof fn lemma_sorted_respects(
    out: Seq<PublishRequest>,
    reqs: Seq<PublishRequest>,
    pkgs: Seq<PackageRecord>,
    edges: Seq<DependencyEdge>,
    ids: Seq<String>,
    emap: Seq<(usize, usize)>,
    q: Seq<usize>,
)
    requires
        strictly_increasing(ids),
        edges_of_requests(emap, ids, reqs, pkgs, edges),
        q.no_duplicates(),
        q.len() == out.len(),
        forall|j: int| 0 <= j < q.len() ==> q[j] < ids.len(),
        forall|a: int| 0 <= a < out.len() ==> (#[trigger] out[a]).package_id@ == ids[q[a] as int]@,
        targets_first(q, emap),
        out.to_multiset() == reqs.to_multiset(),
    ensures
        dependencies_first(out, reqs, pkgs, edges),
        orderable(reqs, pkgs, edges),
{
    assert forall|k: int, i: int, j: int|
        #![trigger edges[k], out[i], out[j]]
        0 <= k < edges.len() && 0 <= i < out.len() && 0 <= j < out.len()
            && edge_ends(reqs, pkgs, edges[k]) == Some((out[i].package_id@, out[j].package_id@))
        implies j < i by {
        assert(edge_kept(edges[k], emap, ids, reqs, pkgs));
        let e = choose|e: int| 0 <= e < emap.len() && ids[(#[trigger] emap[e]).0 as int]@ == out[i].package_id@ && ids[emap[e].1 as int]@ == out[j].package_id@;
        assert(stands_for_edge(emap[e], ids, reqs, pkgs, edges));
        lemma_increasing_distinct(ids, emap[e].0 as int, q[i] as int);
        lemma_increasing_distinct(ids, emap[e].1 as int, q[j] as int);
        assert(emap[e].0 == q[i]);
        let jj = choose|jj: int| 0 <= jj < i && q[jj] == emap[e].1;
        assert(q[jj] == q[j]);
    }
    assert(dependencies_first(out, reqs, pkgs, edges));
}

} // verus!
