use vstd::prelude::*;

use crate::text::{lemma_lex_asymmetric, lemma_lex_irreflexive, lemma_lex_total, lemma_lex_transitive, lex_less, lex_lt, str_eq};

verus! {

broadcast use vstd::string::group_string_axioms;

/// One entry of a version table: a name (a package id, a package name or a
/// group id) with a version.
pub struct VersionEntry {
    pub name: String,
    pub version: String,
}

/// The version of `name` in a table: that of its last entry, as a map built
/// from the entries in order keeps it.
pub open spec fn lookup_version(t: Seq<VersionEntry>, name: Seq<char>) -> Option<Seq<char>>
    decreases t.len(),
{
    if t.len() == 0 {
        None
    } else if t.last().name@ == name {
        Some(t.last().version@)
    } else {
        lookup_version(t.drop_last(), name)
    }
}

/// The names of the table strictly increase, so that each occurs once.
pub open spec fn names_increasing(t: Seq<VersionEntry>) -> bool {
    forall|i: int, j: int| 0 <= i < j < t.len() ==> lex_lt(#[trigger] t[i].name@, #[trigger] t[j].name@)
}

/// In a table whose names increase, a name's version is that of its one entry.
pub proof fn lemma_lookup_increasing(t: Seq<VersionEntry>, name: Seq<char>)
    requires
        names_increasing(t),
    ensures
        lookup_version(t, name) is Some <==> exists|i: int| 0 <= i < t.len() && (#[trigger] t[i]).name@ == name,
        forall|i: int| 0 <= i < t.len() && (#[trigger] t[i]).name@ == name ==> lookup_version(t, name) == Some(t[i].version@),
    decreases t.len(),
{
    if t.len() > 0 {
        let s = t.drop_last();
        assert(names_increasing(s)) by {
            assert forall|i: int, j: int| 0 <= i < j < s.len() implies lex_lt(#[trigger] s[i].name@, #[trigger] s[j].name@) by {
                assert(s[i] == t[i] && s[j] == t[j]);
            }
        }
        lemma_lookup_increasing(s, name);
        if t.last().name@ == name {
            assert forall|i: int| 0 <= i < t.len() && (#[trigger] t[i]).name@ == name implies lookup_version(t, name) == Some(t[i].version@) by {
                if i < t.len() - 1 {
                    assert(lex_lt(t[i].name@, t[t.len() - 1].name@));
                    lemma_lex_irreflexive(name);
                }
            }
            assert(t[t.len() - 1].name@ == name);
        } else {
            assert forall|i: int| 0 <= i < t.len() && (#[trigger] t[i]).name@ == name implies lookup_version(t, name) == Some(t[i].version@) by {
                assert(i < t.len() - 1);
                assert(s[i] == t[i]);
            }
            if exists|i: int| 0 <= i < t.len() && (#[trigger] t[i]).name@ == name {
                let i = choose|i: int| 0 <= i < t.len() && (#[trigger] t[i]).name@ == name;
                assert(s[i] == t[i]);
            }
            if exists|i: int| 0 <= i < s.len() && (#[trigger] s[i]).name@ == name {
                let i = choose|i: int| 0 <= i < s.len() && (#[trigger] s[i]).name@ == name;
                assert(s[i] == t[i]);
            }
        }
    }
}

/// The version of `name` in a table (see `lookup_version`).
pub fn find_version(t: &[VersionEntry], name: &str) -> (r: Option<String>)
    ensures
        match r {
            Some(v) => lookup_version(t@, name@) == Some(v@),
            None => lookup_version(t@, name@) is None,
        },
{
    let mut i: usize = t.len();
    assert(t@.take(i as int) =~= t@);
    while i > 0
        invariant
            i <= t@.len(),
            lookup_version(t@, name@) == lookup_version(t@.take(i as int), name@),
        decreases i,
    {
        proof {
            assert(t@.take(i as int).drop_last() =~= t@.take(i - 1));
            assert(t@.take(i as int).last() == t@[i - 1]);
        }
        if str_eq(t[i - 1].name.as_str(), name) {
            return Some(t[i - 1].version.clone());
        }
        i = i - 1;
    }
    None
}

/// Sets the version of `name` in a table whose names increase, keeping them increasing.
pub fn set_version(t: &mut Vec<VersionEntry>, name: String, version: String)
    requires
        names_increasing(old(t)@),
    ensures
        names_increasing(final(t)@),
        forall|k: Seq<char>| #[trigger] lookup_version(final(t)@, k)
            == if k == name@ { Some(version@) } else { lookup_version(old(t)@, k) },
{
    let ghost old_t = t@;
    let mut p: usize = 0;
    while p < t.len() && lex_less(t[p].name.as_str(), name.as_str())
        invariant
            p <= t@.len(),
            t@ == old_t,
            forall|i: int| 0 <= i < p ==> lex_lt(#[trigger] t@[i].name@, name@),
        decreases t@.len() - p,
    {
        p = p + 1;
    }
    if p < t.len() && str_eq(t[p].name.as_str(), name.as_str()) {
        let ghost np = name@;
        let ghost vp = version@;
        t.set(p, VersionEntry { name, version });
        assert forall|i: int, j: int| 0 <= i < j < t@.len() implies lex_lt(#[trigger] t@[i].name@, #[trigger] t@[j].name@) by {
            assert(lex_lt(old_t[i].name@, old_t[j].name@));
        }
        assert forall|k: Seq<char>| #[trigger] lookup_version(t@, k)
            == if k == np { Some(vp) } else { lookup_version(old_t, k) } by {
            lemma_lookup_increasing(t@, k);
            lemma_lookup_increasing(old_t, k);
            if k == np {
                assert(t@[p as int].name@ == k);
            } else {
                if exists|i: int| 0 <= i < t@.len() && (#[trigger] t@[i]).name@ == k {
                    let i = choose|i: int| 0 <= i < t@.len() && (#[trigger] t@[i]).name@ == k;
                    assert(i != p);
                    assert(old_t[i] == t@[i]);
                }
                if exists|i: int| 0 <= i < old_t.len() && (#[trigger] old_t[i]).name@ == k {
                    let i = choose|i: int| 0 <= i < old_t.len() && (#[trigger] old_t[i]).name@ == k;
                    assert(i != p);
                    assert(old_t[i] == t@[i]);
                }
            }
        }
    } else {
        let ghost np = name@;
        let ghost vp = version@;
        proof {
            if p < old_t.len() {
                lemma_lex_total(old_t[p as int].name@, np);
            }
        }
        t.insert(p, VersionEntry { name, version });
        assert forall|i: int, j: int| 0 <= i < j < t@.len() implies lex_lt(#[trigger] t@[i].name@, #[trigger] t@[j].name@) by {
            if j < p {
                assert(t@[i] == old_t[i] && t@[j] == old_t[j]);
            } else if j == p {
                assert(t@[i] == old_t[i]);
            } else if i == p {
                assert(t@[j] == old_t[j - 1]);
                if j - 1 > p {
                    assert(lex_lt(old_t[p as int].name@, old_t[j - 1].name@));
                    lemma_lex_transitive(np, old_t[p as int].name@, old_t[j - 1].name@);
                }
            } else if i < p {
                assert(t@[i] == old_t[i] && t@[j] == old_t[j - 1]);
                if j - 1 >= p {
                    if j - 1 > p {
                        assert(lex_lt(old_t[p as int].name@, old_t[j - 1].name@));
                        lemma_lex_transitive(np, old_t[p as int].name@, old_t[j - 1].name@);
                    }
                    lemma_lex_transitive(old_t[i].name@, np, old_t[j - 1].name@);
                }
            } else {
                assert(t@[i] == old_t[i - 1] && t@[j] == old_t[j - 1]);
            }
        }
        assert forall|k: Seq<char>| #[trigger] lookup_version(t@, k)
            == if k == np { Some(vp) } else { lookup_version(old_t, k) } by {
            lemma_lookup_increasing(t@, k);
            lemma_lookup_increasing(old_t, k);
            if k == np {
                assert(t@[p as int].name@ == k);
            } else {
                if exists|i: int| 0 <= i < t@.len() && (#[trigger] t@[i]).name@ == k {
                    let i = choose|i: int| 0 <= i < t@.len() && (#[trigger] t@[i]).name@ == k;
                    if i < p {
                        assert(old_t[i] == t@[i]);
                    } else {
                        assert(i != p);
                        assert(old_t[i - 1] == t@[i]);
                    }
                }
                if exists|i: int| 0 <= i < old_t.len() && (#[trigger] old_t[i]).name@ == k {
                    let i = choose|i: int| 0 <= i < old_t.len() && (#[trigger] old_t[i]).name@ == k;
                    if i < p {
                        assert(old_t[i] == t@[i]);
                    } else {
                        assert(old_t[i] == t@[i + 1]);
                    }
                }
            }
        }
    }
}

} // verus!
