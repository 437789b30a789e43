use vstd::prelude::*;

use crate::error::MonochangeError;
use crate::path_order::{lemma_parts_order, lemma_parts_transitive, path_eq, path_less, path_lt, path_parts, path_same};
use crate::paths::{join_path, path_join};
use crate::text::push_str;

verus! {

broadcast use vstd::string::group_string_axioms;

/// The content kept for a file: its path (relative to the workspace root, or
/// absolute) and what it holds.
pub struct PathEntry<T> {
    pub path: String,
    pub content: T,
}

/// A file update: a path and the file's new bytes.
pub type FileUpdate = PathEntry<Vec<u8>>;

/// The text of a file as later updates start from it.
pub type SeededText = PathEntry<String>;

/// `String::from_utf8`: the text the bytes encode when they are valid UTF-8,
/// else the rendered error (its wording is not stated).
#[verifier::external_body]
fn utf8_text(bytes: Vec<u8>) -> (r: Result<String, String>)
    ensures
        match r {
            Ok(s) => vstd::utf8::valid_utf8(bytes@) && s@ == vstd::utf8::decode_utf8(bytes@),
            Err(_) => !vstd::utf8::valid_utf8(bytes@),
        },
{
    String::from_utf8(bytes).map_err(|error| error.to_string())
}

/// The paths of the table strictly increase in path order.
pub open spec fn entries_increasing<T>(t: Seq<PathEntry<T>>) -> bool {
    forall|i: int, j: int| 0 <= i < j < t.len() ==> path_lt(#[trigger] t[i].path@, #[trigger] t[j].path@)
}

/// The content of the last entry whose path equals `p` as a path.
pub open spec fn lookup_entry<T>(t: Seq<PathEntry<T>>, p: Seq<char>) -> Option<T>
    decreases t.len(),
{
    if t.len() == 0 {
        None
    } else if path_eq(t.last().path@, p) {
        Some(t.last().content)
    } else {
        lookup_entry(t.drop_last(), p)
    }
}

/// The text of an optional string.
pub open spec fn text_view(o: Option<String>) -> Option<Seq<char>> {
    match o {
        Some(s) => Some(s@),
        None => None,
    }
}

/// The bytes of an optional byte vector.
pub open spec fn bytes_view(o: Option<Vec<u8>>) -> Option<Seq<u8>> {
    match o {
        Some(b) => Some(b@),
        None => None,
    }
}

proof fn lemma_lookup_entry_increasing<T>(t: Seq<PathEntry<T>>, p: Seq<char>)
    requires
        entries_increasing(t),
    ensures
        lookup_entry(t, p) is Some <==> exists|i: int| 0 <= i < t.len() && path_eq((#[trigger] t[i]).path@, p),
        forall|i: int| 0 <= i < t.len() && path_eq((#[trigger] t[i]).path@, p) ==> lookup_entry(t, p) == Some(t[i].content),
    decreases t.len(),
{
    if t.len() > 0 {
        let s = t.drop_last();
        assert(entries_increasing(s)) by {
            assert forall|i: int, j: int| 0 <= i < j < s.len() implies path_lt(#[trigger] s[i].path@, #[trigger] s[j].path@) by {
                assert(s[i] == t[i] && s[j] == t[j]);
            }
        }
        lemma_lookup_entry_increasing(s, p);
        let last = t.len() - 1;
        if path_eq(t[last].path@, p) {
            assert forall|i: int| 0 <= i < t.len() && path_eq((#[trigger] t[i]).path@, p) implies lookup_entry(t, p) == Some(t[i].content) by {
                if i < last {
                    assert(path_lt(t[i].path@, t[last].path@));
                    lemma_parts_order(path_parts(t[i].path@), path_parts(t[last].path@));
                }
            }
        } else {
            assert forall|i: int| 0 <= i < t.len() && path_eq((#[trigger] t[i]).path@, p) implies lookup_entry(t, p) == Some(t[i].content) by {
                assert(i < last);
                assert(s[i] == t[i]);
            }
            if exists|i: int| 0 <= i < t.len() && path_eq((#[trigger] t[i]).path@, p) {
                let i = choose|i: int| 0 <= i < t.len() && path_eq((#[trigger] t[i]).path@, p);
                assert(s[i] == t[i]);
            }
            if exists|i: int| 0 <= i < s.len() && path_eq((#[trigger] s[i]).path@, p) {
                let i = choose|i: int| 0 <= i < s.len() && path_eq((#[trigger] s[i]).path@, p);
                assert(s[i] == t[i]);
            }
        }
    }
}

/// Sets the content kept for `path` (equal paths are one file), keeping the
/// paths in order; an entry already there keeps its path and takes the content.
pub fn set_path_entry<T>(t: &mut Vec<PathEntry<T>>, path: String, content: T)
    requires
        entries_increasing(old(t)@),
    ensures
        entries_increasing(final(t)@),
        forall|p: Seq<char>| #[trigger] lookup_entry(final(t)@, p)
            == if path_eq(path@, p) { Some(content) } else { lookup_entry(old(t)@, p) },
        forall|k: int| 0 <= k < final(t)@.len() ==> (#[trigger] final(t)@[k]).path@ == path@
            || exists|j: int| 0 <= j < old(t)@.len() && (#[trigger] old(t)@[j]).path@ == final(t)@[k].path@,
{
    let ghost old_t = t@;
    let mut k: usize = 0;
    while k < t.len() && path_less(t[k].path.as_str(), path.as_str())
        invariant
            k <= t@.len(),
            t@ == old_t,
            forall|i: int| 0 <= i < k ==> path_lt(#[trigger] t@[i].path@, path@),
        decreases t@.len() - k,
    {
        k = k + 1;
    }
    let ghost np = path@;
    let ghost cv = content;
    if k < t.len() && path_same(t[k].path.as_str(), path.as_str()) {
        let kept = t[k].path.clone();
        t.set(k, PathEntry { path: kept, content });
        assert forall|i: int| 0 <= i < t@.len() implies (#[trigger] t@[i]).path@ == np
            || exists|j: int| 0 <= j < old_t.len() && (#[trigger] old_t[j]).path@ == t@[i].path@ by {
            assert(old_t[i].path@ == t@[i].path@);
        }
        assert forall|i: int, j: int| 0 <= i < j < t@.len() implies path_lt(#[trigger] t@[i].path@, #[trigger] t@[j].path@) by {
            assert(path_lt(old_t[i].path@, old_t[j].path@));
        }
        assert forall|p: Seq<char>| #[trigger] lookup_entry(t@, p)
            == if path_eq(np, p) { Some(cv) } else { lookup_entry(old_t, p) } by {
            lemma_lookup_entry_increasing(t@, p);
            lemma_lookup_entry_increasing(old_t, p);
            if path_eq(np, p) {
                assert(path_eq(t@[k as int].path@, p));
            } else {
                if exists|i: int| 0 <= i < t@.len() && path_eq((#[trigger] t@[i]).path@, p) {
                    let i = choose|i: int| 0 <= i < t@.len() && path_eq((#[trigger] t@[i]).path@, p);
                    assert(i != k);
                    assert(old_t[i] == t@[i]);
                }
                if exists|i: int| 0 <= i < old_t.len() && path_eq((#[trigger] old_t[i]).path@, p) {
                    let i = choose|i: int| 0 <= i < old_t.len() && path_eq((#[trigger] old_t[i]).path@, p);
                    assert(i != k);
                    assert(old_t[i] == t@[i]);
                }
            }
        }
    } else {
        proof {
            if k < old_t.len() {
                lemma_parts_order(path_parts(old_t[k as int].path@), path_parts(np));
            }
        }
        t.insert(k, PathEntry { path, content });
        assert forall|i: int| 0 <= i < t@.len() implies (#[trigger] t@[i]).path@ == np
            || exists|j: int| 0 <= j < old_t.len() && (#[trigger] old_t[j]).path@ == t@[i].path@ by {
            if i < k {
                assert(old_t[i].path@ == t@[i].path@);
            } else if i > k {
                assert(old_t[i - 1].path@ == t@[i].path@);
            }
        }
        assert forall|i: int, j: int| 0 <= i < j < t@.len() implies path_lt(#[trigger] t@[i].path@, #[trigger] t@[j].path@) by {
            if j < k {
                assert(t@[i] == old_t[i] && t@[j] == old_t[j]);
            } else if j == k {
                assert(t@[i] == old_t[i]);
            } else if i == k {
                assert(t@[j] == old_t[j - 1]);
                if j - 1 > k {
                    assert(path_lt(old_t[k as int].path@, old_t[j - 1].path@));
                    lemma_parts_transitive(path_parts(np), path_parts(old_t[k as int].path@), path_parts(old_t[j - 1].path@));
                }
            } else if i < k {
                assert(t@[i] == old_t[i] && t@[j] == old_t[j - 1]);
                if j - 1 > k {
                    assert(path_lt(old_t[k as int].path@, old_t[j - 1].path@));
                    lemma_parts_transitive(path_parts(np), path_parts(old_t[k as int].path@), path_parts(old_t[j - 1].path@));
                }
                lemma_parts_transitive(path_parts(old_t[i].path@), path_parts(np), path_parts(old_t[j - 1].path@));
            } else {
                assert(t@[i] == old_t[i - 1] && t@[j] == old_t[j - 1]);
            }
        }
        assert forall|p: Seq<char>| #[trigger] lookup_entry(t@, p)
            == if path_eq(np, p) { Some(cv) } else { lookup_entry(old_t, p) } by {
            lemma_lookup_entry_increasing(t@, p);
            lemma_lookup_entry_increasing(old_t, p);
            if path_eq(np, p) {
                assert(path_eq(t@[k as int].path@, p));
            } else {
                if exists|i: int| 0 <= i < t@.len() && path_eq((#[trigger] t@[i]).path@, p) {
                    let i = choose|i: int| 0 <= i < t@.len() && path_eq((#[trigger] t@[i]).path@, p);
                    assert(i != k);
                    if i < k {
                        assert(old_t[i] == t@[i]);
                    } else {
                        assert(old_t[i - 1] == t@[i]);
                    }
                }
                if exists|i: int| 0 <= i < old_t.len() && path_eq((#[trigger] old_t[i]).path@, p) {
                    let i = choose|i: int| 0 <= i < old_t.len() && path_eq((#[trigger] old_t[i]).path@, p);
                    if i < k {
                        assert(old_t[i] == t@[i]);
                    } else {
                        assert(old_t[i] == t@[i + 1]);
                    }
                }
            }
        }
    }
}

/// The text seeded for path `p` by the first `n` updates: the decoded bytes
/// of the last one whose path, resolved against `root`, equals `p` as a path.
pub open spec fn seeded_text(root: Seq<char>, us: Seq<FileUpdate>, n: int, p: Seq<char>) -> Option<Seq<char>>
    decreases n,
{
    if n <= 0 || n > us.len() {
        None
    } else if path_eq(path_join(root, us[n - 1].path@), p) {
        Some(vstd::utf8::decode_utf8(us[n - 1].content@))
    } else {
        seeded_text(root, us, n - 1, p)
    }
}

/// The message for an update whose bytes are not text.
pub open spec fn seed_error_text(path: Seq<char>, cause: Seq<char>) -> Seq<char> {
    "failed to parse "@ + path + " as text: "@ + cause
}

/// The texts that later versioned-file updates start from: each earlier
/// update decoded as UTF-8 at its path resolved against `root`, one per file
/// (the last update of a file wins), in path order. The first update that is
/// not valid UTF-8 is a configuration error naming its path.
pub fn seed_text_updates(root: &str, base_updates: &[FileUpdate]) -> (r: Result<Vec<SeededText>, MonochangeError>)
    ensures
        match r {
            Ok(t) => {
                &&& forall|i: int| 0 <= i < base_updates@.len() ==> vstd::utf8::valid_utf8(#[trigger] base_updates@[i].content@)
                &&& entries_increasing(t@)
                &&& forall|p: Seq<char>| #[trigger] text_view(lookup_entry(t@, p)) == seeded_text(root@, base_updates@, base_updates@.len() as int, p)
            },
            Err(e) => exists|i: int| {
                &&& 0 <= i < base_updates@.len()
                &&& !vstd::utf8::valid_utf8(#[trigger] base_updates@[i].content@)
                &&& forall|j: int| 0 <= j < i ==> vstd::utf8::valid_utf8(#[trigger] base_updates@[j].content@)
                &&& e matches MonochangeError::Config(m) && exists|cause: Seq<char>| m@ == seed_error_text(base_updates@[i].path@, cause)
            },
        },
{
    let mut t: Vec<SeededText> = Vec::new();
    let mut i: usize = 0;
    while i < base_updates.len()
        invariant
            i <= base_updates@.len(),
            entries_increasing(t@),
            forall|j: int| 0 <= j < i ==> vstd::utf8::valid_utf8(#[trigger] base_updates@[j].content@),
            forall|p: Seq<char>| #[trigger] text_view(lookup_entry(t@, p)) == seeded_text(root@, base_updates@, i as int, p),
        decreases base_updates@.len() - i,
    {
        let update = &base_updates[i];
        match utf8_text(update.content.clone()) {
            Err(cause) => {
                let mut m = String::new();
                push_str(&mut m, "failed to parse ");
                push_str(&mut m, update.path.as_str());
                push_str(&mut m, " as text: ");
                push_str(&mut m, cause.as_str());
                proof {
                    reveal_strlit("failed to parse ");
                    reveal_strlit(" as text: ");
                    assert(m@ =~= seed_error_text(update.path@, cause@));
                }
                return Err(MonochangeError::Config(m));
            },
            Ok(contents) => {
                let resolved = join_path(root, update.path.as_str());
                let ghost before = t@;
                let ghost cv = contents;
                set_path_entry(&mut t, resolved, contents);
                assert forall|p: Seq<char>| #[trigger] text_view(lookup_entry(t@, p)) == seeded_text(root@, base_updates@, i + 1, p) by {
                    assert(lookup_entry(t@, p) == if path_eq(resolved@, p) { Some(cv) } else { lookup_entry(before, p) });
                }
            },
        }
        i = i + 1;
    }
    Ok(t)
}

/// The content left for path `p` by the first `n` writes: that of the last
/// one whose path, resolved against `root`, equals `p` as a path.
pub open spec fn written_content(root: Seq<char>, ws: Seq<FileUpdate>, n: int, p: Seq<char>) -> Option<Seq<u8>>
    decreases n,
{
    if n <= 0 || n > ws.len() {
        None
    } else if path_eq(path_join(root, ws[n - 1].path@), p) {
        Some(ws[n - 1].content@)
    } else {
        written_content(root, ws, n - 1, p)
    }
}

/// Some write's path, resolved against `root`, is `p`.
pub open spec fn written_path(root: Seq<char>, ws: Seq<FileUpdate>, p: Seq<char>) -> bool {
    exists|j: int| 0 <= j < ws.len() && p == path_join(root, (#[trigger] ws[j]).path@)
}

/// The file updates that a run of writes leaves: one per file, at its path
/// resolved against `root`, with the bytes of the last write to it, in path
/// order.
pub fn assemble_file_updates(root: &str, writes: Vec<FileUpdate>) -> (r: Vec<FileUpdate>)
    ensures
        entries_increasing(r@),
        forall|p: Seq<char>| #[trigger] bytes_view(lookup_entry(r@, p)) == written_content(root@, writes@, writes@.len() as int, p),
        forall|i: int| 0 <= i < r@.len() ==> written_path(root@, writes@, (#[trigger] r@[i]).path@),
{
    let ghost ws = writes@;
    let total = writes.len();
    let mut t: Vec<FileUpdate> = Vec::new();
    let mut rest = writes;
    let mut i: usize = 0;
    while rest.len() > 0
        invariant
            i + rest@.len() == ws.len(),
            total == ws.len(),
            rest@ == ws.skip(i as int),
            entries_increasing(t@),
            forall|p: Seq<char>| #[trigger] bytes_view(lookup_entry(t@, p)) == written_content(root@, ws, i as int, p),
            forall|k: int| 0 <= k < t@.len() ==> exists|j: int| 0 <= j < i
                && (#[trigger] t@[k]).path@ == path_join(root@, (#[trigger] ws[j]).path@),
        decreases rest@.len(),
    {
        let w = rest.remove(0);
        assert(w == ws[i as int]);
        let resolved = join_path(root, w.path.as_str());
        let ghost before = t@;
        let ghost cv = w.content;
        let ghost rv = resolved@;
        set_path_entry(&mut t, resolved, w.content);
        proof {
            assert forall|p: Seq<char>| #[trigger] bytes_view(lookup_entry(t@, p)) == written_content(root@, ws, i + 1, p) by {
                assert(lookup_entry(t@, p) == if path_eq(rv, p) { Some(cv) } else { lookup_entry(before, p) });
            }
            assert forall|k: int| 0 <= k < t@.len() implies exists|j: int| 0 <= j < i + 1
                && (#[trigger] t@[k]).path@ == path_join(root@, (#[trigger] ws[j]).path@) by {
                if t@[k].path@ == rv {
                    assert(rv == path_join(root@, ws[i as int].path@));
                } else {
                    let m = choose|m: int| 0 <= m < before.len() && (#[trigger] before[m]).path@ == t@[k].path@;
                    let j = choose|j: int| 0 <= j < i && (#[trigger] before[m]).path@ == path_join(root@, (#[trigger] ws[j]).path@);
                    assert(0 <= j < i + 1 && t@[k].path@ == path_join(root@, ws[j].path@));
                }
            }
        }
        assert(rest@ =~= ws.skip(i + 1));
        i = i + 1;
    }
    assert(i == ws.len());
    assert forall|k: int| 0 <= k < t@.len() implies written_path(root@, ws, (#[trigger] t@[k]).path@) by {
        let j = choose|j: int| 0 <= j < i && (#[trigger] t@[k]).path@ == path_join(root@, (#[trigger] ws[j]).path@);
        assert(0 <= j < ws.len() && t@[k].path@ == path_join(root@, ws[j].path@));
    }
    t
}

} // verus!
