use vstd::prelude::*;

use crate::text::{
    chars_of, count_until, index_of_from, lemma_count_until, lemma_lex_asymmetric, lemma_lex_irreflexive,
    lemma_lex_total, lemma_lex_transitive, lex_less, lex_lt, starts_with, str_eq, string_from_range,
};
use crate::versioned::split_pieces;

verus! {

broadcast use vstd::string::group_string_axioms;

/// A component of a path, as a rank and a text: the root (0), a leading `.`
/// (1), `..` (2), or a name (3, with its text). Components order by rank,
/// names by their text.
pub type PathPart = (nat, Seq<char>);

/// The components of one `/`-separated piece: none for an empty piece or `.`.
pub open spec fn piece_part(p: Seq<char>) -> Seq<PathPart> {
    if p.len() == 0 || p == "."@ {
        seq![]
    } else if p == ".."@ {
        seq![(2nat, Seq::<char>::empty())]
    } else {
        seq![(3nat, p)]
    }
}

/// The components of the pieces, in order.
pub open spec fn piece_parts(ps: Seq<Seq<char>>) -> Seq<PathPart>
    decreases ps.len(),
{
    if ps.len() == 0 {
        seq![]
    } else {
        piece_part(ps[0]) + piece_parts(ps.drop_first())
    }
}

/// The component a path starts with, if any: the root for an absolute path,
/// the current directory for `.` or a path starting with `./`.
pub open spec fn leading_part(s: Seq<char>) -> Seq<PathPart> {
    if s.len() > 0 && s[0] == '/' {
        seq![(0nat, Seq::<char>::empty())]
    } else if s == "."@ || starts_with(s, "./"@) {
        seq![(1nat, Seq::<char>::empty())]
    } else {
        seq![]
    }
}

/// The components of a path, as `Path::components` gives them on Unix:
/// separators repeated or trailing, and `.` after the start, add none.
pub open spec fn path_parts(s: Seq<char>) -> Seq<PathPart> {
    leading_part(s) + piece_parts(split_pieces(s, '/'))
}

/// One component sorts before another.
pub open spec fn part_lt(a: PathPart, b: PathPart) -> bool {
    a.0 < b.0 || (a.0 == b.0 && lex_lt(a.1, b.1))
}

/// Component lists in lexicographic order.
pub open spec fn parts_lt(a: Seq<PathPart>, b: Seq<PathPart>) -> bool
    decreases a.len(),
{
    if a.len() == 0 {
        b.len() > 0
    } else if b.len() == 0 {
        false
    } else if a[0] == b[0] {
        parts_lt(a.drop_first(), b.drop_first())
    } else {
        part_lt(a[0], b[0])
    }
}

/// Path `a` sorts before path `b`, as `Path`'s order compares them.
pub open spec fn path_lt(a: Seq<char>, b: Seq<char>) -> bool {
    parts_lt(path_parts(a), path_parts(b))
}

/// Paths `a` and `b` are equal as `Path`s: they have the same components.
pub open spec fn path_eq(a: Seq<char>, b: Seq<char>) -> bool {
    path_parts(a) == path_parts(b)
}

pub proof fn lemma_part_order(a: PathPart, b: PathPart)
    ensures
        a == b || part_lt(a, b) || part_lt(b, a),
        part_lt(a, b) ==> !part_lt(b, a) && a != b,
{
    lemma_lex_total(a.1, b.1);
    lemma_lex_asymmetric(a.1, b.1);
    lemma_lex_irreflexive(a.1);
}

pub proof fn lemma_part_transitive(a: PathPart, b: PathPart, c: PathPart)
    requires
        part_lt(a, b),
        part_lt(b, c),
    ensures
        part_lt(a, c),
{
    if a.0 == b.0 && b.0 == c.0 {
        lemma_lex_transitive(a.1, b.1, c.1);
    }
}

pub proof fn lemma_parts_order(a: Seq<PathPart>, b: Seq<PathPart>)
    ensures
        a == b || parts_lt(a, b) || parts_lt(b, a),
        parts_lt(a, b) ==> !parts_lt(b, a) && a != b,
    decreases a.len(),
{
    if a.len() > 0 && b.len() > 0 {
        lemma_part_order(a[0], b[0]);
        if a[0] == b[0] {
            lemma_parts_order(a.drop_first(), b.drop_first());
            if a.drop_first() == b.drop_first() {
                assert(a =~= seq![a[0]] + a.drop_first());
                assert(b =~= seq![b[0]] + b.drop_first());
            }
        }
    } else if a.len() == 0 && b.len() == 0 {
        assert(a =~= b);
    }
}

pub proof fn lemma_parts_transitive(a: Seq<PathPart>, b: Seq<PathPart>, c: Seq<PathPart>)
    requires
        parts_lt(a, b),
        parts_lt(b, c),
    ensures
        parts_lt(a, c),
    decreases a.len(),
{
    if a.len() > 0 && b.len() > 0 && c.len() > 0 {
        lemma_part_order(a[0], c[0]);
        lemma_part_order(a[0], b[0]);
        lemma_part_order(b[0], c[0]);
        if a[0] == b[0] && b[0] == c[0] {
            lemma_parts_transitive(a.drop_first(), b.drop_first(), c.drop_first());
        } else if a[0] == b[0] {
        } else if b[0] == c[0] {
        } else {
            lemma_part_transitive(a[0], b[0], c[0]);
        }
    }
}

/// A component of a path, held as a rank and the text of a name.
pub struct PathComponent {
    pub rank: u8,
    pub text: String,
}

pub open spec fn component_parts(v: Seq<PathComponent>) -> Seq<PathPart> {
    v.map_values(|c: PathComponent| (c.rank as nat, c.text@))
}

fn push_piece(out: &mut Vec<PathComponent>, piece: String)
    ensures
        component_parts(final(out)@) == component_parts(old(out)@) + piece_part(piece@),
{
    let ghost before = component_parts(out@);
    proof {
        reveal_strlit(".");
        reveal_strlit("..");
    }
    if piece.as_str().is_empty() || str_eq(piece.as_str(), ".") {
        assert(component_parts(out@) =~= before + piece_part(piece@));
    } else if str_eq(piece.as_str(), "..") {
        out.push(PathComponent { rank: 2, text: String::new() });
        assert(component_parts(out@) =~= before + piece_part(piece@));
    } else {
        let ghost p = piece@;
        out.push(PathComponent { rank: 3, text: piece });
        assert(component_parts(out@) =~= before + piece_part(p));
    }
}

/// The components of a path (see `path_parts`).
pub fn path_components(path: &str) -> (r: Vec<PathComponent>)
    ensures
        component_parts(r@) == path_parts(path@),
{
    let v = chars_of(path);
    let mut out: Vec<PathComponent> = Vec::new();
    proof {
        reveal_strlit(".");
        reveal_strlit("./");
    }
    if v.len() > 0 && v[0] == '/' {
        out.push(PathComponent { rank: 0, text: String::new() });
    } else if (v.len() == 1 && v[0] == '.') || (v.len() >= 2 && v[0] == '.' && v[1] == '/') {
        out.push(PathComponent { rank: 1, text: String::new() });
        proof {
            if v@.len() == 1 {
                assert(v@ =~= "."@);
            } else {
                assert(v@.take(2) =~= "./"@);
            }
        }
    } else {
        proof {
            if path@ == "."@ {
                assert(v@.len() == 1 && v@[0] == '.');
            }
            if starts_with(path@, "./"@) {
                assert(v@.take(2) == "./"@);
                assert(v@.take(2)[0] == v@[0] && v@.take(2)[1] == v@[1]);
                assert(v@[0] == '.' && v@[1] == '/');
            }
        }
    }
    assert(component_parts(out@) =~= leading_part(path@));
    let ghost lead = component_parts(out@);
    let mut start: usize = 0;
    assert(v@.skip(0) =~= v@);
    loop
        invariant_except_break
            start <= v@.len(),
            component_parts(out@) + piece_parts(split_pieces(v@.skip(start as int), '/'))
                == lead + piece_parts(split_pieces(v@, '/')),
        invariant
            v@ == path@,
            lead == leading_part(path@),
        ensures
            component_parts(out@) == lead + piece_parts(split_pieces(v@, '/')),
        decreases v@.len() - start,
    {
        let ghost rest = v@.skip(start as int);
        let ghost prev = component_parts(out@);
        let end = index_of_from(v.as_slice(), start, '/');
        proof {
            lemma_count_until(rest, '/');
        }
        let piece = string_from_range(v.as_slice(), start, end);
        assert(piece@ =~= rest.take(count_until(rest, '/') as int));
        let ghost pv = piece@;
        push_piece(&mut out, piece);
        if end == v.len() {
            proof {
                assert(split_pieces(rest, '/') == seq![rest]);
                assert(rest.take(count_until(rest, '/') as int) =~= rest);
                assert(seq![rest].drop_first() =~= Seq::<Seq<char>>::empty());
                assert(piece_parts(seq![rest]) =~= piece_part(rest) + piece_parts(Seq::<Seq<char>>::empty()));
                assert(piece_part(rest) + Seq::<PathPart>::empty() =~= piece_part(rest));
            }
            break;
        }
        proof {
            let tail = split_pieces(v@.skip(end + 1), '/');
            assert(rest.skip((count_until(rest, '/') + 1) as int) =~= v@.skip(end + 1));
            assert(split_pieces(rest, '/') == seq![pv] + tail);
            assert((seq![pv] + tail).drop_first() =~= tail);
            assert((seq![pv] + tail)[0] == pv);
            assert(piece_parts(seq![pv] + tail) == piece_part(pv) + piece_parts(tail));
            assert(prev + piece_part(pv) + piece_parts(tail) =~= prev + (piece_part(pv) + piece_parts(tail)));
        }
        start = end + 1;
    }
    proof {
        assert(path_parts(path@) == lead + piece_parts(split_pieces(v@, '/')));
    }
    out
}

fn components_less(a: &Vec<PathComponent>, b: &Vec<PathComponent>) -> (r: bool)
    ensures
        r == parts_lt(component_parts(a@), component_parts(b@)),
{
    let ghost ap = component_parts(a@);
    let ghost bp = component_parts(b@);
    let mut i: usize = 0;
    assert(ap.skip(0) =~= ap);
    assert(bp.skip(0) =~= bp);
    while i < a.len() && i < b.len() && a[i].rank == b[i].rank && str_eq(a[i].text.as_str(), b[i].text.as_str())
        invariant
            i <= a@.len(),
            i <= b@.len(),
            ap == component_parts(a@),
            bp == component_parts(b@),
            parts_lt(ap, bp) == parts_lt(ap.skip(i as int), bp.skip(i as int)),
        decreases a@.len() - i,
    {
        proof {
            assert(ap.skip(i as int)[0] == ap[i as int]);
            assert(bp.skip(i as int)[0] == bp[i as int]);
            assert(ap.skip(i as int).drop_first() =~= ap.skip(i + 1));
            assert(bp.skip(i as int).drop_first() =~= bp.skip(i + 1));
        }
        i = i + 1;
    }
    if i == a.len() {
        i < b.len()
    } else if i == b.len() {
        false
    } else {
        proof {
            assert(ap.skip(i as int)[0] == ap[i as int]);
            assert(bp.skip(i as int)[0] == bp[i as int]);
        }
        if a[i].rank != b[i].rank {
            a[i].rank < b[i].rank
        } else {
            lex_less(a[i].text.as_str(), b[i].text.as_str())
        }
    }
}

fn components_same(a: &Vec<PathComponent>, b: &Vec<PathComponent>) -> (r: bool)
    ensures
        r == (component_parts(a@) == component_parts(b@)),
{
    if a.len() != b.len() {
        assert(component_parts(a@).len() != component_parts(b@).len());
        return false;
    }
    let mut i: usize = 0;
    while i < a.len()
        invariant
            i <= a@.len() == b@.len(),
            forall|j: int| 0 <= j < i ==> component_parts(a@)[j] == component_parts(b@)[j],
        decreases a@.len() - i,
    {
        if a[i].rank != b[i].rank || !str_eq(a[i].text.as_str(), b[i].text.as_str()) {
            assert(component_parts(a@)[i as int] != component_parts(b@)[i as int]);
            return false;
        }
        i = i + 1;
    }
    assert(component_parts(a@) =~= component_parts(b@));
    true
}

/// Whether path `a` sorts before path `b` (see `path_lt`).
pub fn path_less(a: &str, b: &str) -> (r: bool)
    ensures
        r == path_lt(a@, b@),
{
    components_less(&path_components(a), &path_components(b))
}

/// Whether paths `a` and `b` are equal as paths (see `path_eq`).
pub fn path_same(a: &str, b: &str) -> (r: bool)
    ensures
        r == path_eq(a@, b@),
{
    components_same(&path_components(a), &path_components(b))
}

/// The paths strictly increase in path order (so no two are equal as paths).
pub open spec fn paths_increasing(v: Seq<String>) -> bool {
    forall|i: int, j: int| 0 <= i < j < v.len() ==> path_lt(#[trigger] v[i]@, #[trigger] v[j]@)
}

proof fn lemma_path_lt_irreflexive(a: Seq<char>)
    ensures
        !path_lt(a, a),
{
    lemma_parts_order(path_parts(a), path_parts(a));
}

/// Adds `path` to paths in increasing order unless an equal path is there.
fn insert_path_sorted(v: &mut Vec<String>, path: String)
    requires
        paths_increasing(old(v)@),
    ensures
        paths_increasing(final(v)@),
        forall|i: int| 0 <= i < final(v)@.len() ==> old(v)@.contains(#[trigger] final(v)@[i]) || final(v)@[i] == path,
        forall|i: int| 0 <= i < old(v)@.len() ==> final(v)@.contains(#[trigger] old(v)@[i]),
        exists|i: int| 0 <= i < final(v)@.len() && path_eq(#[trigger] final(v)@[i]@, path@),
{
    let ghost old_v = v@;
    let mut p: usize = 0;
    while p < v.len() && path_less(v[p].as_str(), path.as_str())
        invariant
            p <= v@.len(),
            v@ == old_v,
            forall|i: int| 0 <= i < p ==> path_lt(#[trigger] v@[i]@, path@),
        decreases v@.len() - p,
    {
        p = p + 1;
    }
    if p < v.len() && path_same(v[p].as_str(), path.as_str()) {
        assert(path_eq(v@[p as int]@, path@));
        assert forall|i: int| 0 <= i < v@.len() implies old_v.contains(#[trigger] v@[i]) || v@[i] == path by {
            assert(old_v[i] == v@[i]);
        }
        assert forall|i: int| 0 <= i < old_v.len() implies v@.contains(#[trigger] old_v[i]) by {
            assert(v@[i] == old_v[i]);
        }
        return;
    }
    let ghost np = path@;
    proof {
        if p < old_v.len() {
            lemma_parts_order(path_parts(old_v[p as int]@), path_parts(np));
        }
    }
    v.insert(p, path);
    assert(path_eq(v@[p as int]@, np));
    assert forall|i: int, j: int| 0 <= i < j < v@.len() implies path_lt(#[trigger] v@[i]@, #[trigger] v@[j]@) by {
        if j < p {
            assert(v@[i] == old_v[i] && v@[j] == old_v[j]);
        } else if j == p {
            assert(v@[i] == old_v[i]);
        } else if i == p {
            assert(v@[j] == old_v[j - 1]);
            if j - 1 > p {
                assert(path_lt(old_v[p as int]@, old_v[j - 1]@));
                lemma_parts_transitive(path_parts(np), path_parts(old_v[p as int]@), path_parts(old_v[j - 1]@));
            }
        } else if i < p {
            assert(v@[i] == old_v[i] && v@[j] == old_v[j - 1]);
            if j - 1 > p {
                assert(path_lt(old_v[p as int]@, old_v[j - 1]@));
                lemma_parts_transitive(path_parts(np), path_parts(old_v[p as int]@), path_parts(old_v[j - 1]@));
            }
            lemma_parts_transitive(path_parts(old_v[i]@), path_parts(np), path_parts(old_v[j - 1]@));
        } else {
            assert(v@[i] == old_v[i - 1] && v@[j] == old_v[j - 1]);
        }
    }
    assert forall|i: int| 0 <= i < v@.len() implies old_v.contains(#[trigger] v@[i]) || v@[i]@ == np by {
        if i < p {
            assert(old_v[i] == v@[i]);
        } else if i > p {
            assert(old_v[i - 1] == v@[i]);
        }
    }
    assert forall|i: int| 0 <= i < old_v.len() implies v@.contains(#[trigger] old_v[i]) by {
        if i < p {
            assert(v@[i] == old_v[i]);
        } else {
            assert(v@[i + 1] == old_v[i]);
        }
    }
}

/// Some path of `v` is equal to `p` as a path.
pub open spec fn covers_path(v: Seq<String>, p: Seq<char>) -> bool {
    exists|i: int| 0 <= i < v.len() && path_eq(#[trigger] v[i]@, p)
}

/// The paths in path order, each once as a path (of paths equal as paths,
/// the first given): as a set of paths orders and keeps them.
pub fn sort_paths(paths: &[String]) -> (r: Vec<String>)
    ensures
        paths_increasing(r@),
        forall|i: int| 0 <= i < r@.len() ==> paths@.contains(#[trigger] r@[i]),
        forall|k: int| 0 <= k < paths@.len() ==> covers_path(r@, #[trigger] paths@[k]@),
{
    let mut out: Vec<String> = Vec::new();
    let mut k: usize = 0;
    while k < paths.len()
        invariant
            k <= paths@.len(),
            paths_increasing(out@),
            forall|i: int| 0 <= i < out@.len() ==> paths@.contains(#[trigger] out@[i]),
            forall|m: int| 0 <= m < k ==> covers_path(out@, #[trigger] paths@[m]@),
        decreases paths@.len() - k,
    {
        let ghost before = out@;
        let x = paths[k].clone();
        proof {
            assert(x == paths@[k as int]);
        }
        insert_path_sorted(&mut out, x);
        assert forall|i: int| 0 <= i < out@.len() implies paths@.contains(#[trigger] out@[i]) by {
            if before.contains(out@[i]) {
                let j = choose|j: int| 0 <= j < before.len() && before[j] == out@[i];
                assert(paths@.contains(before[j]));
            } else {
                assert(out@[i] == paths@[k as int]);
            }
        }
        assert forall|m: int| 0 <= m < k + 1 implies covers_path(out@, #[trigger] paths@[m]@) by {
            if m < k {
                assert(covers_path(before, paths@[m]@));
                let i = choose|i: int| 0 <= i < before.len() && path_eq(#[trigger] before[i]@, paths@[m]@);
                assert(out@.contains(before[i]));
                let j = choose|j: int| 0 <= j < out@.len() && out@[j] == before[i];
                assert(path_eq(out@[j]@, paths@[m]@));
            }
        }
        k = k + 1;
    }
    out
}

} // verus!
