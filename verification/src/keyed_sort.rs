use vstd::prelude::*;

use crate::text::{lemma_lex_asymmetric, lemma_lex_irreflexive, lemma_lex_total, lemma_lex_transitive, lex_less, lex_lt, str_eq};

verus! {

broadcast use vstd::seq_lib::to_multiset_build, vstd::seq_lib::to_multiset_insert;

/// A sort key: two texts, compared in the order of `str`, the first before the second.
pub type TextKey = (Seq<char>, Seq<char>);

/// A value that sorts by a `TextKey`.
pub trait TextKeyed {
    spec fn text_key(&self) -> TextKey;

    fn primary_text(&self) -> (r: &str)
        ensures
            r@ == self.text_key().0,
    ;

    fn secondary_text(&self) -> (r: &str)
        ensures
            r@ == self.text_key().1,
    ;
}

impl TextKeyed for String {
    open spec fn text_key(&self) -> TextKey {
        (self@, Seq::<char>::empty())
    }

    fn primary_text(&self) -> (r: &str) {
        self.as_str()
    }

    fn secondary_text(&self) -> (r: &str) {
        proof {
            reveal_strlit("");
        }
        ""
    }
}

/// The key of a `TextKeyed` value, as a function.
pub open spec fn key_of<T: TextKeyed>() -> spec_fn(T) -> TextKey {
    |x: T| x.text_key()
}

/// Key `a` sorts strictly before key `b`.
pub open spec fn key_lt(a: TextKey, b: TextKey) -> bool {
    lex_lt(a.0, b.0) || (a.0 == b.0 && lex_lt(a.1, b.1))
}

/// `a` sorts strictly before `b` by `key`.
pub open spec fn sorts_before<T>(key: spec_fn(T) -> TextKey, a: T, b: T) -> bool {
    key_lt(key(a), key(b))
}

/// The keys are in non-decreasing order.
pub open spec fn key_ordered<T>(key: spec_fn(T) -> TextKey, s: Seq<T>) -> bool {
    forall|i: int, j: int| 0 <= i < j < s.len() ==> !sorts_before(key, #[trigger] s[j], #[trigger] s[i])
}

/// Where a stable insertion puts `x`: before the first element whose key is
/// greater than the key of `x`, after all others.
pub open spec fn insertion_index<T>(key: spec_fn(T) -> TextKey, s: Seq<T>, x: T) -> nat
    decreases s.len(),
{
    if s.len() == 0 {
        0
    } else if sorts_before(key, x, s[0]) {
        0
    } else {
        1 + insertion_index(key, s.drop_first(), x)
    }
}

/// `s` sorted by `key`, with the elements of equal keys in their order in `s`.
pub open spec fn stably_sorted<T>(key: spec_fn(T) -> TextKey, s: Seq<T>) -> Seq<T>
    decreases s.len(),
{
    if s.len() == 0 {
        s
    } else {
        let r = stably_sorted(key, s.drop_last());
        r.insert(insertion_index(key, r, s.last()) as int, s.last())
    }
}

/// `s` with every element dropped whose key equals that of the element kept
/// just before it.
pub open spec fn dedup_keys<T>(key: spec_fn(T) -> TextKey, s: Seq<T>) -> Seq<T>
    decreases s.len(),
{
    if s.len() == 0 {
        s
    } else {
        let d = dedup_keys(key, s.drop_last());
        if d.len() > 0 && key(d.last()) == key(s.last()) {
            d
        } else {
            d.push(s.last())
        }
    }
}

/// Two keys are equal, or one sorts before the other, and never both ways.
pub proof fn lemma_key_trichotomy(a: TextKey, b: TextKey)
    ensures
        a == b || key_lt(a, b) || key_lt(b, a),
        key_lt(a, b) ==> !key_lt(b, a) && a != b,
{
    lemma_lex_total(a.0, b.0);
    lemma_lex_total(a.1, b.1);
    lemma_lex_asymmetric(a.0, b.0);
    lemma_lex_asymmetric(a.1, b.1);
    lemma_lex_irreflexive(a.0);
    lemma_lex_irreflexive(a.1);
}

pub proof fn lemma_key_transitive(a: TextKey, b: TextKey, c: TextKey)
    requires
        key_lt(a, b),
        key_lt(b, c) || b == c,
    ensures
        key_lt(a, c),
{
    if lex_lt(a.0, b.0) && lex_lt(b.0, c.0) {
        lemma_lex_transitive(a.0, b.0, c.0);
    }
    if a.0 == b.0 && b.0 == c.0 && lex_lt(a.1, b.1) && lex_lt(b.1, c.1) {
        lemma_lex_transitive(a.1, b.1, c.1);
    }
}

proof fn lemma_insertion_index<T>(key: spec_fn(T) -> TextKey, s: Seq<T>, x: T, p: int)
    requires
        0 <= p <= s.len(),
        forall|j: int| 0 <= j < p ==> !sorts_before(key, x, #[trigger] s[j]),
        p == s.len() || sorts_before(key, x, s[p]),
    ensures
        insertion_index(key, s, x) == p,
    decreases s.len(),
{
    if p > 0 {
        let t = s.drop_first();
        assert forall|j: int| 0 <= j < p - 1 implies !sorts_before(key, x, #[trigger] t[j]) by {
            assert(t[j] == s[j + 1]);
        }
        if p < s.len() {
            assert(t[p - 1] == s[p]);
        }
        assert(!sorts_before(key, x, s[0]));
        lemma_insertion_index(key, t, x, p - 1);
    }
}

proof fn lemma_insertion_index_bounds<T>(key: spec_fn(T) -> TextKey, s: Seq<T>, x: T)
    ensures
        insertion_index(key, s, x) <= s.len(),
        forall|j: int| 0 <= j < insertion_index(key, s, x) ==> !sorts_before(key, x, #[trigger] s[j]),
        insertion_index(key, s, x) < s.len() ==> sorts_before(key, x, s[insertion_index(key, s, x) as int]),
    decreases s.len(),
{
    if s.len() > 0 && !sorts_before(key, x, s[0]) {
        let t = s.drop_first();
        lemma_insertion_index_bounds(key, t, x);
        assert forall|j: int| 0 <= j < insertion_index(key, s, x) implies !sorts_before(key, x, #[trigger] s[j]) by {
            if j > 0 {
                assert(s[j] == t[j - 1]);
            }
        }
        if insertion_index(key, s, x) < s.len() {
            assert(s[insertion_index(key, s, x) as int] == t[insertion_index(key, t, x) as int]);
        }
    }
}

/// Sorting keeps the keys in order.
pub proof fn lemma_stably_sorted_ordered<T>(key: spec_fn(T) -> TextKey, s: Seq<T>)
    ensures
        key_ordered(key, stably_sorted(key, s)),
    decreases s.len(),
{
    if s.len() > 0 {
        let r = stably_sorted(key, s.drop_last());
        let x = s.last();
        lemma_stably_sorted_ordered(key, s.drop_last());
        lemma_insertion_index_bounds(key, r, x);
        let p = insertion_index(key, r, x) as int;
        let q = r.insert(p, x);
        assert forall|i: int, j: int| 0 <= i < j < q.len() implies !sorts_before(key, #[trigger] q[j], #[trigger] q[i]) by {
            if j < p {
                assert(q[i] == r[i] && q[j] == r[j]);
            } else if j == p {
                assert(q[i] == r[i]);
                lemma_key_trichotomy(key(x), key(r[i]));
            } else if i == p {
                assert(q[j] == r[j - 1]);
                if j - 1 > p {
                    assert(!sorts_before(key, r[j - 1], r[p]));
                    lemma_key_trichotomy(key(r[p]), key(r[j - 1]));
                    lemma_key_transitive(key(x), key(r[p]), key(r[j - 1]));
                }
                lemma_key_trichotomy(key(x), key(r[j - 1]));
            } else if i < p {
                assert(q[i] == r[i] && q[j] == r[j - 1]);
            } else {
                assert(q[i] == r[i - 1] && q[j] == r[j - 1]);
            }
        }
    }
}

/// Sorting keeps every element, as many times as it occurs.
pub proof fn lemma_stably_sorted_permutes<T>(key: spec_fn(T) -> TextKey, s: Seq<T>)
    ensures
        stably_sorted(key, s).to_multiset() == s.to_multiset(),
        stably_sorted(key, s).len() == s.len(),
    decreases s.len(),
{
    if s.len() > 0 {
        let r = stably_sorted(key, s.drop_last());
        lemma_stably_sorted_permutes(key, s.drop_last());
        lemma_insertion_index_bounds(key, r, s.last());
        assert(s.drop_last().push(s.last()) =~= s);
    }
}

/// A sequence whose keys strictly increase is its own sort.
pub proof fn lemma_sorted_input_unchanged<T>(key: spec_fn(T) -> TextKey, s: Seq<T>)
    requires
        forall|i: int, j: int| 0 <= i < j < s.len() ==> sorts_before(key, #[trigger] s[i], #[trigger] s[j]),
    ensures
        stably_sorted(key, s) == s,
    decreases s.len(),
{
    if s.len() > 0 {
        let init = s.drop_last();
        assert forall|i: int, j: int| 0 <= i < j < init.len() implies sorts_before(key, #[trigger] init[i], #[trigger] init[j]) by {
            assert(init[i] == s[i] && init[j] == s[j]);
        }
        lemma_sorted_input_unchanged(key, init);
        assert forall|j: int| 0 <= j < init.len() implies !sorts_before(key, s.last(), #[trigger] init[j]) by {
            assert(init[j] == s[j]);
            lemma_key_trichotomy(key(s[j]), key(s.last()));
        }
        lemma_insertion_index(key, init, s.last(), init.len() as int);
        assert(init.insert(init.len() as int, s.last()) =~= s);
    }
}

/// Dropping repeated keys from a sequence in key order leaves each key once,
/// in strictly increasing order, and only elements of the sequence.
pub proof fn lemma_dedup_strictly_increasing<T>(key: spec_fn(T) -> TextKey, s: Seq<T>)
    requires
        key_ordered(key, s),
    ensures
        forall|i: int, j: int| 0 <= i < j < dedup_keys(key, s).len()
            ==> key_lt(key(#[trigger] dedup_keys(key, s)[i]), key(#[trigger] dedup_keys(key, s)[j])),
        forall|i: int| 0 <= i < dedup_keys(key, s).len() ==> s.contains(#[trigger] dedup_keys(key, s)[i]),
    decreases s.len(),
{
    if s.len() > 0 {
        let init = s.drop_last();
        let x = s.last();
        assert(key_ordered(key, init)) by {
            assert forall|i: int, j: int| 0 <= i < j < init.len() implies !sorts_before(key, #[trigger] init[j], #[trigger] init[i]) by {
                assert(init[i] == s[i] && init[j] == s[j]);
            }
        }
        lemma_dedup_strictly_increasing(key, init);
        let d0 = dedup_keys(key, init);
        let d = dedup_keys(key, s);
        assert forall|i: int| 0 <= i < d0.len() implies !key_lt(key(x), key(#[trigger] d0[i])) by {
            assert(init.contains(d0[i]));
            let j = choose|j: int| 0 <= j < init.len() && init[j] == d0[i];
            assert(s[j] == d0[i]);
            assert(!sorts_before(key, s[s.len() - 1], s[j]));
        }
        if !(d0.len() > 0 && key(d0.last()) == key(x)) {
            assert forall|i: int, j: int| 0 <= i < j < d.len() implies key_lt(key(#[trigger] d[i]), key(#[trigger] d[j])) by {
                if j == d.len() - 1 {
                    assert(d[j] == x);
                    assert(d[i] == d0[i]);
                    lemma_key_trichotomy(key(x), key(d0[i]));
                    if i < d0.len() - 1 {
                        assert(key_lt(key(d0[i]), key(d0[d0.len() - 1])));
                        lemma_key_trichotomy(key(x), key(d0[d0.len() - 1]));
                        lemma_key_trichotomy(key(d0[i]), key(x));
                        if key(d0[i]) == key(x) {
                            assert(key_lt(key(x), key(d0[d0.len() - 1])));
                        }
                    }
                } else {
                    assert(d[i] == d0[i] && d[j] == d0[j]);
                }
            }
            assert forall|i: int| 0 <= i < d.len() implies s.contains(#[trigger] d[i]) by {
                if i < d0.len() {
                    assert(d[i] == d0[i]);
                    assert(init.contains(d0[i]));
                    let j = choose|j: int| 0 <= j < init.len() && init[j] == d0[i];
                    assert(s[j] == d0[i]);
                } else {
                    assert(s[s.len() - 1] == d[i]);
                }
            }
        } else {
            assert forall|i: int| 0 <= i < d.len() implies s.contains(#[trigger] d[i]) by {
                assert(init.contains(d0[i]));
                let j = choose|j: int| 0 <= j < init.len() && init[j] == d0[i];
                assert(s[j] == d0[i]);
            }
        }
    }
}

proof fn lemma_insertion_index_map<T, U>(kt: spec_fn(T) -> TextKey, ku: spec_fn(U) -> TextKey, f: spec_fn(T) -> U, s: Seq<T>, x: T)
    requires
        forall|y: T| #[trigger] ku(f(y)) == kt(y),
    ensures
        insertion_index(ku, s.map_values(f), f(x)) == insertion_index(kt, s, x),
    decreases s.len(),
{
    if s.len() > 0 {
        assert(s.map_values(f)[0] == f(s[0]));
        assert(s.map_values(f).drop_first() =~= s.drop_first().map_values(f));
        lemma_insertion_index_map(kt, ku, f, s.drop_first(), x);
    }
}

/// Sorting commutes with a map that keeps keys: sorting the images orders
/// them as sorting the originals does.
pub proof fn lemma_stably_sorted_map<T, U>(kt: spec_fn(T) -> TextKey, ku: spec_fn(U) -> TextKey, f: spec_fn(T) -> U, s: Seq<T>)
    requires
        forall|y: T| #[trigger] ku(f(y)) == kt(y),
    ensures
        stably_sorted(ku, s.map_values(f)) == stably_sorted(kt, s).map_values(f),
    decreases s.len(),
{
    if s.len() > 0 {
        let init = s.drop_last();
        lemma_stably_sorted_map(kt, ku, f, init);
        assert(s.map_values(f).drop_last() =~= init.map_values(f));
        assert(s.map_values(f).last() == f(s.last()));
        let r = stably_sorted(kt, init);
        lemma_insertion_index_map(kt, ku, f, r, s.last());
        lemma_insertion_index_bounds(kt, r, s.last());
        let p = insertion_index(kt, r, s.last()) as int;
        assert(r.map_values(f).insert(p, f(s.last())) =~= r.insert(p, s.last()).map_values(f));
    }
}

/// Whether `a` sorts strictly before `b`.
pub fn key_before<T: TextKeyed>(a: &T, b: &T) -> (r: bool)
    ensures
        r == key_lt(a.text_key(), b.text_key()),
{
    let ap = a.primary_text();
    let bp = b.primary_text();
    if lex_less(ap, bp) {
        return true;
    }
    if !str_eq(ap, bp) {
        return false;
    }
    lex_less(a.secondary_text(), b.secondary_text())
}

/// Whether `a` and `b` have the same keys.
pub fn key_same<T: TextKeyed>(a: &T, b: &T) -> (r: bool)
    ensures
        r == (a.text_key() == b.text_key()),
{
    str_eq(a.primary_text(), b.primary_text()) && str_eq(a.secondary_text(), b.secondary_text())
}

fn insertion_point<T: TextKeyed>(s: &Vec<T>, x: &T) -> (p: usize)
    ensures
        p as nat == insertion_index(key_of::<T>(), s@, *x),
        p <= s@.len(),
{
    let mut p: usize = 0;
    while p < s.len() && !key_before(x, &s[p])
        invariant
            p <= s@.len(),
            forall|j: int| 0 <= j < p ==> !sorts_before(key_of::<T>(), *x, #[trigger] s@[j]),
        decreases s@.len() - p,
    {
        p = p + 1;
    }
    proof {
        lemma_insertion_index(key_of::<T>(), s@, *x, p as int);
    }
    p
}

/// Sorts by key; elements with equal keys keep their order (a stable sort).
pub fn sort_by_text_key<T: TextKeyed>(v: Vec<T>) -> (r: Vec<T>)
    ensures
        r@ == stably_sorted(key_of::<T>(), v@),
{
    let ghost orig = v@;
    let ghost mut k: int = 0;
    let mut rest = v;
    let mut out: Vec<T> = Vec::new();
    while rest.len() > 0
        invariant
            0 <= k <= orig.len(),
            rest@ == orig.skip(k),
            out@ == stably_sorted(key_of::<T>(), orig.take(k)),
        decreases rest@.len(),
    {
        let x = rest.remove(0);
        proof {
            assert(orig.take(k + 1).drop_last() =~= orig.take(k));
            assert(orig.take(k + 1).last() == orig[k]);
            k = k + 1;
            assert(rest@ =~= orig.skip(k));
        }
        let p = insertion_point(&out, &x);
        out.insert(p, x);
    }
    assert(orig.take(k) =~= orig);
    out
}

/// Drops every element whose key equals that of the element kept just before
/// it (on sorted input: keeps the first element of each key).
pub fn dedup_by_text_key<T: TextKeyed>(v: Vec<T>) -> (r: Vec<T>)
    ensures
        r@ == dedup_keys(key_of::<T>(), v@),
{
    let ghost orig = v@;
    let ghost mut k: int = 0;
    let mut rest = v;
    let mut out: Vec<T> = Vec::new();
    while rest.len() > 0
        invariant
            0 <= k <= orig.len(),
            rest@ == orig.skip(k),
            out@ == dedup_keys(key_of::<T>(), orig.take(k)),
        decreases rest@.len(),
    {
        let x = rest.remove(0);
        proof {
            assert(orig.take(k + 1).drop_last() =~= orig.take(k));
            assert(orig.take(k + 1).last() == orig[k]);
            k = k + 1;
            assert(rest@ =~= orig.skip(k));
        }
        let n = out.len();
        if n > 0 && key_same(&out[n - 1], &x) {
        } else {
            out.push(x);
        }
    }
    assert(orig.take(k) =~= orig);
    out
}

/// Dropping repeated keys keeps every key of the sequence.
pub proof fn lemma_dedup_keeps_keys<T>(key: spec_fn(T) -> TextKey, s: Seq<T>)
    ensures
        forall|i: int| 0 <= i < s.len() ==> exists|j: int| 0 <= j < dedup_keys(key, s).len()
            && key(#[trigger] dedup_keys(key, s)[j]) == key(#[trigger] s[i]),
    decreases s.len(),
{
    if s.len() > 0 {
        let init = s.drop_last();
        lemma_dedup_keeps_keys(key, init);
        let d0 = dedup_keys(key, init);
        let d = dedup_keys(key, s);
        assert forall|i: int| 0 <= i < s.len() implies exists|j: int| 0 <= j < d.len()
            && key(#[trigger] d[j]) == key(#[trigger] s[i]) by {
            if i < s.len() - 1 {
                assert(init[i] == s[i]);
                let j = choose|j: int| 0 <= j < d0.len() && key(#[trigger] d0[j]) == key(#[trigger] init[i]);
                assert(d[j] == d0[j]);
            } else if d0.len() > 0 && key(d0.last()) == key(s.last()) {
                assert(d[d0.len() - 1] == d0.last());
            } else {
                assert(d[d.len() - 1] == s.last());
            }
        }
    }
}

} // verus!
