use vstd::prelude::*;

verus! {

broadcast use vstd::string::group_string_axioms;

/// The characters of `s`, in order.
pub fn chars_of(s: &str) -> (v: Vec<char>)
    ensures
        v@ == s@,
{
    let mut v: Vec<char> = Vec::new();
    for c in it: s.chars()
        invariant
            it.seq() == s@,
            v@ == it.seq().take(it.index() as int),
    {
        v.push(c);
    }
    v
}

} // verus!
verus! {

/// `String::push`: appends one character at the end of the string.
#[verifier::external_body]
pub fn push_char(s: &mut String, c: char)
    ensures
        final(s)@ == old(s)@.push(c),
{
    s.push(c);
}

/// Builds a string holding exactly the given characters.
pub fn string_from_chars(v: &[char]) -> (s: String)
    ensures
        s@ == v@,
{
    let mut s = String::new();
    let mut i: usize = 0;
    while i < v.len()
        invariant
            i <= v@.len(),
            s@ == v@.take(i as int),
        decreases v@.len() - i,
    {
        push_char(&mut s, v[i]);
        i = i + 1;
        assert(s@ =~= v@.take(i as int));
    }
    assert(v@.take(v@.len() as int) =~= v@);
    s
}

} // verus!
verus! {

/// `p` is a prefix of `s`.
pub open spec fn starts_with(s: Seq<char>, p: Seq<char>) -> bool {
    p.len() <= s.len() && s.subrange(0, p.len() as int) == p
}

/// `p` is a suffix of `s`.
pub open spec fn ends_with(s: Seq<char>, p: Seq<char>) -> bool {
    p.len() <= s.len() && s.subrange(s.len() - p.len(), s.len() as int) == p
}

/// `p` occurs in `s` starting at index `i`.
pub open spec fn occurs_at(s: Seq<char>, p: Seq<char>, i: int) -> bool {
    0 <= i && i + p.len() <= s.len() && s.subrange(i, i + p.len()) == p
}

/// `p` occurs somewhere in `s`.
pub open spec fn contains(s: Seq<char>, p: Seq<char>) -> bool {
    exists|i: int| occurs_at(s, p, i)
}

/// Whether `p` occurs in `s` at index `i`, decided character by character.
pub fn occurs_at_exec(s: &[char], p: &[char], i: usize) -> (r: bool)
    ensures
        r == occurs_at(s@, p@, i as int),
{
    if p.len() > s.len() || i > s.len() - p.len() {
        return false;
    }
    let mut k: usize = 0;
    while k < p.len()
        invariant
            i + p@.len() <= s@.len(),
            i + p.len() <= s.len(),
            k <= p@.len(),
            forall|j: int| 0 <= j < k ==> s@[i + j] == p@[j],
        decreases p@.len() - k,
    {
        if s[i + k] != p[k] {
            assert(s@.subrange(i as int, i + p@.len())[k as int] != p@[k as int]);
            return false;
        }
        k = k + 1;
    }
    assert(s@.subrange(i as int, i + p@.len()) =~= p@);
    true
}

/// Whether two strings hold the same characters.
pub fn str_eq(a: &str, b: &str) -> (r: bool)
    ensures
        r == (a@ == b@),
{
    let av = chars_of(a);
    let bv = chars_of(b);
    if av.len() != bv.len() {
        return false;
    }
    let r = occurs_at_exec(av.as_slice(), bv.as_slice(), 0);
    assert(av@.subrange(0, bv@.len() as int) =~= av@);
    r
}

/// Whether `s` begins with `p`.
pub fn starts_with_str(s: &str, p: &str) -> (r: bool)
    ensures
        r == starts_with(s@, p@),
{
    let sv = chars_of(s);
    let pv = chars_of(p);
    occurs_at_exec(sv.as_slice(), pv.as_slice(), 0)
}

/// Whether `s` ends with `p`.
pub fn ends_with_str(s: &str, p: &str) -> (r: bool)
    ensures
        r == ends_with(s@, p@),
{
    let sv = chars_of(s);
    let pv = chars_of(p);
    if pv.len() > sv.len() {
        return false;
    }
    occurs_at_exec(sv.as_slice(), pv.as_slice(), sv.len() - pv.len())
}

/// Whether `p` occurs anywhere in `s`.
pub fn contains_str(s: &str, p: &str) -> (r: bool)
    ensures
        r == contains(s@, p@),
{
    let sv = chars_of(s);
    let pv = chars_of(p);
    contains_chars(sv.as_slice(), pv.as_slice())
}

/// Whether `p` occurs anywhere in `s`, over character slices.
pub fn contains_chars(sv: &[char], pv: &[char]) -> (r: bool)
    ensures
        r == contains(sv@, pv@),
{
    if pv.len() > sv.len() {
        return false;
    }
    let limit = sv.len() - pv.len();
    let mut i: usize = 0;
    loop
        invariant
            pv@.len() <= sv@.len(),
            limit == sv@.len() - pv@.len(),
            i <= limit,
            forall|j: int| 0 <= j < i ==> !occurs_at(sv@, pv@, j),
        decreases limit - i,
    {
        if occurs_at_exec(sv, pv, i) {
            return true;
        }
        if i == limit {
            return false;
        }
        i = i + 1;
    }
}

} // verus!
verus! {

/// Builds a string from the characters `v[from..to]`.
pub fn string_from_range(v: &[char], from: usize, to: usize) -> (s: String)
    requires
        from <= to <= v@.len(),
    ensures
        s@ == v@.subrange(from as int, to as int),
{
    let mut s = String::new();
    let mut i: usize = from;
    while i < to
        invariant
            from <= i <= to,
            to <= v@.len(),
            s@ == v@.subrange(from as int, i as int),
        decreases to - i,
    {
        push_char(&mut s, v[i]);
        i = i + 1;
        assert(s@ =~= v@.subrange(from as int, i as int));
    }
    s
}

/// Appends `t` to `s`.
pub fn push_str(s: &mut String, t: &str)
    ensures
        final(s)@ == old(s)@ + t@,
{
    s.append(t);
}

/// The text obtained by replacing, from left to right, every non-overlapping
/// occurrence of the non-empty pattern `pat` in `s` with `to`.
pub open spec fn replace_all(s: Seq<char>, pat: Seq<char>, to: Seq<char>) -> Seq<char>
    decreases s.len(),
{
    if s.len() == 0 || pat.len() == 0 {
        s
    } else if starts_with(s, pat) {
        to + replace_all(s.skip(pat.len() as int), pat, to)
    } else {
        seq![s[0]] + replace_all(s.skip(1), pat, to)
    }
}

/// `str::replace` for a non-empty pattern.
pub fn replace_str(s: &str, pat: &str, to: &str) -> (r: String)
    requires
        pat@.len() > 0,
    ensures
        r@ == replace_all(s@, pat@, to@),
{
    let sv = chars_of(s);
    let pv = chars_of(pat);
    let mut out = String::new();
    let mut i: usize = 0;
    assert(sv@.skip(0) =~= sv@);
    assert(out@ + replace_all(sv@, pv@, to@) =~= replace_all(sv@, pv@, to@));
    while i < sv.len()
        invariant
            i <= sv@.len(),
            pv@ == pat@,
            sv@ == s@,
            pv@.len() > 0,
            out@ + replace_all(sv@.skip(i as int), pv@, to@) == replace_all(sv@, pv@, to@),
        decreases sv@.len() - i,
    {
        let ghost rest = sv@.skip(i as int);
        let ghost o = out@;
        if occurs_at_exec(sv.as_slice(), pv.as_slice(), i) {
            assert(rest.subrange(0, pv@.len() as int) =~= sv@.subrange(i as int, i + pv@.len()));
            assert(rest.skip(pv@.len() as int) =~= sv@.skip(i + pv@.len()));
            assert(replace_all(rest, pv@, to@) == to@ + replace_all(rest.skip(pv@.len() as int), pv@, to@));
            push_str(&mut out, to);
            i = i + pv.len();
            assert(out@ + replace_all(sv@.skip(i as int), pv@, to@) =~= o + replace_all(rest, pv@, to@));
        } else {
            assert(!starts_with(rest, pv@)) by {
                if starts_with(rest, pv@) {
                    assert(rest.subrange(0, pv@.len() as int) =~= sv@.subrange(i as int, i + pv@.len()));
                }
            }
            assert(rest.skip(1) =~= sv@.skip(i + 1));
            assert(replace_all(rest, pv@, to@) == seq![rest[0]] + replace_all(rest.skip(1), pv@, to@));
            let c = sv[i];
            push_char(&mut out, c);
            i = i + 1;
            assert(out@ + replace_all(sv@.skip(i as int), pv@, to@) =~= o + replace_all(rest, pv@, to@));
        }
    }
    assert(sv@.skip(i as int) =~= Seq::<char>::empty());
    assert(out@ + Seq::<char>::empty() =~= out@);
    out
}

} // verus!
verus! {

/// `char::is_whitespace`: the Unicode `White_Space` property.
pub open spec fn is_whitespace(c: char) -> bool {
    let n = c as u32;
    n == 9 || n == 10 || n == 11 || n == 12 || n == 13 || n == 32 || n == 0x85 || n == 0xA0
        || n == 0x1680 || (0x2000 <= n && n <= 0x200A) || n == 0x2028 || n == 0x2029
        || n == 0x202F || n == 0x205F || n == 0x3000
}

/// Decides `is_whitespace`.
pub fn is_whitespace_exec(c: char) -> (r: bool)
    ensures
        r == is_whitespace(c),
{
    let n = c as u32;
    n == 9 || n == 10 || n == 11 || n == 12 || n == 13 || n == 32 || n == 0x85 || n == 0xA0
        || n == 0x1680 || (0x2000 <= n && n <= 0x200A) || n == 0x2028 || n == 0x2029
        || n == 0x202F || n == 0x205F || n == 0x3000
}

/// Number of leading characters of `s` satisfying `is_whitespace`.
pub open spec fn leading_ws(s: Seq<char>) -> nat
    decreases s.len(),
{
    if s.len() > 0 && is_whitespace(s[0]) {
        1 + leading_ws(s.drop_first())
    } else {
        0
    }
}

/// Number of trailing characters of `s` satisfying `is_whitespace`.
pub open spec fn trailing_ws(s: Seq<char>) -> nat
    decreases s.len(),
{
    if s.len() > 0 && is_whitespace(s.last()) {
        1 + trailing_ws(s.drop_last())
    } else {
        0
    }
}

/// `str::trim_start`.
pub open spec fn trim_start(s: Seq<char>) -> Seq<char> {
    s.skip(leading_ws(s) as int)
}

/// `str::trim_end`.
pub open spec fn trim_end(s: Seq<char>) -> Seq<char> {
    s.take(s.len() - trailing_ws(s))
}

/// `str::trim`.
pub open spec fn trim(s: Seq<char>) -> Seq<char> {
    trim_end(trim_start(s))
}

pub proof fn lemma_leading_ws_bound(s: Seq<char>)
    ensures
        leading_ws(s) <= s.len(),
    decreases s.len(),
{
    if s.len() > 0 && is_whitespace(s[0]) {
        lemma_leading_ws_bound(s.drop_first());
    }
}

pub proof fn lemma_trailing_ws_bound(s: Seq<char>)
    ensures
        trailing_ws(s) <= s.len(),
    decreases s.len(),
{
    if s.len() > 0 && is_whitespace(s.last()) {
        lemma_trailing_ws_bound(s.drop_last());
    }
}

/// Index of the first character of `v` that is not whitespace (or its length).
pub fn leading_ws_exec(v: &[char]) -> (n: usize)
    ensures
        n == leading_ws(v@),
        n <= v@.len(),
{
    let mut i: usize = 0;
    proof { lemma_leading_ws_bound(v@); }
    assert(v@.skip(0) =~= v@);
    while i < v.len() && is_whitespace_exec(v[i])
        invariant
            i <= v@.len(),
            leading_ws(v@) == i + leading_ws(v@.skip(i as int)),
        decreases v@.len() - i,
    {
        assert(v@.skip(i as int).drop_first() =~= v@.skip(i + 1));
        i = i + 1;
    }
    if i < v.len() {
        assert(v@.skip(i as int)[0] == v@[i as int]);
    } else {
        assert(v@.skip(i as int).len() == 0);
    }
    i
}

/// Number of trailing whitespace characters of `v`.
pub fn trailing_ws_exec(v: &[char]) -> (n: usize)
    ensures
        n == trailing_ws(v@),
{
    let mut k: usize = v.len();
    assert(v@.take(k as int) =~= v@);
    while k > 0 && is_whitespace_exec(v[k - 1])
        invariant
            k <= v@.len(),
            trailing_ws(v@) == (v@.len() - k) + trailing_ws(v@.take(k as int)),
        decreases k,
    {
        assert(v@.take(k as int).drop_last() =~= v@.take(k - 1));
        assert(v@.take(k as int).last() == v@[k - 1]);
        k = k - 1;
    }
    if k > 0 {
        assert(v@.take(k as int).last() == v@[k - 1]);
    }
    v.len() - k
}

/// `str::trim`.
pub fn trim_str(s: &str) -> (r: String)
    ensures
        r@ == trim(s@),
{
    let v = chars_of(s);
    let a = leading_ws_exec(v.as_slice());
    let rest = string_from_range(v.as_slice(), a, v.len());
    let rv = chars_of(rest.as_str());
    let t = trailing_ws_exec(rv.as_slice());
    proof { lemma_trailing_ws_bound(rv@); }
    string_from_range(rv.as_slice(), 0, rv.len() - t)
}

/// `str::trim_end`.
pub fn trim_end_str(s: &str) -> (r: String)
    ensures
        r@ == trim_end(s@),
{
    let v = chars_of(s);
    let t = trailing_ws_exec(v.as_slice());
    proof { lemma_trailing_ws_bound(v@); }
    string_from_range(v.as_slice(), 0, v.len() - t)
}

/// Whether `s` is empty once surrounding whitespace is removed.
pub fn is_blank(s: &str) -> (r: bool)
    ensures
        r == (trim(s@).len() == 0),
{
    let t = trim_str(s);
    t.as_str().is_empty()
}

} // verus!
verus! {

/// Number of characters of `s` before the first `c` (the whole length when `c` is absent).
pub open spec fn count_until(s: Seq<char>, c: char) -> nat
    decreases s.len(),
{
    if s.len() == 0 || s[0] == c {
        0
    } else {
        1 + count_until(s.drop_first(), c)
    }
}

pub proof fn lemma_count_until(s: Seq<char>, c: char)
    ensures
        count_until(s, c) <= s.len(),
        count_until(s, c) < s.len() ==> s[count_until(s, c) as int] == c,
        forall|j: int| 0 <= j < count_until(s, c) ==> s[j] != c,
    decreases s.len(),
{
    if s.len() > 0 && s[0] != c {
        lemma_count_until(s.drop_first(), c);
        assert forall|j: int| 0 <= j < count_until(s, c) implies s[j] != c by {
            if j > 0 {
                assert(s.drop_first()[j - 1] == s[j]);
            }
        }
    }
}

/// `str::split_once` on a character.
pub open spec fn split_once(s: Seq<char>, c: char) -> Option<(Seq<char>, Seq<char>)> {
    let k = count_until(s, c);
    if k < s.len() {
        Some((s.take(k as int), s.skip((k + 1) as int)))
    } else {
        None
    }
}

/// Removes one trailing carriage return.
pub open spec fn strip_cr(b: Seq<char>) -> Seq<char> {
    if b.len() > 0 && b.last() == '\r' {
        b.drop_last()
    } else {
        b
    }
}

/// `str::lines`: the pieces between `\n` characters, each without a `\r`
/// that directly precedes its `\n`, with no empty piece after a final `\n`.
pub open spec fn lines(s: Seq<char>) -> Seq<Seq<char>>
    decreases s.len(),
{
    if s.len() == 0 {
        seq![]
    } else {
        let k = count_until(s, '\n');
        if k >= s.len() {
            seq![s]
        } else {
            seq![strip_cr(s.take(k as int))] + lines(s.skip((k + 1) as int))
        }
    }
}

/// The views of a vector of strings.
pub open spec fn views(v: Seq<String>) -> Seq<Seq<char>> {
    v.map_values(|x: String| x@)
}

/// Index of the first `c` in `v` at or after `from` (or `v`'s length).
pub fn index_of_from(v: &[char], from: usize, c: char) -> (idx: usize)
    requires
        from <= v@.len(),
    ensures
        idx == from + count_until(v@.skip(from as int), c),
        idx <= v@.len(),
{
    let mut i = from;
    assert(v@.skip(from as int).skip(0) =~= v@.skip(from as int));
    while i < v.len() && v[i] != c
        invariant
            from <= i <= v@.len(),
            count_until(v@.skip(from as int), c) == (i - from) + count_until(v@.skip(i as int), c),
        decreases v@.len() - i,
    {
        assert(v@.skip(i as int).drop_first() =~= v@.skip(i + 1));
        i = i + 1;
    }
    if i < v.len() {
        assert(v@.skip(i as int)[0] == v@[i as int]);
    }
    i
}

/// `str::lines`.
pub fn lines_of(s: &str) -> (r: Vec<String>)
    ensures
        views(r@) == lines(s@),
{
    let v = chars_of(s);
    let mut out: Vec<String> = Vec::new();
    let mut start: usize = 0;
    assert(v@.skip(0) =~= v@);
    while start < v.len()
        invariant
            start <= v@.len(),
            v@ == s@,
            views(out@) + lines(v@.skip(start as int)) == lines(v@),
        decreases v@.len() - start,
    {
        let ghost rest = v@.skip(start as int);
        let ghost prev = out@;
        let ghost st = start;
        let end = index_of_from(v.as_slice(), start, '\n');
        proof { lemma_count_until(rest, '\n'); }
        if end == v.len() {
            let line = string_from_range(v.as_slice(), start, end);
            assert(line@ =~= rest);
            out.push(line);
            assert(views(out@) =~= views(prev) + seq![line@]);
            assert(lines(rest) == seq![rest]);
            start = end;
            assert(v@.skip(start as int) =~= Seq::<char>::empty());
            assert(views(out@) + lines(v@.skip(start as int)) =~= views(prev) + lines(rest));
        } else {
            let mut e2 = end;
            if e2 > start && v[e2 - 1] == '\r' {
                e2 = e2 - 1;
            }
            let line = string_from_range(v.as_slice(), start, e2);
            assert(line@ =~= strip_cr(rest.take((end - start) as int)));
            out.push(line);
            assert(views(out@) =~= views(prev) + seq![line@]);
            start = end + 1;
            assert(rest.skip((end - st + 1) as int) =~= v@.skip(start as int));
            assert(views(out@) + lines(v@.skip(start as int)) =~= views(prev) + lines(rest));
        }
    }
    assert(v@.skip(start as int) =~= Seq::<char>::empty());
    assert(views(out@) + Seq::<Seq<char>>::empty() =~= views(out@));
    out
}

} // verus!
verus! {

/// `str::split_once` on a character.
pub fn split_once_str(s: &str, c: char) -> (r: Option<(String, String)>)
    ensures
        match split_once(s@, c) {
            Some((a, b)) => r matches Some((x, y)) && x@ == a && y@ == b,
            None => r is None,
        },
{
    let v = chars_of(s);
    let k = index_of_from(v.as_slice(), 0, c);
    assert(v@.skip(0) =~= v@);
    proof { lemma_count_until(v@, c); }
    if k < v.len() {
        let a = string_from_range(v.as_slice(), 0, k);
        let b = string_from_range(v.as_slice(), k + 1, v.len());
        assert(a@ =~= v@.take(k as int));
        assert(b@ =~= v@.skip(k + 1));
        Some((a, b))
    } else {
        None
    }
}

/// Number of leading characters of `s` equal to `c`.
pub open spec fn leading_char(s: Seq<char>, c: char) -> nat
    decreases s.len(),
{
    if s.len() > 0 && s[0] == c {
        1 + leading_char(s.drop_first(), c)
    } else {
        0
    }
}

/// Number of trailing characters of `s` equal to `c`.
pub open spec fn trailing_char(s: Seq<char>, c: char) -> nat
    decreases s.len(),
{
    if s.len() > 0 && s.last() == c {
        1 + trailing_char(s.drop_last(), c)
    } else {
        0
    }
}

/// `str::trim_matches` with a single-character pattern.
pub open spec fn trim_matches(s: Seq<char>, c: char) -> Seq<char> {
    let t = s.skip(leading_char(s, c) as int);
    t.take(t.len() - trailing_char(t, c))
}

pub proof fn lemma_leading_char_bound(s: Seq<char>, c: char)
    ensures
        leading_char(s, c) <= s.len(),
    decreases s.len(),
{
    if s.len() > 0 && s[0] == c {
        lemma_leading_char_bound(s.drop_first(), c);
    }
}

pub proof fn lemma_trailing_char_bound(s: Seq<char>, c: char)
    ensures
        trailing_char(s, c) <= s.len(),
    decreases s.len(),
{
    if s.len() > 0 && s.last() == c {
        lemma_trailing_char_bound(s.drop_last(), c);
    }
}

/// `str::trim_matches(c)` for a character `c`.
pub fn trim_matches_str(s: &str, c: char) -> (r: String)
    ensures
        r@ == trim_matches(s@, c),
{
    let v = chars_of(s);
    let mut i: usize = 0;
    proof { lemma_leading_char_bound(v@, c); }
    assert(v@.skip(0) =~= v@);
    while i < v.len() && v[i] == c
        invariant
            i <= v@.len(),
            leading_char(v@, c) == i + leading_char(v@.skip(i as int), c),
        decreases v@.len() - i,
    {
        assert(v@.skip(i as int).drop_first() =~= v@.skip(i + 1));
        i = i + 1;
    }
    if i < v.len() {
        assert(v@.skip(i as int)[0] == v@[i as int]);
    }
    let ghost t = v@.skip(i as int);
    let mut k: usize = v.len();
    assert(t.take((k - i) as int) =~= t);
    proof { lemma_trailing_char_bound(t, c); }
    while k > i && v[k - 1] == c
        invariant
            i <= k <= v@.len(),
            t == v@.skip(i as int),
            trailing_char(t, c) == (v@.len() - k) + trailing_char(t.take((k - i) as int), c),
        decreases k,
    {
        assert(t.take((k - i) as int).drop_last() =~= t.take((k - 1 - i) as int));
        assert(t.take((k - i) as int).last() == v@[k - 1]);
        k = k - 1;
    }
    if k > i {
        assert(t.take((k - i) as int).last() == v@[k - 1]);
    }
    let r = string_from_range(v.as_slice(), i, k);
    assert(r@ =~= t.take(t.len() - trailing_char(t, c)));
    r
}

} // verus!
verus! {

/// The character of a decimal digit.
pub open spec fn digit_char(d: nat) -> char {
    if d == 0 { '0' } else if d == 1 { '1' } else if d == 2 { '2' } else if d == 3 { '3' }
    else if d == 4 { '4' } else if d == 5 { '5' } else if d == 6 { '6' } else if d == 7 { '7' }
    else if d == 8 { '8' } else { '9' }
}

/// The decimal representation of `n`, as `Display` prints an unsigned integer.
pub open spec fn decimal(n: nat) -> Seq<char>
    decreases n,
{
    if n < 10 {
        seq![digit_char(n)]
    } else {
        decimal(n / 10).push(digit_char(n % 10))
    }
}

fn digit_exec(d: u128) -> (c: char)
    requires
        d < 10,
    ensures
        c == digit_char(d as nat),
{
    if d == 0 { '0' } else if d == 1 { '1' } else if d == 2 { '2' } else if d == 3 { '3' }
    else if d == 4 { '4' } else if d == 5 { '5' } else if d == 6 { '6' } else if d == 7 { '7' }
    else if d == 8 { '8' } else { '9' }
}

/// Appends the decimal representation of `n`.
pub fn push_decimal(s: &mut String, n: u128)
    ensures
        final(s)@ == old(s)@ + decimal(n as nat),
    decreases n,
{
    if n < 10 {
        push_char(s, digit_exec(n));
        assert(decimal(n as nat) == seq![digit_char(n as nat)]);
    } else {
        push_decimal(s, n / 10);
        push_char(s, digit_exec(n % 10));
        assert(final(s)@ =~= old(s)@ + decimal(n as nat)) by {
            assert(decimal(n as nat) == decimal((n / 10) as nat).push(digit_char((n % 10) as nat)));
        }
    }
}

/// The decimal representation of `n` as a string.
pub fn decimal_string(n: u64) -> (r: String)
    ensures
        r@ == decimal(n as nat),
{
    let mut s = String::new();
    push_decimal(&mut s, n as u128);
    assert(s@ =~= decimal(n as nat));
    s
}

} // verus!
verus! {

/// `a < b` in the order of `str`: lexicographic by code point.
pub open spec fn lex_lt(a: Seq<char>, b: Seq<char>) -> bool
    decreases a.len(),
{
    if a.len() == 0 {
        b.len() > 0
    } else if b.len() == 0 {
        false
    } else if a[0] == b[0] {
        lex_lt(a.drop_first(), b.drop_first())
    } else {
        (a[0] as int) < (b[0] as int)
    }
}

pub proof fn lemma_lex_irreflexive(a: Seq<char>)
    ensures
        !lex_lt(a, a),
    decreases a.len(),
{
    if a.len() > 0 {
        lemma_lex_irreflexive(a.drop_first());
    }
}

pub proof fn lemma_lex_total(a: Seq<char>, b: Seq<char>)
    ensures
        a == b || lex_lt(a, b) || lex_lt(b, a),
    decreases a.len(),
{
    if a.len() > 0 && b.len() > 0 {
        if a[0] == b[0] {
            lemma_lex_total(a.drop_first(), b.drop_first());
            if a.drop_first() == b.drop_first() {
                assert(a =~= seq![a[0]] + a.drop_first());
                assert(b =~= seq![b[0]] + b.drop_first());
            }
        } else {
            assert((a[0] as int) != (b[0] as int));
        }
    } else if a.len() == 0 && b.len() == 0 {
        assert(a =~= b);
    }
}

pub proof fn lemma_lex_asymmetric(a: Seq<char>, b: Seq<char>)
    ensures
        lex_lt(a, b) ==> !lex_lt(b, a),
    decreases a.len(),
{
    if a.len() > 0 && b.len() > 0 && a[0] == b[0] {
        lemma_lex_asymmetric(a.drop_first(), b.drop_first());
    }
}

pub proof fn lemma_lex_transitive(a: Seq<char>, b: Seq<char>, c: Seq<char>)
    requires
        lex_lt(a, b),
        lex_lt(b, c),
    ensures
        lex_lt(a, c),
    decreases a.len(),
{
    if a.len() > 0 && b.len() > 0 && c.len() > 0 {
        if a[0] == b[0] && b[0] == c[0] {
            lemma_lex_transitive(a.drop_first(), b.drop_first(), c.drop_first());
        }
    }
}

/// Whether `a` sorts before `b`, over character slices.
pub fn lex_less_chars(a: &[char], b: &[char]) -> (r: bool)
    ensures
        r == lex_lt(a@, b@),
{
    let mut i: usize = 0;
    assert(a@.skip(0) =~= a@);
    assert(b@.skip(0) =~= b@);
    while i < a.len() && i < b.len() && a[i] == b[i]
        invariant
            i <= a@.len(),
            i <= b@.len(),
            lex_lt(a@, b@) == lex_lt(a@.skip(i as int), b@.skip(i as int)),
        decreases a@.len() - i,
    {
        assert(a@.skip(i as int).drop_first() =~= a@.skip(i + 1));
        assert(b@.skip(i as int).drop_first() =~= b@.skip(i + 1));
        i = i + 1;
    }
    if i == a.len() {
        i < b.len()
    } else if i == b.len() {
        false
    } else {
        assert(a@.skip(i as int)[0] == a@[i as int]);
        assert(b@.skip(i as int)[0] == b@[i as int]);
        a[i] < b[i]
    }
}

/// Whether `a` sorts before `b`.
pub fn lex_less(a: &str, b: &str) -> (r: bool)
    ensures
        r == lex_lt(a@, b@),
{
    let av = chars_of(a);
    let bv = chars_of(b);
    lex_less_chars(av.as_slice(), bv.as_slice())
}

} // verus!
