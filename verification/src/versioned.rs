use vstd::prelude::*;

use crate::classify::BumpSeverity;
use crate::error::{error_text, MonochangeError};
use crate::text::{
    chars_of, contains, contains_str, count_until, index_of_from, lemma_count_until,
    lemma_leading_ws_bound, lemma_trailing_ws_bound, leading_ws, leading_ws_exec, lex_less, lex_lt,
    push_char, push_str, replace_all, replace_str, starts_with, str_eq, string_from_range, trim,
    trim_start, trim_str, views, trim_end, trailing_ws, is_whitespace,
};

verus! {

broadcast use vstd::string::group_string_axioms;

/// `s` cut after each `c`, every piece keeping its `c` (as `str::split_inclusive`);
/// an empty text has no pieces.
pub open spec fn inclusive_pieces(s: Seq<char>, c: char) -> Seq<Seq<char>>
    decreases s.len(),
{
    if s.len() == 0 {
        seq![]
    } else {
        let k = count_until(s, c);
        if k >= s.len() {
            seq![s]
        } else {
            seq![s.take((k + 1) as int)] + inclusive_pieces(s.skip((k + 1) as int), c)
        }
    }
}

/// `s` cut at each `c` (as `str::split`): one more piece than there are `c`s.
pub open spec fn split_pieces(s: Seq<char>, c: char) -> Seq<Seq<char>>
    decreases s.len(),
{
    let k = count_until(s, c);
    if k >= s.len() {
        seq![s]
    } else {
        seq![s.take(k as int)] + split_pieces(s.skip((k + 1) as int), c)
    }
}

/// The segments of a field path: the dot-separated parts, trimmed.
pub open spec fn path_segments(path: Seq<char>) -> Seq<Seq<char>> {
    split_pieces(path, '.').map_values(|p: Seq<char>| trim(p))
}

pub open spec fn segments_error(path: Seq<char>) -> Seq<char> {
    "versioned_files field path `"@ + path + "` must contain non-empty dot-separated segments"@
}

/// Splits a field path into its trimmed segments; an empty segment is an error.
pub fn field_path_segments(path: &str) -> (r: Result<Vec<String>, MonochangeError>)
    ensures
        (exists|i: int| 0 <= i < path_segments(path@).len() && (#[trigger] path_segments(path@)[i]).len() == 0)
            ==> (r matches Err(MonochangeError::Config(m)) && m@ == segments_error(path@)),
        !(exists|i: int| 0 <= i < path_segments(path@).len() && (#[trigger] path_segments(path@)[i]).len() == 0)
            ==> (r matches Ok(v) && crate::text::views(v@) == path_segments(path@)),
{
    let v = chars_of(path);
    let mut out: Vec<String> = Vec::new();
    let mut start: usize = 0;
    let mut bad = false;
    assert(v@.skip(0) =~= v@);
    loop
        invariant_except_break
            start <= v@.len(),
            crate::text::views(out@) + split_pieces(v@.skip(start as int), '.').map_values(|p: Seq<char>| trim(p))
                == path_segments(path@),
        invariant
            v@ == path@,
            bad == (exists|i: int| 0 <= i < out@.len() && (#[trigger] out@[i])@.len() == 0),
        ensures
            crate::text::views(out@) == path_segments(path@),
        decreases v@.len() - start,
    {
        let ghost rest = v@.skip(start as int);
        let ghost prev = out@;
        let end = index_of_from(v.as_slice(), start, '.');
        proof {
            lemma_count_until(rest, '.');
        }
        let piece = string_from_range(v.as_slice(), start, end);
        let t = trim_str(piece.as_str());
        assert(piece@ =~= rest.take(count_until(rest, '.') as int));
        if t.as_str().is_empty() {
            bad = true;
        }
        out.push(t);
        proof {
            assert(crate::text::views(out@) =~= crate::text::views(prev).push(trim(piece@)));
            if bad {
                if out@[out@.len() - 1]@.len() != 0 {
                    let w = choose|i: int| 0 <= i < prev.len() && (#[trigger] prev[i])@.len() == 0;
                    assert(out@[w] == prev[w]);
                }
            }
            if exists|i: int| 0 <= i < out@.len() && (#[trigger] out@[i])@.len() == 0 {
                let w = choose|i: int| 0 <= i < out@.len() && (#[trigger] out@[i])@.len() == 0;
                if w < prev.len() {
                    assert(out@[w] == prev[w]);
                }
            }
        }
        if end == v.len() {
            proof {
                assert(split_pieces(rest, '.') == seq![rest]);
                assert(split_pieces(rest, '.').map_values(|p: Seq<char>| trim(p)) =~= seq![trim(rest)]);
                assert(crate::text::views(out@) =~= path_segments(path@));
            }
            break;
        }
        proof {
            assert(rest.skip((count_until(rest, '.') + 1) as int) =~= v@.skip(end + 1));
            let tail = split_pieces(v@.skip(end + 1), '.');
            assert(split_pieces(rest, '.') == seq![rest.take(count_until(rest, '.') as int)] + tail);
            assert(split_pieces(rest, '.').map_values(|p: Seq<char>| trim(p))
                =~= seq![trim(piece@)] + tail.map_values(|p: Seq<char>| trim(p)));
        }
        start = end + 1;
    }
    proof {
        let segs = path_segments(path@);
        assert(crate::text::views(out@) == segs);
        assert(bad == (exists|i: int| 0 <= i < segs.len() && (#[trigger] segs[i]).len() == 0)) by {
            if bad {
                let w = choose|i: int| 0 <= i < out@.len() && (#[trigger] out@[i])@.len() == 0;
                assert(segs[w] == out@[w]@);
            }
            if exists|i: int| 0 <= i < segs.len() && (#[trigger] segs[i]).len() == 0 {
                let w = choose|i: int| 0 <= i < segs.len() && (#[trigger] segs[i]).len() == 0;
                assert(segs[w] == out@[w]@);
            }
        }
    }
    if bad {
        let mut m = String::new();
        push_str(&mut m, "versioned_files field path `");
        push_str(&mut m, path);
        push_str(&mut m, "` must contain non-empty dot-separated segments");
        Err(MonochangeError::Config(m))
    } else {
        Ok(out)
    }
}

/// A versioned-file template with its placeholders filled in.
pub open spec fn rendered_template(template: Seq<char>, name: Seq<char>, version: Seq<char>) -> Seq<char> {
    replace_all(
        replace_all(
            replace_all(replace_all(template, "{{ version }}"@, version), "{{version}}"@, version),
            "{{ name }}"@,
            name,
        ),
        "{{name}}"@,
        name,
    )
}

/// Fills the `{{ version }}` and `{{ name }}` placeholders of a template (also
/// written without the inner blanks); a missing name stands for empty text.
pub fn render_versioned_template(template: &str, name: Option<&str>, version: &str) -> (r: String)
    ensures
        r@ == rendered_template(template@, match name {
            Some(n) => n@,
            None => Seq::<char>::empty(),
        }, version@),
{
    let n: &str = match name {
        Some(n) => n,
        None => "",
    };
    proof {
        reveal_strlit("{{ version }}");
        reveal_strlit("{{version}}");
        reveal_strlit("{{ name }}");
        reveal_strlit("{{name}}");
        reveal_strlit("");
        assert(n@ == (match name {
            Some(x) => x@,
            None => Seq::<char>::empty(),
        }));
    }
    let a = replace_str(template, "{{ version }}", version);
    let b = replace_str(a.as_str(), "{{version}}", version);
    let c = replace_str(b.as_str(), "{{ name }}", n);
    replace_str(c.as_str(), "{{name}}", n)
}

/// The assignment part of an env line: after leading blanks and an `export ` keyword.
pub open spec fn env_assignment(body: Seq<char>) -> Seq<char> {
    let t = trim_start(body);
    if starts_with(t, "export "@) { t.skip(7) } else { t }
}

/// The rewritten env line `body` when it assigns `key`.
pub open spec fn env_line_update(body: Seq<char>, key: Seq<char>, version: Seq<char>) -> Option<Seq<char>> {
    let a = env_assignment(body);
    let k = count_until(a, '=');
    if k >= a.len() {
        None
    } else if trim(a.take(k as int)) != key {
        None
    } else {
        let export = if starts_with(trim_start(body), "export "@) { "export "@ } else { Seq::empty() };
        Some(body.take(leading_ws(body) as int) + export + a.take(k as int) + "="@ + version)
    }
}

/// A piece of the text without its line ending, and the ending.
pub open spec fn piece_body(piece: Seq<char>) -> Seq<char> {
    if piece.len() > 0 && piece.last() == '\n' { piece.drop_last() } else { piece }
}

pub open spec fn piece_ending(piece: Seq<char>) -> Seq<char> {
    if piece.len() > 0 && piece.last() == '\n' { "\n"@ } else { Seq::empty() }
}

/// The env text after setting `key` on every line that assigns it.
pub open spec fn env_updated(pieces: Seq<Seq<char>>, key: Seq<char>, version: Seq<char>) -> Seq<char>
    decreases pieces.len(),
{
    if pieces.len() == 0 {
        Seq::empty()
    } else {
        let p = pieces.last();
        let line = match env_line_update(piece_body(p), key, version) {
            Some(l) => l,
            None => piece_body(p),
        };
        env_updated(pieces.drop_last(), key, version) + line + piece_ending(p)
    }
}

/// Some line assigns `key`.
pub open spec fn env_has_key(pieces: Seq<Seq<char>>, key: Seq<char>, version: Seq<char>) -> bool {
    exists|i: int| 0 <= i < pieces.len() && env_line_update(piece_body(#[trigger] pieces[i]), key, version) is Some
}

pub open spec fn env_missing_error(key: Seq<char>) -> Seq<char> {
    "versioned_files env field `"@ + key + "` was not found"@
}

fn env_line(body: &str, key: &str, version: &str) -> (r: Option<String>)
    ensures
        match env_line_update(body@, key@, version@) {
            Some(l) => r matches Some(x) && x@ == l,
            None => r is None,
        },
{
    let bv = chars_of(body);
    let lead = leading_ws_exec(bv.as_slice());
    proof {
        lemma_leading_ws_bound(bv@);
        reveal_strlit("export ");
    }
    let trimmed = string_from_range(bv.as_slice(), lead, bv.len());
    assert(trimmed@ =~= trim_start(body@));
    let tv = chars_of(trimmed.as_str());
    let has_export = crate::text::starts_with_str(trimmed.as_str(), "export ");
    let a_start: usize = if has_export { 7 } else { 0 };
    let eq = index_of_from(tv.as_slice(), a_start, '=');
    let ghost a = env_assignment(body@);
    assert(a =~= tv@.skip(a_start as int));
    proof {
        lemma_count_until(a, '=');
    }
    if eq == tv.len() {
        return None;
    }
    let candidate = string_from_range(tv.as_slice(), a_start, eq);
    assert(candidate@ =~= a.take(count_until(a, '=') as int));
    let ct = trim_str(candidate.as_str());
    if !str_eq(ct.as_str(), key) {
        return None;
    }
    let mut out = string_from_range(bv.as_slice(), 0, lead);
    assert(out@ =~= body@.take(leading_ws(body@) as int));
    if has_export {
        push_str(&mut out, "export ");
    }
    push_str(&mut out, candidate.as_str());
    push_str(&mut out, "=");
    push_str(&mut out, version);
    Some(out)
}

/// Sets `key` to `version` on every line of an env file that assigns it; an
/// error when no line does.
pub fn update_env_key(contents: &str, key: &str, version: &str) -> (r: Result<String, MonochangeError>)
    ensures
        env_has_key(inclusive_pieces(contents@, '\n'), key@, version@)
            ==> (r matches Ok(s) && s@ == env_updated(inclusive_pieces(contents@, '\n'), key@, version@)),
        !env_has_key(inclusive_pieces(contents@, '\n'), key@, version@)
            ==> (r matches Err(MonochangeError::Config(m)) && m@ == env_missing_error(key@)),
{
    let v = chars_of(contents);
    let mut out = String::new();
    let mut found = false;
    let mut start: usize = 0;
    let ghost all = inclusive_pieces(contents@, '\n');
    let ghost mut done: Seq<Seq<char>> = seq![];
    assert(v@.skip(0) =~= v@);
    while start < v.len()
        invariant
            start <= v@.len(),
            v@ == contents@,
            done + inclusive_pieces(v@.skip(start as int), '\n') == all,
            out@ == env_updated(done, key@, version@),
            found == env_has_key(done, key@, version@),
        decreases v@.len() - start,
    {
        let ghost rest = v@.skip(start as int);
        let nl = index_of_from(v.as_slice(), start, '\n');
        proof {
            lemma_count_until(rest, '\n');
        }
        let end = if nl < v.len() { nl + 1 } else { nl };
        let piece_end_has_nl = nl < v.len();
        let body = string_from_range(v.as_slice(), start, nl);
        let ghost piece = v@.subrange(start as int, end as int);
        proof {
            if nl < v.len() {
                assert(piece =~= rest.take((count_until(rest, '\n') + 1) as int));
                assert(piece.last() == '\n');
                assert(body@ =~= piece.drop_last());
                assert(rest.skip((count_until(rest, '\n') + 1) as int) =~= v@.skip(end as int));
            } else {
                assert(piece =~= rest);
                if piece.len() > 0 {
                    assert(piece.last() != '\n');
                }
                assert(body@ =~= piece);
                assert(v@.skip(end as int) =~= Seq::<char>::empty());
            }
            assert(inclusive_pieces(rest, '\n') == seq![piece] + inclusive_pieces(v@.skip(end as int), '\n'));
        }
        let ghost prev = done;
        let updated = env_line(body.as_str(), key, version);
        match updated {
            Some(line) => {
                push_str(&mut out, line.as_str());
                found = true;
            },
            None => {
                push_str(&mut out, body.as_str());
            },
        }
        if piece_end_has_nl {
            push_str(&mut out, "\n");
        }
        proof {
            done = prev.push(piece);
            assert(done.drop_last() =~= prev);
            assert(done.last() == piece);
            assert(prev + inclusive_pieces(rest, '\n') =~= done + inclusive_pieces(v@.skip(end as int), '\n'));
            assert(out@ =~= env_updated(done, key@, version@));
            assert(found == env_has_key(done, key@, version@)) by {
                if env_has_key(done, key@, version@) {
                    let w = choose|i: int| 0 <= i < done.len() && env_line_update(piece_body(#[trigger] done[i]), key@, version@) is Some;
                    if w < prev.len() {
                        assert(prev[w] == done[w]);
                    }
                }
                if env_has_key(prev, key@, version@) {
                    let w = choose|i: int| 0 <= i < prev.len() && env_line_update(piece_body(#[trigger] prev[i]), key@, version@) is Some;
                    assert(done[w] == prev[w]);
                }
                if updated is Some {
                    assert(done[prev.len() as int] == piece);
                }
            }
        }
        start = end;
    }
    assert(v@.skip(start as int) =~= Seq::<char>::empty());
    assert(done + Seq::<Seq<char>>::empty() =~= done);
    if !found {
        let mut m = String::new();
        push_str(&mut m, "versioned_files env field `");
        push_str(&mut m, key);
        push_str(&mut m, "` was not found");
        return Err(MonochangeError::Config(m));
    }
    Ok(out)
}

/// An env file with `key=version` appended on a line of its own.
pub open spec fn env_added(contents: Seq<char>, key: Seq<char>, version: Seq<char>) -> Seq<char> {
    let sep = if contents.len() > 0 && contents.last() != '\n' { "\n"@ } else { Seq::empty() };
    contents + sep + key + "="@ + version + "\n"@
}

/// Appends `key=version` to an env file.
pub fn add_env_key(contents: &str, key: &str, version: &str) -> (r: String)
    ensures
        r@ == env_added(contents@, key@, version@),
{
    let v = chars_of(contents);
    let mut out = String::new();
    push_str(&mut out, contents);
    proof {
        reveal_strlit("\n");
    }
    if v.len() > 0 && v[v.len() - 1] != '\n' {
        push_str(&mut out, "\n");
    }
    proof {
        if v@.len() > 0 {
            assert(v@.last() == v@[v@.len() - 1]);
        }
    }
    push_str(&mut out, key);
    push_str(&mut out, "=");
    push_str(&mut out, version);
    push_str(&mut out, "\n");
    assert(out@ =~= env_added(contents@, key@, version@));
    out
}

pub proof fn lemma_contains_in_tail(a: Seq<char>, b: Seq<char>, p: Seq<char>)
    requires
        contains(b, p),
    ensures
        contains(a + b, p),
{
    let i = choose|i: int| crate::text::occurs_at(b, p, i);
    assert((a + b).subrange(a.len() + i, a.len() + i + p.len()) =~= b.subrange(i, i + p.len()));
    assert(crate::text::occurs_at(a + b, p, a.len() + i));
}

pub proof fn lemma_env_missing_is_missing_field(key: Seq<char>)
    ensures
        contains(env_missing_error(key), " was not found"@),
{
    reveal_strlit("` was not found");
    reveal_strlit(" was not found");
    let tail = "` was not found"@;
    assert(tail.subrange(1, 15) =~= " was not found"@);
    assert(crate::text::occurs_at(tail, " was not found"@, 1));
    lemma_contains_in_tail("versioned_files env field `"@ + key, tail, " was not found"@);
    assert(env_missing_error(key) =~= ("versioned_files env field `"@ + key) + tail);
}

proof fn lemma_count_until_prefix(k: Seq<char>, rest: Seq<char>, c: char)
    requires
        forall|i: int| 0 <= i < k.len() ==> k[i] != c,
        rest.len() > 0,
        rest[0] == c,
    ensures
        count_until(k + rest, c) == k.len(),
    decreases k.len(),
{
    if k.len() > 0 {
        assert((k + rest).drop_first() =~= k.drop_first() + rest);
        lemma_count_until_prefix(k.drop_first(), rest, c);
    } else {
        assert(k + rest =~= rest);
    }
}

proof fn lemma_pieces_append(x: Seq<char>, y: Seq<char>, c: char)
    requires
        x.len() == 0 || x.last() == c,
    ensures
        inclusive_pieces(x + y, c) == inclusive_pieces(x, c) + inclusive_pieces(y, c),
    decreases x.len(),
{
    if x.len() == 0 {
        assert(x + y =~= y);
        assert(inclusive_pieces(x, c) + inclusive_pieces(y, c) =~= inclusive_pieces(y, c));
    } else {
        let k = count_until(x, c);
        lemma_count_until(x, c);
        assert(x[x.len() - 1] == c);
        assert(k < x.len());
        lemma_count_until(x + y, c);
        assert forall|j: int| 0 <= j < k implies (x + y)[j] != c by {
            assert((x + y)[j] == x[j]);
        }
        assert((x + y)[k as int] == c);
        let kk = count_until(x + y, c);
        if kk < k {
            assert((x + y)[kk as int] == c);
        }
        if kk > k {
            assert((x + y)[k as int] != c);
        }
        assert(kk == k);
        let tail = x.skip((k + 1) as int);
        assert((x + y).take((k + 1) as int) =~= x.take((k + 1) as int));
        assert((x + y).skip((k + 1) as int) =~= tail + y);
        if tail.len() > 0 {
            assert(tail.last() == x.last());
        }
        lemma_pieces_append(tail, y, c);
        assert(inclusive_pieces(x + y, c) =~= seq![x.take((k + 1) as int)] + (inclusive_pieces(tail, c) + inclusive_pieces(y, c)));
        assert(inclusive_pieces(x, c) =~= seq![x.take((k + 1) as int)] + inclusive_pieces(tail, c));
    }
}

/// A key that an env file can assign and find again: no surrounding blanks,
/// no `=` or line break in it, and no `export ` at its start.
pub open spec fn plain_env_key(key: Seq<char>) -> bool {
    &&& trim(key) == key
    &&& forall|i: int| 0 <= i < key.len() ==> key[i] != '=' && key[i] != '\n'
    &&& !starts_with(key, "export "@)
}

/// A key appended to an env file is then found by an update of that key
/// (for a plain key and a version without line breaks), so setting it
/// succeeds.
pub proof fn lemma_added_env_key_is_found(contents: Seq<char>, key: Seq<char>, version: Seq<char>, next: Seq<char>)
    requires
        plain_env_key(key),
        forall|i: int| 0 <= i < version.len() ==> version[i] != '\n',
    ensures
        env_has_key(inclusive_pieces(env_added(contents, key, version), '\n'), key, next),
{
    reveal_strlit("export ");
    reveal_strlit("=");
    reveal_strlit("\n");
    let sep: Seq<char> = if contents.len() > 0 && contents.last() != '\n' { "\n"@ } else { Seq::empty() };
    let x = contents + sep;
    let body = key + "="@ + version;
    let y = body + "\n"@;
    assert(env_added(contents, key, version) =~= x + y);
    if x.len() > 0 {
        if sep.len() == 0 {
            assert(x =~= contents);
        } else {
            assert(x.last() == '\n');
        }
    }
    lemma_pieces_append(x, y, '\n');
    assert forall|i: int| 0 <= i < body.len() implies body[i] != '\n' by {
        if i < key.len() {
            assert(body[i] == key[i]);
        } else if i > key.len() {
            assert(body[i] == version[i - key.len() - 1]);
        }
    }
    lemma_count_until_prefix(body, "\n"@, '\n');
    assert(count_until(y, '\n') == body.len());
    assert(y.take((body.len() + 1) as int) =~= y);
    assert(y.skip((body.len() + 1) as int) =~= Seq::<char>::empty());
    assert(inclusive_pieces(Seq::<char>::empty(), '\n') =~= Seq::<Seq<char>>::empty());
    assert(y.take(y.len() as int) =~= y);
    assert(y.skip(y.len() as int) =~= Seq::<char>::empty());
    assert(inclusive_pieces(y, '\n') =~= seq![y]);
    let pieces = inclusive_pieces(x + y, '\n');
    let last = pieces.len() - 1;
    assert(pieces[last] == y);
    assert(piece_body(y) =~= body);
    lemma_leading_ws_bound(key);
    lemma_trailing_ws_bound(trim_start(key));
    if key.len() > 0 {
        if is_whitespace(key[0]) {
            assert(leading_ws(key) > 0);
            assert(trim(key).len() < key.len());
        }
        assert(body[0] == key[0]);
    } else {
        assert(body[0] == '=');
    }
    assert(leading_ws(body) == 0);
    assert(trim_start(body) =~= body);
    if key.len() >= 7 {
        assert(body.subrange(0, 7) =~= key.subrange(0, 7));
    } else {
        assert(body[key.len() as int] == '=');
    }
    assert(!starts_with(body, "export "@));
    assert(env_assignment(body) == body);
    lemma_count_until_prefix(key, "="@ + version, '=');
    assert(key + ("="@ + version) =~= body);
    assert(body.take(key.len() as int) =~= key);
    assert(env_line_update(piece_body(pieces[last]), key, next) is Some);
}

/// The error says that a field, a segment of its path, or an env key is absent.
pub open spec fn missing_field(e: MonochangeError) -> bool {
    contains(error_text(e), " is missing leaf "@) || contains(error_text(e), " is missing segment "@)
        || contains(error_text(e), " was not found"@)
}

/// Whether an error reports a missing field rather than a malformed document.
pub fn is_missing_field_error(error: &MonochangeError) -> (r: bool)
    ensures
        r == missing_field(*error),
{
    let message = error.render();
    contains_str(message.as_str(), " is missing leaf ")
        || contains_str(message.as_str(), " is missing segment ")
        || contains_str(message.as_str(), " was not found")
}

/// What to do when a versioned-file field is missing.
#[derive(Clone, Copy, Debug, PartialEq, Eq, Structural)]
pub enum MissingFieldBehavior {
    Ignore,
    Add,
}

/// Decides, after a failed field update, whether to add the field (`Ok(true)`),
/// leave it (`Ok(false)`), or give up with the error when it is not about a
/// missing field.
pub fn update_format_error_action(
    field_path: &str,
    error: MonochangeError,
    missing_field_behavior: MissingFieldBehavior,
) -> (r: Result<bool, MonochangeError>)
    ensures
        !missing_field(error) ==> r == Err::<bool, MonochangeError>(error),
        missing_field(error) ==> r == Ok::<bool, MonochangeError>(missing_field_behavior == MissingFieldBehavior::Add),
{
    if !is_missing_field_error(&error) {
        return Err(error);
    }
    match missing_field_behavior {
        MissingFieldBehavior::Ignore => Ok(false),
        MissingFieldBehavior::Add => Ok(true),
    }
}

/// An env versioned file after setting each templated field: a field that is
/// missing is added or left out as the behavior says.
pub open spec fn env_fields_applied(
    contents: Seq<char>,
    fields: Seq<Seq<char>>,
    name: Seq<char>,
    version: Seq<char>,
    behavior: MissingFieldBehavior,
) -> Seq<char>
    decreases fields.len(),
{
    if fields.len() == 0 {
        contents
    } else {
        let before = env_fields_applied(contents, fields.drop_last(), name, version, behavior);
        let key = rendered_template(fields.last(), name, version);
        let pieces = inclusive_pieces(before, '\n');
        if env_has_key(pieces, key, version) {
            env_updated(pieces, key, version)
        } else if behavior == MissingFieldBehavior::Add {
            env_added(before, key, version)
        } else {
            before
        }
    }
}

/// Sets the templated fields of an env versioned file to `version`.
pub fn update_env_versioned_file_text(
    contents: &str,
    fields: &Vec<String>,
    version: &str,
    name: Option<&str>,
    missing_field_behavior: MissingFieldBehavior,
) -> (r: String)
    ensures
        r@ == env_fields_applied(contents@, crate::text::views(fields@), match name {
            Some(n) => n@,
            None => Seq::<char>::empty(),
        }, version@, missing_field_behavior),
{
    let ghost nm = match name {
        Some(n) => n@,
        None => Seq::<char>::empty(),
    };
    let mut output = contents.to_string();
    let mut i: usize = 0;
    while i < fields.len()
        invariant
            i <= fields@.len(),
            nm == (match name {
                Some(n) => n@,
                None => Seq::<char>::empty(),
            }),
            output@ == env_fields_applied(contents@, crate::text::views(fields@).take(i as int), nm, version@, missing_field_behavior),
        decreases fields@.len() - i,
    {
        proof {
            assert(crate::text::views(fields@).take(i + 1).drop_last() =~= crate::text::views(fields@).take(i as int));
            assert(crate::text::views(fields@).take(i + 1).last() == fields@[i as int]@);
        }
        let key = render_versioned_template(fields[i].as_str(), name, version);
        match update_env_key(output.as_str(), key.as_str(), version) {
            Ok(updated) => {
                output = updated;
            },
            Err(error) => {
                proof {
                    lemma_env_missing_is_missing_field(key@);
                }
                let add = match update_format_error_action(key.as_str(), error, missing_field_behavior) {
                    Ok(add) => add,
                    Err(_) => {
                        assert(false);
                        false
                    },
                };
                if add {
                    output = add_env_key(output.as_str(), key.as_str(), version);
                }
            },
        }
        i = i + 1;
    }
    assert(crate::text::views(fields@).take(fields@.len() as int) =~= crate::text::views(fields@));
    output
}

} // verus!
verus! {

/// The fields one template gives: with a `{{ name }}` (or `{{name}}`)
/// placeholder, one field per dependency name with the placeholder replaced;
/// otherwise the template itself.
pub open spec fn expand_template(template: Seq<char>, names: Seq<Seq<char>>) -> Seq<Seq<char>> {
    if contains(template, "{{ name }}"@) {
        names.map_values(|n: Seq<char>| replace_all(template, "{{ name }}"@, n))
    } else if contains(template, "{{name}}"@) {
        names.map_values(|n: Seq<char>| replace_all(template, "{{name}}"@, n))
    } else {
        seq![template]
    }
}

/// The fields of all templates, in order.
pub open spec fn expanded_fields(templates: Seq<Seq<char>>, names: Seq<Seq<char>>) -> Seq<Seq<char>>
    decreases templates.len(),
{
    if templates.len() == 0 {
        seq![]
    } else {
        expanded_fields(templates.drop_last(), names) + expand_template(templates.last(), names)
    }
}

fn push_expanded(fields: &mut Vec<String>, template: &str, pat: &str, names: &[String])
    requires
        pat@.len() > 0,
    ensures
        views(final(fields)@) == views(old(fields)@) + views(names@).map_values(|n: Seq<char>| replace_all(template@, pat@, n)),
{
    let ghost start = views(fields@);
    let mut i: usize = 0;
    while i < names.len()
        invariant
            i <= names@.len(),
            pat@.len() > 0,
            views(fields@) == start + views(names@.take(i as int)).map_values(|n: Seq<char>| replace_all(template@, pat@, n)),
        decreases names@.len() - i,
    {
        let ghost before = views(fields@);
        fields.push(replace_str(template, pat, names[i].as_str()));
        proof {
            assert(views(fields@) =~= before.push(replace_all(template@, pat@, names@[i as int]@)));
            assert(views(names@.take(i + 1)).map_values(|n: Seq<char>| replace_all(template@, pat@, n))
                =~= views(names@.take(i as int)).map_values(|n: Seq<char>| replace_all(template@, pat@, n)).push(
                replace_all(template@, pat@, names@[i as int]@),
            ));
        }
        i = i + 1;
    }
    assert(names@.take(names@.len() as int) =~= names@);
}

/// The dependency fields a versioned file definition updates: its own field
/// templates when it has some, the ecosystem's default fields otherwise, each
/// template with a name placeholder expanded once per dependency name.
pub fn expand_versioned_file_fields(
    fields: Option<&[String]>,
    default_fields: &[String],
    dep_names: &[String],
) -> (r: Vec<String>)
    ensures
        views(r@) == expanded_fields(
            match fields {
                Some(f) => views(f@),
                None => views(default_fields@),
            },
            views(dep_names@),
        ),
{
    let templates: &[String] = match fields {
        Some(f) => f,
        None => default_fields,
    };
    proof {
        reveal_strlit("{{ name }}");
        reveal_strlit("{{name}}");
    }
    let mut out: Vec<String> = Vec::new();
    let mut t: usize = 0;
    while t < templates.len()
        invariant
            t <= templates@.len(),
            views(out@) == expanded_fields(views(templates@.take(t as int)), views(dep_names@)),
        decreases templates@.len() - t,
    {
        proof {
            assert(views(templates@.take(t + 1)).drop_last() =~= views(templates@.take(t as int)));
            assert(views(templates@.take(t + 1)).last() == templates@[t as int]@);
        }
        let template = templates[t].as_str();
        let ghost before = views(out@);
        proof {
            reveal_strlit("{{ name }}");
            reveal_strlit("{{name}}");
        }
        if contains_str(template, "{{ name }}") {
            push_expanded(&mut out, template, "{{ name }}", dep_names);
        } else if contains_str(template, "{{name}}") {
            push_expanded(&mut out, template, "{{name}}", dep_names);
        } else {
            out.push(templates[t].clone());
            assert(views(out@) =~= before + seq![template@]);
        }
        t = t + 1;
    }
    assert(templates@.take(templates@.len() as int) =~= templates@);
    out
}

} // verus!
