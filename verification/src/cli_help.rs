use vstd::prelude::*;

use crate::text::{
    chars_of, count_until, index_of_from, lemma_count_until, lines, lines_of, push_char, push_str,
    starts_with, starts_with_str, string_from_chars, trim_end, trim_end_str, views,
};

verus! {

broadcast use vstd::string::group_string_axioms;

/// Markdown inline text as plain text: backticks dropped, a link `[label](url)`
/// or a bracketed `[label]` reduced to its label; a `[` without a closing `]`
/// stays as it is.
pub open spec fn plain_inline(s: Seq<char>) -> Seq<char>
    decreases s.len(),
{
    if s.len() == 0 {
        s
    } else if s[0] == '`' {
        plain_inline(s.drop_first())
    } else if s[0] == '[' && count_until(s, ']') < s.len() {
        let k = count_until(s, ']');
        let label = s.subrange(1, k as int);
        let after = s.skip((k + 1) as int);
        if after.len() > 0 && after[0] == '(' && count_until(after, ')') < after.len() {
            plain_inline(label) + plain_inline(after.skip((count_until(after, ')') + 1) as int))
        } else {
            plain_inline(label) + plain_inline(after)
        }
    } else {
        seq![s[0]] + plain_inline(s.drop_first())
    }
}

fn plain_inline_chars(v: &[char]) -> (r: String)
    ensures
        r@ == plain_inline(v@),
    decreases v@.len(),
{
    let mut out = String::new();
    let mut i: usize = 0;
    assert(v@.skip(0) =~= v@);
    while i < v.len()
        invariant
            i <= v@.len(),
            out@ + plain_inline(v@.skip(i as int)) == plain_inline(v@),
        decreases v@.len() - i,
    {
        let ghost rest = v@.skip(i as int);
        let ghost before = out@;
        proof {
            assert(rest[0] == v@[i as int]);
            assert(rest.drop_first() =~= v@.skip(i + 1));
        }
        if v[i] == '`' {
            i = i + 1;
        } else if v[i] == '[' {
            let close = index_of_from(v, i, ']');
            proof {
                lemma_count_until(rest, ']');
            }
            if close < v.len() {
                let mut label: Vec<char> = Vec::new();
                let mut j = i + 1;
                while j < close
                    invariant
                        i + 1 <= j <= close,
                        close < v@.len(),
                        label@ == v@.subrange(i + 1, j as int),
                    decreases close - j,
                {
                    label.push(v[j]);
                    j = j + 1;
                    assert(label@ =~= v@.subrange(i + 1, j as int));
                }
                assert(label@ =~= rest.subrange(1, count_until(rest, ']') as int));
                let inner = plain_inline_chars(label.as_slice());
                push_str(&mut out, inner.as_str());
                let after_start = close + 1;
                let ghost after = rest.skip((count_until(rest, ']') + 1) as int);
                assert(after =~= v@.skip(after_start as int));
                if after_start < v.len() && v[after_start] == '(' {
                    let paren = index_of_from(v, after_start, ')');
                    proof {
                        lemma_count_until(after, ')');
                        assert(after[0] == v@[after_start as int]);
                    }
                    if paren < v.len() {
                        i = paren + 1;
                        assert(after.skip((count_until(after, ')') + 1) as int) =~= v@.skip(i as int));
                    } else {
                        i = after_start;
                    }
                } else {
                    i = after_start;
                }
            } else {
                push_char(&mut out, '[');
                i = i + 1;
            }
        } else {
            push_char(&mut out, v[i]);
            i = i + 1;
        }
        assert(out@ + plain_inline(v@.skip(i as int)) =~= plain_inline(v@));
    }
    assert(v@.skip(i as int) =~= Seq::<char>::empty());
    assert(out@ + Seq::<char>::empty() =~= out@);
    out
}

/// Strips inline Markdown (code spans, links and bracketed labels) from a line.
pub fn strip_inline_markdown(line: &str) -> (r: String)
    ensures
        r@ == plain_inline(line@),
{
    let v = chars_of(line);
    plain_inline_chars(v.as_slice())
}

/// A Markdown code fence line.
pub open spec fn is_fence(line: Seq<char>) -> bool {
    starts_with(line, "```"@)
}

/// Number of leading `#` characters.
pub open spec fn hashes(line: Seq<char>) -> nat
    decreases line.len(),
{
    if line.len() > 0 && line[0] == '#' { 1 + hashes(line.drop_first()) } else { 0 }
}

/// A heading line without its `#` marks and the blank after them.
pub open spec fn heading_text(line: Seq<char>) -> Seq<char> {
    let rest = line.skip(hashes(line) as int);
    if rest.len() > 0 && rest[0] == ' ' { rest.drop_first() } else { rest }
}

/// The help lines for the Markdown lines `ls`, given whether a code block is open:
/// fences are dropped, code lines are indented by two spaces and kept verbatim,
/// headings lose their marks, and other lines lose their inline Markdown.
pub open spec fn help_lines(ls: Seq<Seq<char>>, in_code: bool) -> Seq<Seq<char>>
    decreases ls.len(),
{
    if ls.len() == 0 {
        seq![]
    } else {
        let l = ls[0];
        if is_fence(l) {
            help_lines(ls.drop_first(), !in_code)
        } else if in_code {
            seq!["  "@ + l] + help_lines(ls.drop_first(), in_code)
        } else if hashes(l) > 0 {
            seq![plain_inline(heading_text(l))] + help_lines(ls.drop_first(), in_code)
        } else {
            seq![plain_inline(l)] + help_lines(ls.drop_first(), in_code)
        }
    }
}

/// Joins lines with newlines.
pub open spec fn join_lines(ls: Seq<Seq<char>>) -> Seq<char>
    decreases ls.len(),
{
    if ls.len() == 0 {
        Seq::empty()
    } else if ls.len() == 1 {
        ls[0]
    } else {
        join_lines(ls.drop_last()) + "\n"@ + ls.last()
    }
}

/// The help text for a Markdown document.
pub open spec fn clap_help(markdown: Seq<char>) -> Seq<char> {
    trim_end(join_lines(help_lines(lines(markdown), false)))
}

fn heading_of(v: &[char]) -> (r: String)
    ensures
        r@ == heading_text(v@),
{
    let mut k: usize = 0;
    assert(v@.skip(0) =~= v@);
    while k < v.len() && v[k] == '#'
        invariant
            k <= v@.len(),
            hashes(v@) == k + hashes(v@.skip(k as int)),
        decreases v@.len() - k,
    {
        assert(v@.skip(k as int).drop_first() =~= v@.skip(k + 1));
        k = k + 1;
    }
    if k < v.len() {
        assert(v@.skip(k as int)[0] == v@[k as int]);
    }
    let start = if k < v.len() && v[k] == ' ' { k + 1 } else { k };
    let mut out: Vec<char> = Vec::new();
    let mut j = start;
    while j < v.len()
        invariant
            start <= j <= v@.len(),
            out@ == v@.subrange(start as int, j as int),
        decreases v@.len() - j,
    {
        out.push(v[j]);
        j = j + 1;
        assert(out@ =~= v@.subrange(start as int, j as int));
    }
    assert(out@ =~= heading_text(v@));
    string_from_chars(out.as_slice())
}

/// Turns Markdown documentation into plain help text for the command line.
pub fn markdown_to_clap_help(markdown: &str) -> (r: String)
    ensures
        r@ == clap_help(markdown@),
{
    let ls = lines_of(markdown);
    let mut out = String::new();
    let mut in_code = false;
    let mut any = false;
    let mut i: usize = 0;
    let ghost all = views(ls@);
    assert(all.skip(0) =~= all);
    while i < ls.len()
        invariant
            i <= ls@.len(),
            all == views(ls@),
            all.len() == ls@.len(),
            !any ==> out@.len() == 0,
            join_lines(help_lines(all, false)) == (if !any {
                join_lines(help_lines(all.skip(i as int), in_code))
            } else if help_lines(all.skip(i as int), in_code).len() == 0 {
                out@
            } else {
                out@ + "\n"@ + join_lines(help_lines(all.skip(i as int), in_code))
            }),
        decreases ls@.len() - i,
    {
        let ghost rest = all.skip(i as int);
        proof {
            assert(rest[0] == ls@[i as int]@);
            assert(rest.drop_first() =~= all.skip(i + 1));
            lemma_join_front(help_lines(rest, in_code));
        }
        let line = &ls[i];
        if starts_with_str(line.as_str(), "```") {
            in_code = !in_code;
        } else {
            let piece: String = if in_code {
                let mut p = String::new();
                push_str(&mut p, "  ");
                push_str(&mut p, line.as_str());
                p
            } else {
                let lv = chars_of(line.as_str());
                if lv.len() > 0 && lv[0] == '#' {
                    let h = heading_of(lv.as_slice());
                    strip_inline_markdown(h.as_str())
                } else {
                    strip_inline_markdown(line.as_str())
                }
            };
            proof {
                assert(help_lines(rest, in_code) == seq![piece@] + help_lines(rest.drop_first(), in_code));
                lemma_join_front(seq![piece@] + help_lines(rest.drop_first(), in_code));
                assert((seq![piece@] + help_lines(rest.drop_first(), in_code)).drop_first() =~= help_lines(rest.drop_first(), in_code));
            }
            if any {
                push_str(&mut out, "\n");
            }
            push_str(&mut out, piece.as_str());
            any = true;
            proof {
                let tail = help_lines(all.skip(i + 1), in_code);
                if tail.len() > 0 {
                    assert(join_lines(help_lines(rest, in_code)) =~= piece@ + "\n"@ + join_lines(tail));
                } else {
                    assert(join_lines(help_lines(rest, in_code)) =~= piece@);
                }
            }
        }
        i = i + 1;
    }
    assert(all.skip(i as int) =~= Seq::<Seq<char>>::empty());
    trim_end_str(out.as_str())
}

/// Joining lines after a first one puts that line and a newline in front.
pub proof fn lemma_join_front(ls: Seq<Seq<char>>)
    ensures
        ls.len() >= 2 ==> join_lines(ls) == ls[0] + "\n"@ + join_lines(ls.drop_first()),
        ls.len() == 1 ==> join_lines(ls) == ls[0],
    decreases ls.len(),
{
    if ls.len() >= 3 {
        let dl = ls.drop_last();
        let df = ls.drop_first();
        let m = df.drop_last();
        lemma_join_front(dl);
        assert(dl.drop_first() =~= m);
        assert(df.last() == ls.last());
        assert(dl[0] == ls[0]);
        assert(join_lines(dl) == dl[0] + "\n"@ + join_lines(m));
        assert(join_lines(df) == join_lines(m) + "\n"@ + df.last());
        assert(join_lines(ls) == join_lines(dl) + "\n"@ + ls.last());
        assert(join_lines(ls) =~= ls[0] + "\n"@ + join_lines(df));
    } else if ls.len() == 2 {
        let dl = ls.drop_last();
        let df = ls.drop_first();
        assert(dl.len() == 1 && dl[0] == ls[0]);
        assert(df.len() == 1 && df[0] == ls[1]);
        assert(join_lines(dl) == ls[0]);
        assert(join_lines(df) == ls[1]);
        assert(join_lines(ls) == join_lines(dl) + "\n"@ + ls.last());
    }
}

} // verus!
