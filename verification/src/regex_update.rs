use vstd::prelude::*;

use crate::error::MonochangeError;
use crate::paths::{decode_utf8_lossy, utf8_lossy};
use crate::text::push_str;
use vstd::string::StringSliceAdditionalSpecFns;

verus! {

broadcast use vstd::string::group_string_axioms;

/// A match of a versioned-file pattern, as byte offsets into the text: the
/// match's start and end, and the start and end of its `version` group when
/// that group took part in the match.
pub type VersionSpan = (usize, usize, Option<(usize, usize)>);

/// What the `regex` crate reports for `pattern` on `haystack`: the spans of
/// its successive non-overlapping matches with their `version` group, or the
/// text of the error that rejects the pattern.
pub uninterp spec fn regex_version_spans(pattern: Seq<char>, haystack: Seq<char>) -> Result<Seq<VersionSpan>, Seq<char>>;

/// `regex::Regex::new` and `Regex::captures_iter`: the match spans of
/// `pattern` in `haystack`, each with the span of its `version` group, or
/// the rendered error when the pattern does not compile. The spans depend on
/// the two texts alone and are given the name `regex_version_spans`; the regex
/// semantics are not restated here.
#[verifier::external_body]
fn find_version_spans(pattern: &str, haystack: &str) -> (r: Result<Vec<VersionSpan>, String>)
    ensures
        match r {
            Ok(spans) => regex_version_spans(pattern@, haystack@) == Ok::<Seq<VersionSpan>, Seq<char>>(spans@),
            Err(e) => regex_version_spans(pattern@, haystack@) == Err::<Seq<VersionSpan>, Seq<char>>(e@),
        },
{
    match regex::Regex::new(pattern) {
        Ok(re) => Ok(re
            .captures_iter(haystack)
            .map(|c| (c.get_match().start(), c.get_match().end(), c.name("version").map(|v| (v.start(), v.end()))))
            .collect()),
        Err(error) => Err(error.to_string()),
    }
}

/// A span lies within the text from `cursor` on, in order, with its version
/// group inside the match.
pub open spec fn span_fits(span: VersionSpan, cursor: int, len: int) -> bool {
    &&& cursor <= span.0 <= span.1 <= len
    &&& match span.2 {
        Some((vs, ve)) => span.0 <= vs <= ve <= span.1,
        None => true,
    }
}

/// The bytes of a match with its `version` group replaced (the match as it
/// is when the group did not take part).
pub open spec fn replaced_match(bytes: Seq<u8>, span: VersionSpan, version: Seq<u8>) -> Seq<u8> {
    match span.2 {
        Some((vs, ve)) => bytes.subrange(span.0 as int, vs as int) + version + bytes.subrange(ve as int, span.1 as int),
        None => bytes.subrange(span.0 as int, span.1 as int),
    }
}

/// The bytes from `cursor` on, with the `version` group of each span (from
/// the `k`-th on) replaced by `version`; spans that do not fit are passed over.
pub open spec fn splice_from(bytes: Seq<u8>, spans: Seq<VersionSpan>, version: Seq<u8>, k: int, cursor: int) -> Seq<u8>
    decreases spans.len() - k,
{
    if k < 0 || k >= spans.len() || cursor < 0 || cursor > bytes.len() {
        bytes.subrange(if 0 <= cursor <= bytes.len() { cursor } else { bytes.len() as int }, bytes.len() as int)
    } else if span_fits(spans[k], cursor, bytes.len() as int) {
        bytes.subrange(cursor, spans[k].0 as int) + replaced_match(bytes, spans[k], version)
            + splice_from(bytes, spans, version, k + 1, spans[k].1 as int)
    } else {
        splice_from(bytes, spans, version, k + 1, cursor)
    }
}

/// The message for a versioned-file pattern that does not compile.
pub open spec fn invalid_regex_text(pattern: Seq<char>, error: Seq<char>) -> Seq<char> {
    "invalid versioned_files regex `"@ + pattern + "`: "@ + error
}

fn push_bytes(out: &mut Vec<u8>, bytes: &[u8], from: usize, to: usize)
    requires
        from <= to <= bytes@.len(),
    ensures
        final(out)@ == old(out)@ + bytes@.subrange(from as int, to as int),
{
    let mut i = from;
    while i < to
        invariant
            from <= i <= to,
            to <= bytes@.len(),
            out@ == old(out)@ + bytes@.subrange(from as int, i as int),
        decreases to - i,
    {
        out.push(bytes[i]);
        i = i + 1;
        assert(out@ =~= old(out)@ + bytes@.subrange(from as int, i as int));
    }
}

/// The bytes of `contents` with the `version` group of each given match span
/// replaced by `version`; spans out of order or out of bounds are passed over.
pub fn splice_version_spans(contents: &str, spans: &[VersionSpan], version: &str) -> (r: Vec<u8>)
    ensures
        r@ == splice_from(contents.spec_bytes(), spans@, version.spec_bytes(), 0, 0),
{
    let bytes = contents.as_bytes();
    let vb = version.as_bytes();
    let n = bytes.len();
    let mut out: Vec<u8> = Vec::new();
    let mut cursor: usize = 0;
    let mut k: usize = 0;
    while k < spans.len()
        invariant
            bytes@ == contents.spec_bytes(),
            vb@ == version.spec_bytes(),
            n == bytes@.len(),
            k <= spans@.len(),
            cursor <= n,
            out@ + splice_from(bytes@, spans@, vb@, k as int, cursor as int)
                == splice_from(bytes@, spans@, vb@, 0, 0),
        decreases spans@.len() - k,
    {
        let (s, e, group) = spans[k];
        let fits = cursor <= s && s <= e && e <= n && match group {
            Some((vs, ve)) => s <= vs && vs <= ve && ve <= e,
            None => true,
        };
        let ghost before = out@;
        if fits {
            push_bytes(&mut out, bytes, cursor, s);
            match group {
                Some((vs, ve)) => {
                    push_bytes(&mut out, bytes, s, vs);
                    push_bytes(&mut out, vb, 0, vb.len());
                    push_bytes(&mut out, bytes, ve, e);
                    assert(vb@.subrange(0, vb@.len() as int) =~= vb@);
                },
                None => {
                    push_bytes(&mut out, bytes, s, e);
                },
            }
            assert(out@ =~= before + (bytes@.subrange(cursor as int, s as int)
                + replaced_match(bytes@, spans@[k as int], vb@)));
            cursor = e;
        }
        k = k + 1;
    }
    push_bytes(&mut out, bytes, cursor, n);
    assert(bytes@.subrange(cursor as int, n as int) == splice_from(bytes@, spans@, vb@, k as int, cursor as int));
    out
}

/// Replaces the `version` group of every match of `pattern` in `contents` with
/// `version`; a pattern that does not compile is a configuration error. The
/// text is edited as UTF-8 bytes at the offsets the regex engine reports.
pub fn update_versioned_file_regex(contents: &str, pattern: &str, version: &str) -> (r: Result<String, MonochangeError>)
    ensures
        match regex_version_spans(pattern@, contents@) {
            Ok(spans) => r matches Ok(text)
                && text@ == utf8_lossy(splice_from(contents.spec_bytes(), spans, version.spec_bytes(), 0, 0)),
            Err(e) => r matches Err(MonochangeError::Config(m)) && m@ == invalid_regex_text(pattern@, e),
        },
{
    match find_version_spans(pattern, contents) {
        Err(error) => {
            let mut m = String::new();
            push_str(&mut m, "invalid versioned_files regex `");
            push_str(&mut m, pattern);
            push_str(&mut m, "`: ");
            push_str(&mut m, error.as_str());
            proof {
                reveal_strlit("invalid versioned_files regex `");
                reveal_strlit("`: ");
            }
            assert(m@ =~= invalid_regex_text(pattern@, error@));
            Err(MonochangeError::Config(m))
        },
        Ok(spans) => {
            let out = splice_version_spans(contents, spans.as_slice(), version);
            Ok(decode_utf8_lossy(out.as_slice()))
        },
    }
}

} // verus!
