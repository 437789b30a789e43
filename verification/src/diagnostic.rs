use vstd::prelude::*;

use crate::error::MonochangeError;
use crate::text::{chars_of, contains, contains_str, split_once, split_once_str, trim_matches, trim_matches_str, is_blank, lines, lines_of, push_char, push_str, trim, trim_end, trim_end_str, views};

verus! {

/// Where the scanner that removes terminal control sequences stands.
#[derive(Clone, Copy, PartialEq, Eq, Structural)]
pub enum ControlScan {
    /// Ordinary text.
    Text,
    /// Just read an escape character.
    Escape,
    /// Inside a control sequence introduced by `ESC [`.
    Csi,
}

/// Whether `c` ends a control sequence (`'@'..='~'`).
pub open spec fn is_csi_final(c: char) -> bool {
    0x40 <= (c as u32) && (c as u32) <= 0x7E
}

/// One step of the scanner: what is kept of `c`, and the next state.
pub open spec fn control_step(st: ControlScan, c: char) -> (Seq<char>, ControlScan) {
    match st {
        ControlScan::Text => if c == '\u{1b}' {
            (Seq::empty(), ControlScan::Escape)
        } else if c == '\r' {
            (Seq::empty(), ControlScan::Text)
        } else {
            (seq![c], ControlScan::Text)
        },
        ControlScan::Escape => if c == '[' {
            (Seq::empty(), ControlScan::Csi)
        } else {
            (Seq::empty(), ControlScan::Text)
        },
        ControlScan::Csi => if is_csi_final(c) {
            (Seq::empty(), ControlScan::Text)
        } else {
            (Seq::empty(), ControlScan::Csi)
        },
    }
}

/// The text kept when scanning `s` from state `st`.
pub open spec fn strip_controls_from(s: Seq<char>, st: ControlScan) -> Seq<char>
    decreases s.len(),
{
    if s.len() == 0 {
        Seq::empty()
    } else {
        let (kept, next) = control_step(st, s[0]);
        kept + strip_controls_from(s.drop_first(), next)
    }
}

/// `s` without carriage returns and without `ESC [ ... final` control sequences;
/// an escape followed by any other character drops both.
pub open spec fn strip_controls(s: Seq<char>) -> Seq<char> {
    strip_controls_from(s, ControlScan::Text)
}

proof fn lemma_strip_output_free(s: Seq<char>, st: ControlScan)
    ensures
        forall|i: int| 0 <= i < strip_controls_from(s, st).len() ==> #[trigger] strip_controls_from(s, st)[i] != '\u{1b}'
            && strip_controls_from(s, st)[i] != '\r',
    decreases s.len(),
{
    if s.len() > 0 {
        lemma_strip_output_free(s.drop_first(), control_step(st, s[0]).1);
        let kept = control_step(st, s[0]).0;
        let rest = strip_controls_from(s.drop_first(), control_step(st, s[0]).1);
        assert forall|i: int| 0 <= i < (kept + rest).len() implies #[trigger] (kept + rest)[i] != '\u{1b}' && (kept + rest)[i] != '\r' by {
            if i >= kept.len() {
                assert((kept + rest)[i] == rest[i - kept.len()]);
            }
        }
    }
}

proof fn lemma_strip_keeps_free(s: Seq<char>)
    requires
        forall|i: int| 0 <= i < s.len() ==> #[trigger] s[i] != '\u{1b}' && s[i] != '\r',
    ensures
        strip_controls(s) == s,
    decreases s.len(),
{
    if s.len() > 0 {
        let t = s.drop_first();
        assert forall|i: int| 0 <= i < t.len() implies #[trigger] t[i] != '\u{1b}' && t[i] != '\r' by {
            assert(t[i] == s[i + 1]);
        }
        lemma_strip_keeps_free(t);
        assert(s[0] != '\u{1b}' && s[0] != '\r');
        assert(seq![s[0]] + t =~= s);
    }
}

/// What diagnostics keep of a text holds no escape and no carriage return,
/// so sanitizing it again changes nothing.
pub proof fn lemma_sanitizing_is_idempotent(s: Seq<char>)
    ensures
        forall|i: int| 0 <= i < strip_controls(s).len() ==> #[trigger] strip_controls(s)[i] != '\u{1b}'
            && strip_controls(s)[i] != '\r',
        strip_controls(strip_controls(s)) == strip_controls(s),
{
    lemma_strip_output_free(s, ControlScan::Text);
    lemma_strip_keeps_free(strip_controls(s));
}

/// `idx` picks, in increasing positions of `b`, the characters of `a` in order.
pub open spec fn embeds(idx: Seq<int>, a: Seq<char>, b: Seq<char>) -> bool {
    &&& idx.len() == a.len()
    &&& forall|k: int| 0 <= k < idx.len() ==> 0 <= #[trigger] idx[k] < b.len() && b[idx[k]] == a[k]
    &&& forall|k1: int, k2: int| 0 <= k1 < k2 < idx.len() ==> #[trigger] idx[k1] < #[trigger] idx[k2]
}

/// `a` is a subsequence of `b`: `b` with some characters left out.
pub open spec fn subsequence_of(a: Seq<char>, b: Seq<char>) -> bool {
    exists|idx: Seq<int>| #[trigger] embeds(idx, a, b)
}

proof fn lemma_strip_embeds(s: Seq<char>, st: ControlScan) -> (idx: Seq<int>)
    ensures
        embeds(idx, strip_controls_from(s, st), s),
    decreases s.len(),
{
    if s.len() == 0 {
        seq![]
    } else {
        let t = s.drop_first();
        let (kept, next) = control_step(st, s[0]);
        let rest = strip_controls_from(t, next);
        let inner = lemma_strip_embeds(t, next);
        let shifted = inner.map_values(|x: int| x + 1);
        let idx = if kept.len() == 0 { shifted } else { seq![0int] + shifted };
        let out = kept + rest;
        assert(out == strip_controls_from(s, st));
        assert forall|k: int| 0 <= k < idx.len() implies 0 <= #[trigger] idx[k] < s.len() && s[idx[k]] == out[k] by {
            if kept.len() == 0 {
                assert(idx[k] == inner[k] + 1);
                assert(s[inner[k] + 1] == t[inner[k]]);
                assert(out[k] == rest[k]);
            } else if k == 0 {
                assert(kept == seq![s[0]]);
            } else {
                assert(idx[k] == inner[k - 1] + 1);
                assert(s[inner[k - 1] + 1] == t[inner[k - 1]]);
                assert(out[k] == rest[k - 1]);
            }
        }
        assert forall|k1: int, k2: int| 0 <= k1 < k2 < idx.len() implies #[trigger] idx[k1] < #[trigger] idx[k2] by {
            if kept.len() == 0 {
                assert(idx[k1] == inner[k1] + 1 && idx[k2] == inner[k2] + 1);
            } else if k1 == 0 {
                assert(idx[k2] == inner[k2 - 1] + 1);
                assert(0 <= inner[k2 - 1]);
            } else {
                assert(idx[k1] == inner[k1 - 1] + 1 && idx[k2] == inner[k2 - 1] + 1);
            }
        }
        idx
    }
}

/// What diagnostics keep of a text is the text with some characters left
/// out, and a text with no escape and no carriage return is kept whole.
pub proof fn lemma_sanitizing_only_removes(s: Seq<char>)
    ensures
        subsequence_of(strip_controls(s), s),
        (forall|i: int| 0 <= i < s.len() ==> #[trigger] s[i] != '\u{1b}' && s[i] != '\r') ==> strip_controls(s) == s,
{
    let idx = lemma_strip_embeds(s, ControlScan::Text);
    assert(embeds(idx, strip_controls(s), s));
    if forall|i: int| 0 <= i < s.len() ==> #[trigger] s[i] != '\u{1b}' && s[i] != '\r' {
        lemma_strip_keeps_free(s);
    }
}

/// What `strip_terminal_controls` gives holds no escape and no carriage
/// return, leaves characters of the text out but adds and reorders none,
/// changes nothing when applied again, and is the text itself when the text
/// holds neither.
pub proof fn lemma_strip_terminal_controls_law(s: Seq<char>)
    ensures
        forall|i: int| 0 <= i < strip_controls(s).len() ==> #[trigger] strip_controls(s)[i] != '\u{1b}'
            && strip_controls(s)[i] != '\r',
        subsequence_of(strip_controls(s), s),
        strip_controls(strip_controls(s)) == strip_controls(s),
        (forall|i: int| 0 <= i < s.len() ==> #[trigger] s[i] != '\u{1b}' && s[i] != '\r') ==> strip_controls(s) == s,
{
    lemma_sanitizing_is_idempotent(s);
    lemma_sanitizing_only_removes(s);
}

/// Removes carriage returns and `ESC [`-style terminal control sequences from `text`.
pub fn strip_terminal_controls(text: &str) -> (r: String)
    ensures
        r@ == strip_controls(text@),
{
    let v = chars_of(text);
    let mut out = String::new();
    let mut st = ControlScan::Text;
    let mut i: usize = 0;
    assert(v@.skip(0) =~= v@);
    while i < v.len()
        invariant
            i <= v@.len(),
            v@ == text@,
            out@ + strip_controls_from(v@.skip(i as int), st) == strip_controls(v@),
        decreases v@.len() - i,
    {
        let c = v[i];
        let ghost prev = out@;
        let ghost rest = v@.skip(i as int);
        let ghost st0 = st;
        assert(rest[0] == c);
        assert(rest.drop_first() =~= v@.skip(i + 1));
        let next = match st {
            ControlScan::Text => if c == '\u{1b}' {
                ControlScan::Escape
            } else if c == '\r' {
                ControlScan::Text
            } else {
                push_char(&mut out, c);
                ControlScan::Text
            },
            ControlScan::Escape => if c == '[' {
                ControlScan::Csi
            } else {
                ControlScan::Text
            },
            ControlScan::Csi => {
                let n = c as u32;
                if 0x40 <= n && n <= 0x7E {
                    ControlScan::Text
                } else {
                    ControlScan::Csi
                }
            },
        };
        assert(out@ == prev + control_step(st, c).0);
        assert(next == control_step(st, c).1);
        st = next;
        i = i + 1;
        assert(out@ + strip_controls_from(v@.skip(i as int), st) =~= prev + strip_controls_from(rest, st0));
    }
    assert(v@.skip(i as int) =~= Seq::<char>::empty());
    assert(out@ + Seq::<char>::empty() =~= out@);
    out
}

} // verus!
verus! {

/// `text` wrapped in the SGR escape `code` and a reset when `color` is set.
pub open spec fn painted(text: Seq<char>, code: Seq<char>, color: bool) -> Seq<char> {
    if color {
        seq!['\u{1b}', '['] + code + seq!['m'] + text + seq!['\u{1b}', '[', '0', 'm']
    } else {
        text
    }
}

/// Wraps `text` in the terminal style `code` when `color` is set.
pub fn paint(text: &str, code: &str, color: bool) -> (r: String)
    ensures
        r@ == painted(text@, code@, color),
{
    let mut out = String::new();
    if color {
        push_char(&mut out, '\u{1b}');
        push_char(&mut out, '[');
        push_str(&mut out, code);
        push_char(&mut out, 'm');
        push_str(&mut out, text);
        push_char(&mut out, '\u{1b}');
        push_char(&mut out, '[');
        push_char(&mut out, '0');
        push_char(&mut out, 'm');
        assert(out@ =~= painted(text@, code@, color));
    } else {
        push_str(&mut out, text);
        assert(out@ =~= text@);
    }
    out
}

/// A field value as rendered: kept as is with color, control sequences removed without.
pub open spec fn sanitized(s: Seq<char>, color: bool) -> Seq<char> {
    if color {
        s
    } else {
        strip_controls(s)
    }
}

/// Continuation lines of a context value: blank lines stay empty, others are indented.
pub open spec fn continuation_lines(ls: Seq<Seq<char>>) -> Seq<char>
    decreases ls.len(),
{
    if ls.len() == 0 {
        Seq::empty()
    } else {
        (if trim(ls[0]).len() == 0 {
            seq!['\n']
        } else {
            "    "@ + ls[0] + seq!['\n']
        }) + continuation_lines(ls.drop_first())
    }
}

/// One labelled context entry of a diagnostic.
pub open spec fn context_entry(label: Seq<char>, value: Seq<char>, color: bool) -> Seq<char> {
    let ls = lines(sanitized(value, color));
    if ls.len() == 0 {
        Seq::empty()
    } else {
        "  "@ + painted(label, "36;1"@, color) + ": "@ + ls[0] + seq!['\n'] + continuation_lines(
            ls.drop_first(),
        )
    }
}

/// All context entries, in order.
pub open spec fn context_block(ctx: Seq<(&'static str, String)>, color: bool) -> Seq<char>
    decreases ctx.len(),
{
    if ctx.len() == 0 {
        Seq::empty()
    } else {
        let (label, value) = ctx[0];
        context_entry(label@, value@, color) + context_block(ctx.drop_first(), color)
    }
}

/// All hints, one `help:` line each.
pub open spec fn hints_block(hints: Seq<String>, color: bool) -> Seq<char>
    decreases hints.len(),
{
    if hints.len() == 0 {
        Seq::empty()
    } else {
        "  "@ + painted("help"@, "36;1"@, color) + ": "@ + hints[0]@ + seq!['\n'] + hints_block(
            hints.drop_first(),
            color,
        )
    }
}

/// A diagnostic printed for a failed command.
#[derive(Clone)]
pub struct CliDiagnostic {
    pub code: &'static str,
    pub summary: String,
    pub context: Vec<(&'static str, String)>,
    pub hints: Vec<String>,
}

impl CliDiagnostic {
    /// The rendered diagnostic before trailing whitespace is trimmed.
    pub open spec fn render_body(&self, color: bool) -> Seq<char> {
        painted("error["@ + self.code@ + "]"@, "31;1"@, color) + ": "@ + sanitized(self.summary@, color)
            + seq!['\n'] + context_block(self.context@, color) + hints_block(self.hints@, color)
    }

    /// Renders the diagnostic: an `error[code]: summary` heading, the context
    /// entries and the hints, without trailing whitespace.
    pub fn render(&self, color: bool) -> (r: String)
        ensures
            r@ == trim_end(self.render_body(color)),
    {
        let mut output = String::new();
        let mut heading = String::new();
        push_str(&mut heading, "error[");
        push_str(&mut heading, self.code);
        push_str(&mut heading, "]");
        let summary = if color {
            self.summary.clone()
        } else {
            strip_terminal_controls(self.summary.as_str())
        };
        let painted_heading = paint(heading.as_str(), "31;1", color);
        push_str(&mut output, painted_heading.as_str());
        push_str(&mut output, ": ");
        push_str(&mut output, summary.as_str());
        push_char(&mut output, '\n');
        let ghost head = output@;
        let mut i: usize = 0;
        while i < self.context.len()
            invariant
                i <= self.context@.len(),
                output@ == head + context_block(self.context@.take(i as int), color),
            decreases self.context@.len() - i,
        {
            let (label, value) = &self.context[i];
            push_context_entry(&mut output, label, value.as_str(), color);
            proof {
                lemma_context_block_push(self.context@.take(i as int), self.context@[i as int], color);
                assert(self.context@.take(i + 1) =~= self.context@.take(i as int).push(self.context@[i as int]));
            }
            i = i + 1;
        }
        assert(self.context@.take(self.context@.len() as int) =~= self.context@);
        let ghost mid = output@;
        let mut j: usize = 0;
        while j < self.hints.len()
            invariant
                j <= self.hints@.len(),
                output@ == mid + hints_block(self.hints@.take(j as int), color),
            decreases self.hints@.len() - j,
        {
            push_str(&mut output, "  ");
            let help = paint("help", "36;1", color);
            push_str(&mut output, help.as_str());
            push_str(&mut output, ": ");
            push_str(&mut output, self.hints[j].as_str());
            push_char(&mut output, '\n');
            proof {
                lemma_hints_block_push(self.hints@.take(j as int), self.hints@[j as int], color);
                assert(self.hints@.take(j + 1) =~= self.hints@.take(j as int).push(self.hints@[j as int]));
            }
            j = j + 1;
        }
        assert(self.hints@.take(self.hints@.len() as int) =~= self.hints@);
        assert(output@ =~= self.render_body(color));
        trim_end_str(output.as_str())
    }
}

/// Appends one rendered context entry to `output`.
fn push_context_entry(output: &mut String, label: &str, value: &str, color: bool)
    ensures
        final(output)@ == old(output)@ + context_entry(label@, value@, color),
{
    let ghost before = output@;
    let shown = if color {
        value.to_string()
    } else {
        strip_terminal_controls(value)
    };
    let ls = lines_of(shown.as_str());
    assert(views(ls@) == lines(sanitized(value@, color)));
    if ls.len() > 0 {
        push_str(output, "  ");
        let painted_label = paint(label, "36;1", color);
        push_str(output, painted_label.as_str());
        push_str(output, ": ");
        assert(views(ls@)[0] == ls@[0]@);
        push_str(output, ls[0].as_str());
        push_char(output, '\n');
        let ghost first = output@;
        assert(views(ls@).subrange(1, 1) =~= Seq::<Seq<char>>::empty());
        assert(first + Seq::<char>::empty() =~= first);
        let mut k: usize = 1;
        while k < ls.len()
            invariant
                1 <= k <= ls@.len(),
                output@ == first + continuation_lines(views(ls@).subrange(1, k as int)),
            decreases ls@.len() - k,
        {
            let ghost mid = output@;
            let line = &ls[k];
            if is_blank(line.as_str()) {
                push_char(output, '\n');
            } else {
                push_str(output, "    ");
                push_str(output, line.as_str());
                push_char(output, '\n');
            }
            proof {
                lemma_continuation_push(views(ls@).subrange(1, k as int), line@);
                assert(views(ls@).subrange(1, k + 1) =~= views(ls@).subrange(1, k as int).push(line@));
            }
            k = k + 1;
        }
        assert(views(ls@).subrange(1, ls@.len() as int) =~= views(ls@).drop_first());
        assert(output@ =~= before + context_entry(label@, value@, color));
    } else {
        assert(output@ =~= before + context_entry(label@, value@, color));
    }
}

pub proof fn lemma_continuation_push(ls: Seq<Seq<char>>, l: Seq<char>)
    ensures
        continuation_lines(ls.push(l)) == continuation_lines(ls) + (if trim(l).len() == 0 {
            seq!['\n']
        } else {
            "    "@ + l + seq!['\n']
        }),
    decreases ls.len(),
{
    if ls.len() == 0 {
        assert(ls.push(l).drop_first() =~= Seq::<Seq<char>>::empty());
        let pl = if trim(l).len() == 0 { seq!['\n'] } else { "    "@ + l + seq!['\n'] };
        assert(ls.push(l)[0] == l);
        assert(continuation_lines(ls.push(l)) == pl + continuation_lines(Seq::<Seq<char>>::empty()));
        assert(pl + Seq::<char>::empty() =~= pl);
        assert(Seq::<char>::empty() + pl =~= pl);
    } else {
        lemma_continuation_push(ls.drop_first(), l);
        assert(ls.push(l).drop_first() =~= ls.drop_first().push(l));
        assert(ls.push(l)[0] == ls[0]);
        let p0 = if trim(ls[0]).len() == 0 { seq!['\n'] } else { "    "@ + ls[0] + seq!['\n'] };
        let pl = if trim(l).len() == 0 { seq!['\n'] } else { "    "@ + l + seq!['\n'] };
        assert(continuation_lines(ls.push(l)) == p0 + continuation_lines(ls.drop_first().push(l)));
        assert(continuation_lines(ls) == p0 + continuation_lines(ls.drop_first()));
        assert(p0 + (continuation_lines(ls.drop_first()) + pl) =~= (p0 + continuation_lines(ls.drop_first())) + pl);
    }
}

pub proof fn lemma_context_block_push(ctx: Seq<(&'static str, String)>, e: (&'static str, String), color: bool)
    ensures
        context_block(ctx.push(e), color) == context_block(ctx, color) + context_entry(e.0@, e.1@, color),
    decreases ctx.len(),
{
    if ctx.len() == 0 {
        assert(ctx.push(e).drop_first() =~= Seq::<(&'static str, String)>::empty());
        assert(ctx.push(e)[0] == e);
        let pe = context_entry(e.0@, e.1@, color);
        assert(context_block(ctx.push(e), color) == pe + context_block(Seq::<(&'static str, String)>::empty(), color));
        assert(pe + Seq::<char>::empty() =~= pe);
        assert(Seq::<char>::empty() + pe =~= pe);
    } else {
        lemma_context_block_push(ctx.drop_first(), e, color);
        assert(ctx.push(e).drop_first() =~= ctx.drop_first().push(e));
        assert(ctx.push(e)[0] == ctx[0]);
        let (label, value) = ctx[0];
        let p0 = context_entry(label@, value@, color);
        let pe = context_entry(e.0@, e.1@, color);
        assert(context_block(ctx.push(e), color) == p0 + context_block(ctx.drop_first().push(e), color));
        assert(p0 + (context_block(ctx.drop_first(), color) + pe) =~= (p0 + context_block(ctx.drop_first(), color)) + pe);
    }
}

pub proof fn lemma_hints_block_push(hints: Seq<String>, h: String, color: bool)
    ensures
        hints_block(hints.push(h), color) == hints_block(hints, color) + ("  "@ + painted("help"@, "36;1"@, color) + ": "@ + h@ + seq!['\n']),
    decreases hints.len(),
{
    if hints.len() == 0 {
        assert(hints.push(h).drop_first() =~= Seq::<String>::empty());
        assert(hints.push(h)[0] == h);
        let ph = "  "@ + painted("help"@, "36;1"@, color) + ": "@ + h@ + seq!['\n'];
        assert(hints_block(hints.push(h), color) == ph + hints_block(Seq::<String>::empty(), color));
        assert(ph + Seq::<char>::empty() =~= ph);
        assert(Seq::<char>::empty() + ph =~= ph);
    } else {
        lemma_hints_block_push(hints.drop_first(), h, color);
        assert(hints.push(h).drop_first() =~= hints.drop_first().push(h));
        assert(hints.push(h)[0] == hints[0]);
        let p0 = "  "@ + painted("help"@, "36;1"@, color) + ": "@ + hints[0]@ + seq!['\n'];
        let ph = "  "@ + painted("help"@, "36;1"@, color) + ": "@ + h@ + seq!['\n'];
        assert(hints_block(hints.push(h), color) == p0 + hints_block(hints.drop_first().push(h), color));
        assert(p0 + (hints_block(hints.drop_first(), color) + ph) =~= (p0 + hints_block(hints.drop_first(), color)) + ph);
    }
}

} // verus!
verus! {

broadcast use vstd::string::group_string_axioms;

/// Diagnostic code, summary text and hints chosen for an error.
pub open spec fn error_category(error: MonochangeError) -> (Seq<char>, Seq<char>, Seq<Seq<char>>) {
    match error {
        MonochangeError::Io(message) => (
            "io.failed"@,
            message@,
            seq!["Check that the path exists and is writable, then rerun the command."@],
        ),
        MonochangeError::Config(message) => if contains(message@, "--jq requires explicit JSON"@) {
            (
                "cli.json_required"@,
                message@,
                seq!["Add `--format json` or `--format json-min` before using `--jq`."@],
            )
        } else if contains(message@, "check failed"@) {
            (
                "check.failed"@,
                message@,
                seq!["Review the reported validation or lint issues, fix them, and run `monochange check` again."@],
            )
        } else {
            (
                "config.invalid"@,
                message@,
                seq!["Check `monochange.toml` and the command arguments, then rerun the command."@],
            )
        },
        MonochangeError::Discovery(message) => (
            "workspace.discovery_failed"@,
            message@,
            seq!["Check the configured package paths and workspace manifests, then rerun the command."@],
        ),
        MonochangeError::Diagnostic(message) => ("cli.diagnostic"@, message@, Seq::empty()),
        MonochangeError::Reported { output, diagnostic } => (
            if contains(diagnostic@, "check failed"@) {
                "check.failed"@
            } else {
                "command.failed"@
            },
            diagnostic@,
            seq!["Review the result above for the failing items and suggested fixes."@],
        ),
        MonochangeError::IoSource { path, source } => (
            "file.io_failed"@,
            source@,
            seq!["Check that the file exists and that monochange can read or write it."@],
        ),
        MonochangeError::Parse { path, source } => (
            "file.parse_failed"@,
            source@,
            seq!["Fix the invalid file contents, then rerun the command."@],
        ),
        MonochangeError::Interactive { message } => (
            "interactive.failed"@,
            message@,
            seq!["Rerun in an interactive terminal or provide the required values as flags."@],
        ),
        MonochangeError::Cancelled => (
            "operation.cancelled"@,
            "The operation was cancelled."@,
            seq!["Rerun the command when you are ready to continue."@],
        ),
        MonochangeError::Other(rendered) => (
            "command.failed"@,
            rendered@,
            seq!["Rerun with `--log-level debug` if you need maintainer-level diagnostics."@],
        ),
    }
}

/// The path an error names, if any.
pub open spec fn error_path(error: MonochangeError) -> Option<Seq<char>> {
    match error {
        MonochangeError::IoSource { path, source } => Some(path@),
        MonochangeError::Parse { path, source } => Some(path@),
        _ => None,
    }
}

/// The first line of the category text: the diagnostic summary.
pub open spec fn summary_line(text: Seq<char>) -> Seq<char> {
    match split_once(text, '\n') {
        Some((first, rest)) => first,
        None => text,
    }
}

/// The rest of the category text, without surrounding newlines, when it is not empty.
pub open spec fn cause_text(text: Seq<char>) -> Option<Seq<char>> {
    match split_once(text, '\n') {
        Some((first, rest)) => if trim_matches(rest, '\n').len() > 0 {
            Some(trim_matches(rest, '\n'))
        } else {
            None
        },
        None => None,
    }
}

/// The context entries of the diagnostic for `error` run as `command`.
pub open spec fn diagnostic_context(error: MonochangeError, command: Option<Seq<char>>) -> Seq<(Seq<char>, Seq<char>)> {
    let text = error_category(error).1;
    let cause = match cause_text(text) {
        Some(c) => seq![("cause"@, c)],
        None => Seq::empty(),
    };
    let cmd = match command {
        Some(c) => if c.len() > 0 {
            seq![("command"@, c)]
        } else {
            Seq::empty()
        },
        None => Seq::empty(),
    };
    let path = match error_path(error) {
        Some(p) => seq![("path"@, p)],
        None => Seq::empty(),
    };
    cause + cmd + path
}

/// The views of context entries.
pub open spec fn context_views(ctx: Seq<(&'static str, String)>) -> Seq<(Seq<char>, Seq<char>)> {
    ctx.map_values(|e: (&'static str, String)| (e.0@, e.1@))
}

/// The views of a list of strings.
pub open spec fn string_views(v: Seq<String>) -> Seq<Seq<char>> {
    v.map_values(|s: String| s@)
}

fn one_hint(hint: &str) -> (r: Vec<String>)
    ensures
        string_views(r@) == seq![hint@],
{
    let mut v = Vec::new();
    v.push(hint.to_string());
    assert(string_views(v@) =~= seq![hint@]);
    v
}

impl CliDiagnostic {
    /// Chooses the code, summary, context and hints that describe `error`.
    pub fn from_error(error: &MonochangeError, command: Option<&str>) -> (r: Self)
        ensures
            r.code@ == error_category(*error).0,
            r.summary@ == summary_line(error_category(*error).1),
            string_views(r.hints@) == error_category(*error).2,
            context_views(r.context@) == diagnostic_context(
                *error,
                match command {
                    Some(c) => Some(c@),
                    None => None,
                },
            ),
    {
        let (code, text, hints): (&'static str, String, Vec<String>) = match error {
            MonochangeError::Io(message) => (
                "io.failed",
                message.clone(),
                one_hint("Check that the path exists and is writable, then rerun the command."),
            ),
            MonochangeError::Config(message) => if contains_str(message.as_str(), "--jq requires explicit JSON") {
                (
                    "cli.json_required",
                    message.clone(),
                    one_hint("Add `--format json` or `--format json-min` before using `--jq`."),
                )
            } else if contains_str(message.as_str(), "check failed") {
                (
                    "check.failed",
                    message.clone(),
                    one_hint("Review the reported validation or lint issues, fix them, and run `monochange check` again."),
                )
            } else {
                (
                    "config.invalid",
                    message.clone(),
                    one_hint("Check `monochange.toml` and the command arguments, then rerun the command."),
                )
            },
            MonochangeError::Discovery(message) => (
                "workspace.discovery_failed",
                message.clone(),
                one_hint("Check the configured package paths and workspace manifests, then rerun the command."),
            ),
            MonochangeError::Diagnostic(message) => {
                let v: Vec<String> = Vec::new();
                assert(string_views(v@) =~= Seq::<Seq<char>>::empty());
                ("cli.diagnostic", message.clone(), v)
            },
            MonochangeError::Reported { output, diagnostic } => (
                if contains_str(diagnostic.as_str(), "check failed") {
                    "check.failed"
                } else {
                    "command.failed"
                },
                diagnostic.clone(),
                one_hint("Review the result above for the failing items and suggested fixes."),
            ),
            MonochangeError::IoSource { path, source } => (
                "file.io_failed",
                source.clone(),
                one_hint("Check that the file exists and that monochange can read or write it."),
            ),
            MonochangeError::Parse { path, source } => (
                "file.parse_failed",
                source.clone(),
                one_hint("Fix the invalid file contents, then rerun the command."),
            ),
            MonochangeError::Interactive { message } => (
                "interactive.failed",
                message.clone(),
                one_hint("Rerun in an interactive terminal or provide the required values as flags."),
            ),
            MonochangeError::Cancelled => (
                "operation.cancelled",
                "The operation was cancelled.".to_string(),
                one_hint("Rerun the command when you are ready to continue."),
            ),
            MonochangeError::Other(rendered) => (
                "command.failed",
                rendered.clone(),
                one_hint("Rerun with `--log-level debug` if you need maintainer-level diagnostics."),
            ),
        };
        assert(code@ == error_category(*error).0);
        assert(text@ == error_category(*error).1);
        assert(string_views(hints@) == error_category(*error).2);
        let (summary, cause) = match split_once_str(text.as_str(), '\n') {
            Some((first, rest)) => (first, Some(rest)),
            None => (text.clone(), None),
        };
        let mut context: Vec<(&'static str, String)> = Vec::new();
        let ghost cmd_view = match command {
            Some(c) => Some(c@),
            None => None,
        };
        if let Some(cause) = cause {
            let trimmed = trim_matches_str(cause.as_str(), '\n');
            if !trimmed.as_str().is_empty() {
                context.push(("cause", trimmed));
            }
        }
        assert(context_views(context@) =~= match cause_text(text@) {
            Some(c) => seq![("cause"@, c)],
            None => Seq::empty(),
        });
        let ghost after_cause = context_views(context@);
        if let Some(command) = command {
            if !command.is_empty() {
                context.push(("command", command.to_string()));
            }
        }
        assert(context_views(context@) =~= after_cause + match cmd_view {
            Some(c) => if c.len() > 0 {
                seq![("command"@, c)]
            } else {
                Seq::empty()
            },
            None => Seq::empty(),
        });
        let ghost after_command = context_views(context@);
        match error {
            MonochangeError::IoSource { path, .. } => {
                context.push(("path", path.clone()));
            },
            MonochangeError::Parse { path, .. } => {
                context.push(("path", path.clone()));
            },
            _ => {},
        }
        assert(context_views(context@) =~= after_command + match error_path(*error) {
            Some(p) => seq![("path"@, p)],
            None => Seq::empty(),
        });
        CliDiagnostic { code, summary, context, hints }
    }
}

} // verus!
