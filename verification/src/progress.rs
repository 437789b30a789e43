use vstd::prelude::*;

use crate::binary64::{binary64_seconds_digits, seconds_digits};
use crate::text::{chars_of, decimal, digit_char, push_char, push_decimal, push_str};

verus! {

broadcast use vstd::string::group_string_axioms;

/// The terminal styles used by progress output.
#[derive(Clone, Copy, PartialEq, Eq, Structural)]
pub enum Style {
    Accent,
    Success,
    Warning,
    Error,
    Header,
    Detail,
    Muted,
}

/// The SGR parameters of each style.
pub open spec fn style_code(style: Style) -> Seq<char> {
    match style {
        Style::Accent => "36;1"@,
        Style::Success => "32;1"@,
        Style::Warning => "33;1"@,
        Style::Error => "31;1"@,
        Style::Header => "37;1"@,
        Style::Detail => "35"@,
        Style::Muted => "2"@,
    }
}

/// `text` in `style` when `color` is set, unchanged otherwise.
pub open spec fn styled(text: Seq<char>, style: Style, color: bool) -> Seq<char> {
    if color {
        seq!['\u{1b}', '['] + style_code(style) + seq!['m'] + text + seq!['\u{1b}', '[', '0', 'm']
    } else {
        text
    }
}

/// Paints `text` in `style` when `color` is set.
pub fn paint_text(text: &str, style: Style, color: bool) -> (r: String)
    ensures
        r@ == styled(text@, style, color),
{
    let mut out = String::new();
    if !color {
        push_str(&mut out, text);
        assert(out@ =~= text@);
        return out;
    }
    let code = match style {
        Style::Accent => "36;1",
        Style::Success => "32;1",
        Style::Warning => "33;1",
        Style::Error => "31;1",
        Style::Header => "37;1",
        Style::Detail => "35",
        Style::Muted => "2",
    };
    push_char(&mut out, '\u{1b}');
    push_char(&mut out, '[');
    push_str(&mut out, code);
    push_char(&mut out, 'm');
    push_str(&mut out, text);
    push_char(&mut out, '\u{1b}');
    push_char(&mut out, '[');
    push_char(&mut out, '0');
    push_char(&mut out, 'm');
    assert(out@ =~= styled(text@, style, color));
    out
}

/// Where the scanner that removes terminal control sequences stands.
#[derive(Clone, Copy, PartialEq, Eq, Structural)]
pub enum ScanState {
    /// Ordinary text.
    Text,
    /// Just read an escape character.
    Escape,
    /// Inside an `ESC [` control sequence.
    Csi,
    /// Inside an `ESC ]` operating-system command; the flag records whether
    /// the previous character was an escape.
    Osc(bool),
}

/// One step of the scanner: what is kept of `c`, and the next state.
pub open spec fn scan_step(st: ScanState, c: char) -> (Seq<char>, ScanState) {
    match st {
        ScanState::Text => if c == '\u{1b}' {
            (Seq::empty(), ScanState::Escape)
        } else if c == '\r' {
            (Seq::empty(), ScanState::Text)
        } else {
            (seq![c], ScanState::Text)
        },
        ScanState::Escape => if c == '[' {
            (Seq::empty(), ScanState::Csi)
        } else if c == ']' {
            (Seq::empty(), ScanState::Osc(false))
        } else {
            (Seq::empty(), ScanState::Text)
        },
        ScanState::Csi => if 0x40 <= (c as u32) && (c as u32) <= 0x7E {
            (Seq::empty(), ScanState::Text)
        } else {
            (Seq::empty(), ScanState::Csi)
        },
        ScanState::Osc(prev_escape) => if c == '\u{7}' || (prev_escape && c == '\\') {
            (Seq::empty(), ScanState::Text)
        } else {
            (Seq::empty(), ScanState::Osc(c == '\u{1b}'))
        },
    }
}

/// The text kept when scanning `s` from state `st`.
pub open spec fn scan_from(s: Seq<char>, st: ScanState) -> Seq<char>
    decreases s.len(),
{
    if s.len() == 0 {
        Seq::empty()
    } else {
        let (kept, next) = scan_step(st, s[0]);
        kept + scan_from(s.drop_first(), next)
    }
}

/// `s` without carriage returns, `ESC [` control sequences, and `ESC ]`
/// commands (ended by BEL or `ESC \`); an escape followed by any other
/// character drops both.
pub open spec fn stripped(s: Seq<char>) -> Seq<char> {
    scan_from(s, ScanState::Text)
}

/// Removes terminal control sequences from subprocess output.
pub fn strip_terminal_controls(text: &str) -> (r: String)
    ensures
        r@ == stripped(text@),
{
    let v = chars_of(text);
    let mut out = String::new();
    let mut st = ScanState::Text;
    let mut i: usize = 0;
    assert(v@.skip(0) =~= v@);
    while i < v.len()
        invariant
            i <= v@.len(),
            v@ == text@,
            out@ + scan_from(v@.skip(i as int), st) == stripped(v@),
        decreases v@.len() - i,
    {
        let c = v[i];
        let ghost prev = out@;
        let ghost rest = v@.skip(i as int);
        let ghost st0 = st;
        assert(rest[0] == c);
        assert(rest.drop_first() =~= v@.skip(i + 1));
        let next = match st {
            ScanState::Text => if c == '\u{1b}' {
                ScanState::Escape
            } else if c == '\r' {
                ScanState::Text
            } else {
                push_char(&mut out, c);
                ScanState::Text
            },
            ScanState::Escape => if c == '[' {
                ScanState::Csi
            } else if c == ']' {
                ScanState::Osc(false)
            } else {
                ScanState::Text
            },
            ScanState::Csi => {
                let n = c as u32;
                if 0x40 <= n && n <= 0x7E {
                    ScanState::Text
                } else {
                    ScanState::Csi
                }
            },
            ScanState::Osc(prev_escape) => if c == '\u{7}' || (prev_escape && c == '\\') {
                ScanState::Text
            } else {
                ScanState::Osc(c == '\u{1b}')
            },
        };
        assert(out@ == prev + scan_step(st0, c).0);
        assert(next == scan_step(st0, c).1);
        st = next;
        i = i + 1;
        assert(out@ + scan_from(v@.skip(i as int), st) =~= prev + scan_from(rest, st0));
    }
    assert(v@.skip(i as int) =~= Seq::<char>::empty());
    assert(out@ + Seq::<char>::empty() =~= out@);
    out
}

/// Neither an escape nor a carriage return occurs in `s`.
pub open spec fn control_free(s: Seq<char>) -> bool {
    forall|i: int| 0 <= i < s.len() ==> #[trigger] s[i] != '\u{1b}' && s[i] != '\r'
}

proof fn lemma_scan_output_control_free(s: Seq<char>, st: ScanState)
    ensures
        control_free(scan_from(s, st)),
    decreases s.len(),
{
    if s.len() > 0 {
        lemma_scan_output_control_free(s.drop_first(), scan_step(st, s[0]).1);
        let kept = scan_step(st, s[0]).0;
        let rest = scan_from(s.drop_first(), scan_step(st, s[0]).1);
        assert forall|i: int| 0 <= i < (kept + rest).len() implies #[trigger] (kept + rest)[i] != '\u{1b}' && (kept + rest)[i] != '\r' by {
            if i >= kept.len() {
                assert((kept + rest)[i] == rest[i - kept.len()]);
            }
        }
    }
}

proof fn lemma_scan_keeps_control_free(s: Seq<char>)
    requires
        control_free(s),
    ensures
        scan_from(s, ScanState::Text) == s,
    decreases s.len(),
{
    if s.len() > 0 {
        let t = s.drop_first();
        assert forall|i: int| 0 <= i < t.len() implies #[trigger] t[i] != '\u{1b}' && t[i] != '\r' by {
            assert(t[i] == s[i + 1]);
        }
        lemma_scan_keeps_control_free(t);
        assert(s[0] != '\u{1b}' && s[0] != '\r');
        assert(seq![s[0]] + t =~= s);
    }
}

/// Stripping removes every control: what it leaves has none, so stripping
/// it again changes nothing.
pub proof fn lemma_stripping_is_idempotent(s: Seq<char>)
    ensures
        control_free(stripped(s)),
        stripped(stripped(s)) == stripped(s),
{
    lemma_scan_output_control_free(s, ScanState::Text);
    lemma_scan_keeps_control_free(stripped(s));
}

/// One spinner frame: the whole line (erased first) when `full_line`, else only the frame.
pub open spec fn spinner_tick(frame: Seq<char>, message: Seq<char>, color: bool, full_line: bool) -> Seq<char> {
    if full_line {
        seq!['\r', '\u{1b}', '[', '2', 'K', '\u{1b}', '[', '0', 'm'] + styled(frame, Style::Accent, color)
            + seq![' '] + message
    } else {
        seq!['\r'] + styled(frame, Style::Accent, color)
    }
}

/// Renders a single spinner tick.
pub fn render_spinner_tick(frame: &str, message: &str, color: bool, full_line: bool) -> (r: String)
    ensures
        r@ == spinner_tick(frame@, message@, color, full_line),
{
    let mut out = String::new();
    let painted = paint_text(frame, Style::Accent, color);
    if full_line {
        push_char(&mut out, '\r');
        push_char(&mut out, '\u{1b}');
        push_char(&mut out, '[');
        push_char(&mut out, '2');
        push_char(&mut out, 'K');
        push_char(&mut out, '\u{1b}');
        push_char(&mut out, '[');
        push_char(&mut out, '0');
        push_char(&mut out, 'm');
        push_str(&mut out, painted.as_str());
        push_char(&mut out, ' ');
        push_str(&mut out, message);
    } else {
        push_char(&mut out, '\r');
        push_str(&mut out, painted.as_str());
    }
    assert(out@ =~= spinner_tick(frame@, message@, color, full_line));
    out
}

/// The marker printed before an activity line.
pub fn start_symbol(interactive: bool) -> (r: &'static str)
    ensures
        r@ == (if interactive { "\u{280B}"@ } else { "\u{2192}"@ }),
{
    if interactive { "\u{280B}" } else { "\u{2192}" }
}

} // verus!
verus! {

/// A span of time, with nanosecond precision.
#[derive(Clone, Copy)]
pub struct Duration {
    secs: u64,
    nanos: u32,
}

impl View for Duration {
    type V = nat;

    /// The total number of nanoseconds.
    closed spec fn view(&self) -> nat {
        self.secs as nat * 1_000_000_000 + self.nanos as nat
    }
}

impl Duration {
    /// A duration of `secs` whole seconds.
    pub fn from_secs(secs: u64) -> (d: Duration)
        ensures
            d@ == secs as nat * 1_000_000_000,
    {
        Duration { secs, nanos: 0 }
    }

    /// A duration of `millis` milliseconds.
    pub fn from_millis(millis: u64) -> (d: Duration)
        ensures
            d@ == millis as nat * 1_000_000,
    {
        Duration { secs: millis / 1000, nanos: ((millis % 1000) * 1_000_000) as u32 }
    }

    /// A duration of `micros` microseconds.
    pub fn from_micros(micros: u64) -> (d: Duration)
        ensures
            d@ == micros as nat * 1000,
    {
        Duration { secs: micros / 1_000_000, nanos: ((micros % 1_000_000) * 1000) as u32 }
    }

    /// A duration of `nanos` nanoseconds.
    pub fn from_nanos(nanos: u64) -> (d: Duration)
        ensures
            d@ == nanos as nat,
    {
        Duration { secs: nanos / 1_000_000_000, nanos: (nanos % 1_000_000_000) as u32 }
    }

    /// The total number of nanoseconds.
    pub fn as_nanos(&self) -> (n: u128)
        ensures
            n == self@,
    {
        self.secs as u128 * 1_000_000_000 + self.nanos as u128
    }
}

/// How a duration of `n` nanoseconds is shown: from a minute on, its seconds
/// with one decimal, and from a second on with two, as the binary64 value of
/// the seconds formats with that precision; whole milliseconds from a
/// millisecond on, and whole microseconds below that.
pub open spec fn duration_text(n: nat) -> Seq<char> {
    if n >= 60_000_000_000 {
        let t = binary64_seconds_digits(n / 1_000_000_000, n % 1_000_000_000, 10);
        decimal(t / 10) + seq!['.', digit_char(t % 10), 's']
    } else if n >= 1_000_000_000 {
        let h = binary64_seconds_digits(n / 1_000_000_000, n % 1_000_000_000, 100);
        decimal(h / 100) + seq!['.', digit_char((h % 100) / 10), digit_char(h % 10), 's']
    } else if n >= 1_000_000 {
        decimal(n / 1_000_000) + seq!['m', 's']
    } else {
        decimal(n / 1000) + seq!['\u{b5}', 's']
    }
}

fn digit_of(d: u128) -> (c: char)
    requires
        d < 10,
    ensures
        c == digit_char(d as nat),
{
    if d == 0 { '0' } else if d == 1 { '1' } else if d == 2 { '2' } else if d == 3 { '3' }
    else if d == 4 { '4' } else if d == 5 { '5' } else if d == 6 { '6' } else if d == 7 { '7' }
    else if d == 8 { '8' } else { '9' }
}

/// Renders a duration for progress output.
pub fn format_duration(duration: Duration) -> (r: String)
    ensures
        r@ == duration_text(duration@),
{
    let n = duration.as_nanos();
    let mut out = String::new();
    if n >= 60_000_000_000 {
        let t = seconds_digits(n / 1_000_000_000, n % 1_000_000_000, 10);
        push_decimal(&mut out, t / 10);
        push_char(&mut out, '.');
        push_char(&mut out, digit_of(t % 10));
        push_char(&mut out, 's');
    } else if n >= 1_000_000_000 {
        let h = seconds_digits(n / 1_000_000_000, n % 1_000_000_000, 100);
        push_decimal(&mut out, h / 100);
        push_char(&mut out, '.');
        push_char(&mut out, digit_of((h % 100) / 10));
        push_char(&mut out, digit_of(h % 10));
        push_char(&mut out, 's');
    } else if n >= 1_000_000 {
        push_decimal(&mut out, n / 1_000_000);
        push_char(&mut out, 'm');
        push_char(&mut out, 's');
    } else {
        push_decimal(&mut out, n / 1000);
        push_char(&mut out, '\u{b5}');
        push_char(&mut out, 's');
    }
    assert(out@ =~= duration_text(duration@));
    out
}

/// Whole milliseconds of a duration, saturating at `u64::MAX`.
pub fn duration_millis(duration: Duration) -> (r: u64)
    ensures
        r == (if duration@ / 1_000_000 <= u64::MAX { duration@ / 1_000_000 } else { u64::MAX as nat }),
{
    let millis = duration.as_nanos() / 1_000_000;
    if millis <= u64::MAX as u128 {
        millis as u64
    } else {
        u64::MAX
    }
}

} // verus!
verus! {

/// `count` followed by `noun`, pluralised with `s` unless the count is one.
pub open spec fn counted(icon: Seq<char>, count: nat, noun: Seq<char>) -> Seq<char> {
    icon + seq![' '] + decimal(count) + seq![' '] + noun + (if count == 1 { Seq::empty() } else { seq!['s'] })
}

/// The lint summary line: the error count, then the warning count, each only when non-zero.
pub open spec fn summary_counts(errors: nat, warnings: nat, error_icon: Seq<char>, warning_icon: Seq<char>) -> Option<Seq<char>> {
    if errors > 0 && warnings > 0 {
        Some(counted(error_icon, errors, "error"@) + seq![',', ' '] + counted(warning_icon, warnings, "warning"@))
    } else if errors > 0 {
        Some(counted(error_icon, errors, "error"@))
    } else if warnings > 0 {
        Some(counted(warning_icon, warnings, "warning"@))
    } else {
        None
    }
}

fn push_counted(out: &mut String, icon: &str, count: usize, noun: &str)
    ensures
        final(out)@ == old(out)@ + counted(icon@, count as nat, noun@),
{
    push_str(out, icon);
    push_char(out, ' ');
    push_decimal(out, count as u128);
    push_char(out, ' ');
    push_str(out, noun);
    if count != 1 {
        push_char(out, 's');
    }
    assert(final(out)@ =~= old(out)@ + counted(icon@, count as nat, noun@));
}

/// The line that counts lint errors and warnings, or `None` when there are neither.
pub fn summary_count_line(errors: usize, warnings: usize, error_icon: &str, warning_icon: &str) -> (r: Option<String>)
    ensures
        match summary_counts(errors as nat, warnings as nat, error_icon@, warning_icon@) {
            Some(line) => r matches Some(s) && s@ == line,
            None => r is None,
        },
{
    let mut line = String::new();
    if errors > 0 && warnings > 0 {
        push_counted(&mut line, error_icon, errors, "error");
        push_str(&mut line, ", ");
        push_counted(&mut line, warning_icon, warnings, "warning");
        assert(line@ =~= counted(error_icon@, errors as nat, "error"@) + seq![',', ' '] + counted(warning_icon@, warnings as nat, "warning"@)) by {
            reveal_strlit(", ");
        }
        Some(line)
    } else if errors > 0 {
        push_counted(&mut line, error_icon, errors, "error");
        assert(line@ =~= counted(error_icon@, errors as nat, "error"@));
        Some(line)
    } else if warnings > 0 {
        push_counted(&mut line, warning_icon, warnings, "warning");
        assert(line@ =~= counted(warning_icon@, warnings as nat, "warning"@));
        Some(line)
    } else {
        None
    }
}

/// Time spent in one named phase of a step.
pub struct StepPhaseTiming {
    pub label: String,
    pub duration: Duration,
}

/// The label and length of a phase timing.
pub open spec fn timing_view(t: StepPhaseTiming) -> (Seq<char>, nat) {
    (t.label@, t.duration@)
}

/// The views of a list of phase timings.
pub open spec fn timing_views(s: Seq<StepPhaseTiming>) -> Seq<(Seq<char>, nat)> {
    s.map_values(|t: StepPhaseTiming| timing_view(t))
}

/// Phases shorter than this are left out of step summaries (nanoseconds).
pub open spec fn phase_timing_minimum() -> nat {
    5_000_000
}

/// At most this many phases are listed under a step.
pub open spec fn phase_timing_detail_limit() -> nat {
    5
}

/// The phases at least as long as the minimum, in their original order.
pub open spec fn long_phases(s: Seq<(Seq<char>, nat)>) -> Seq<(Seq<char>, nat)> {
    s.filter(|t: (Seq<char>, nat)| t.1 >= phase_timing_minimum())
}

/// How many leading entries of the descending list `sorted` last at least `d`.
pub open spec fn count_at_least(sorted: Seq<(Seq<char>, nat)>, d: nat) -> nat
    decreases sorted.len(),
{
    if sorted.len() > 0 && sorted[0].1 >= d {
        1 + count_at_least(sorted.drop_first(), d)
    } else {
        0
    }
}

/// Places `t` after every entry of the descending list `sorted` that lasts at least as long.
pub open spec fn insert_after_longer(sorted: Seq<(Seq<char>, nat)>, t: (Seq<char>, nat)) -> Seq<(Seq<char>, nat)> {
    sorted.insert(count_at_least(sorted, t.1) as int, t)
}

/// The stable ordering of `s` from the longest phase to the shortest.
pub open spec fn longest_first(s: Seq<(Seq<char>, nat)>) -> Seq<(Seq<char>, nat)>
    decreases s.len(),
{
    if s.len() == 0 {
        s
    } else {
        insert_after_longer(longest_first(s.drop_last()), s.last())
    }
}

/// The phases listed under a finished step: those of at least five
/// milliseconds, longest first (equal lengths keep their order), at most five.
pub open spec fn summarized(s: Seq<(Seq<char>, nat)>) -> Seq<(Seq<char>, nat)> {
    let sorted = longest_first(long_phases(s));
    if sorted.len() <= phase_timing_detail_limit() {
        sorted
    } else {
        sorted.take(phase_timing_detail_limit() as int)
    }
}

pub proof fn lemma_count_at_least_bound(sorted: Seq<(Seq<char>, nat)>, d: nat)
    ensures
        count_at_least(sorted, d) <= sorted.len(),
    decreases sorted.len(),
{
    if sorted.len() > 0 && sorted[0].1 >= d {
        lemma_count_at_least_bound(sorted.drop_first(), d);
    }
}

fn copy_timing(t: &StepPhaseTiming) -> (r: StepPhaseTiming)
    ensures
        timing_view(r) == timing_view(*t),
{
    StepPhaseTiming { label: t.label.clone(), duration: t.duration }
}

/// Selects the phase timings worth listing under a finished step.
pub fn summarized_phase_timings(phase_timings: &[StepPhaseTiming]) -> (r: Vec<StepPhaseTiming>)
    ensures
        timing_views(r@) == summarized(timing_views(phase_timings@)),
{
    let ghost all = timing_views(phase_timings@);
    let mut sorted: Vec<StepPhaseTiming> = Vec::new();
    let mut i: usize = 0;
    while i < phase_timings.len()
        invariant
            i <= phase_timings@.len(),
            all == timing_views(phase_timings@),
            timing_views(sorted@) == longest_first(long_phases(all.take(i as int))),
        decreases phase_timings@.len() - i,
    {
        let t = &phase_timings[i];
        proof {
            assert(all.take(i + 1) =~= all.take(i as int).push(all[i as int]));
            assert(all.take(i + 1).drop_last() =~= all.take(i as int));
            reveal_with_fuel(Seq::<_>::filter, 1);
        }
        if t.duration.as_nanos() >= 5_000_000 {
            let d = t.duration.as_nanos();
            let ghost before = timing_views(sorted@);
            let mut k: usize = 0;
            proof { lemma_count_at_least_bound(before, d as nat); }
            assert(before.skip(0) =~= before);
            while k < sorted.len() && sorted[k].duration.as_nanos() >= d
                invariant
                    k <= sorted@.len(),
                    before == timing_views(sorted@),
                    count_at_least(before, d as nat) == k + count_at_least(before.skip(k as int), d as nat),
                decreases sorted@.len() - k,
            {
                assert(before.skip(k as int).drop_first() =~= before.skip(k + 1));
                k = k + 1;
            }
            if k < sorted.len() {
                assert(before.skip(k as int)[0] == before[k as int]);
            }
            let copy = copy_timing(t);
            sorted.insert(k, copy);
            assert(timing_views(sorted@) =~= before.insert(k as int, all[i as int]));
            assert(long_phases(all.take(i + 1)) =~= long_phases(all.take(i as int)).push(all[i as int]));
            let ghost lp = long_phases(all.take(i as int));
            assert(lp.push(all[i as int]).drop_last() =~= lp);
            assert(lp.push(all[i as int]).last() == all[i as int]);
            assert(timing_view(*t) == all[i as int]);
        } else {
            assert(long_phases(all.take(i + 1)) =~= long_phases(all.take(i as int)));
        }
        i = i + 1;
    }
    assert(all.take(phase_timings@.len() as int) =~= all);
    if sorted.len() > 5 {
        sorted.truncate(5);
        assert(timing_views(sorted@) =~= summarized(all));
    }
    sorted
}

} // verus!
