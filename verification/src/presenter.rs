use vstd::prelude::*;

use crate::progress::{
    summary_count_line, summary_counts, duration_text, format_duration, paint_text, strip_terminal_controls, stripped, styled, summarized,
    summarized_phase_timings, timing_views, Duration, StepPhaseTiming, Style,
};
use crate::terminal::{ProgressFormat, TerminalCapabilities};
use crate::text::{decimal, lines, lines_of, push_decimal, push_str, str_eq, views};

verus! {

broadcast use vstd::string::group_string_axioms;

/// The symbols of human progress output.
#[derive(Clone, Copy)]
pub struct ProgressSymbols {
    pub command_success: &'static str,
    pub step_start: &'static str,
    pub step_skip: &'static str,
    pub step_success: &'static str,
    pub step_failure: &'static str,
    pub error_branch: &'static str,
    pub bullet: &'static str,
    pub log_pipe: &'static str,
    /// Whether ecosystems show with their emoji.
    pub emoji: bool,
}

/// The texts of a symbol set, in field order.
pub open spec fn symbol_texts(s: ProgressSymbols) -> Seq<Seq<char>> {
    seq![
        s.command_success@,
        s.step_start@,
        s.step_skip@,
        s.step_success@,
        s.step_failure@,
        s.error_branch@,
        s.bullet@,
        s.log_pipe@,
    ]
}

/// The Unicode symbols.
pub fn unicode_symbols() -> (r: ProgressSymbols)
    ensures
        symbol_texts(r) == seq!["✓"@, "▶"@, "○"@, "✔"@, "✖"@, "└─"@, "·"@, "│"@],
        r.emoji,
{
    ProgressSymbols {
        command_success: "✓",
        step_start: "▶",
        step_skip: "○",
        step_success: "✔",
        step_failure: "✖",
        error_branch: "└─",
        bullet: "·",
        log_pipe: "│",
        emoji: true,
    }
}

/// The ASCII symbols.
pub fn ascii_symbols() -> (r: ProgressSymbols)
    ensures
        symbol_texts(r) == seq!["+"@, ">"@, "-"@, "+"@, "x"@, "`-"@, "-"@, "|"@],
        !r.emoji,
{
    ProgressSymbols {
        command_success: "+",
        step_start: ">",
        step_skip: "-",
        step_success: "+",
        step_failure: "x",
        error_branch: "`-",
        bullet: "-",
        log_pipe: "|",
        emoji: false,
    }
}

/// The JSON events that progress output emits; the app builds each payload
/// from the arguments of the event it reports.
#[derive(Clone, Copy, Debug, PartialEq, Eq, Structural)]
pub enum ProgressJsonEvent {
    PhaseStarted,
    PhaseFinished,
    PhaseFailed,
    Warning,
    CommandStarted,
    CommandFinished,
    CommandFailed,
    StepStarted,
    StepSkipped,
    StepStatus,
    StepFinished,
    StepFailed,
    CommandOutput,
    LintPlanningStarted,
    LintPlanningFinished,
    LintSuiteStarted,
    LintSuiteFinished,
    LintFixStarted,
    LintFixApplied,
    LintFixFinished,
    LintSummary,
    Publish,
}

/// One thing for the app to do, in order.
#[derive(Debug)]
pub enum ProgressAction {
    /// Stop the running spinner (clearing its line when it drew one).
    StopSpinner,
    /// Start a spinner showing this message.
    StartSpinner(String),
    /// Write this line, followed by a newline, to standard error.
    PrintLine(String),
    /// Emit the JSON form of this event.
    EmitJson(ProgressJsonEvent),
}

/// An action as a mathematical value.
pub enum ActionModel {
    Stop,
    Start(Seq<char>),
    Print(Seq<char>),
    Json(ProgressJsonEvent),
}

impl View for ProgressAction {
    type V = ActionModel;

    open spec fn view(&self) -> ActionModel {
        match self {
            ProgressAction::StopSpinner => ActionModel::Stop,
            ProgressAction::StartSpinner(m) => ActionModel::Start(m@),
            ProgressAction::PrintLine(l) => ActionModel::Print(l@),
            ProgressAction::EmitJson(e) => ActionModel::Json(*e),
        }
    }
}

/// The views of a list of actions.
pub open spec fn action_models(acts: Seq<ProgressAction>) -> Seq<ActionModel> {
    acts.map_values(|a: ProgressAction| a@)
}

/// What progress output decides, for one command: its configuration, and
/// whether the command header was shown and a spinner runs.
pub struct ProgressPresenter {
    pub enabled: bool,
    pub quiet: bool,
    pub color: bool,
    pub animate: bool,
    pub json: bool,
    pub symbols: ProgressSymbols,
    pub command_name: String,
    pub dry_run: bool,
    pub total_steps: usize,
    pub command_started: bool,
    pub spinner_active: bool,
    /// The step whose command output is being shown under its header, until
    /// another line is printed.
    pub output_block: Option<String>,
}

/// The state of a presenter and the actions decided so far.
pub struct PresenterTrace {
    pub started: bool,
    pub spinning: bool,
    pub block: Option<Seq<char>>,
    pub acts: Seq<ActionModel>,
}

/// The text of the step whose output block is open, if any.
pub open spec fn block_text(o: Option<String>) -> Option<Seq<char>> {
    match o {
        Some(s) => Some(s@),
        None => None,
    }
}

/// The trace of a presenter after it decided `acts`.
pub open spec fn trace_of(p: ProgressPresenter, acts: Seq<ProgressAction>) -> PresenterTrace {
    PresenterTrace {
        started: p.command_started,
        spinning: p.spinner_active,
        block: block_text(p.output_block),
        acts: action_models(acts),
    }
}

/// The trace of a presenter before an event.
pub open spec fn initial(p: ProgressPresenter) -> PresenterTrace {
    PresenterTrace { started: p.command_started, spinning: p.spinner_active, block: block_text(p.output_block), acts: seq![] }
}

/// The configuration of two presenters is the same.
pub open spec fn same_config(a: ProgressPresenter, b: ProgressPresenter) -> bool {
    &&& a.enabled == b.enabled
    &&& a.quiet == b.quiet
    &&& a.color == b.color
    &&& a.animate == b.animate
    &&& a.json == b.json
    &&& a.symbols == b.symbols
    &&& a.command_name == b.command_name
    &&& a.dry_run == b.dry_run
    &&& a.total_steps == b.total_steps
}

/// Stops a running spinner.
pub open spec fn stop_op(t: PresenterTrace) -> PresenterTrace {
    if t.spinning {
        PresenterTrace { spinning: false, acts: t.acts.push(ActionModel::Stop), ..t }
    } else {
        t
    }
}

/// Starts a spinner, stopping the running one first; it ends any output block.
pub open spec fn start_op(t: PresenterTrace, message: Seq<char>) -> PresenterTrace {
    let s = stop_op(t);
    PresenterTrace { started: s.started, spinning: true, block: None, acts: s.acts.push(ActionModel::Start(message)) }
}

/// The prefix that clears a spinner's line before a printed line.
pub open spec fn clear_line() -> Seq<char> {
    seq!['\r', '\u{1b}', '[', '2', 'K', '\u{1b}', '[', '0', 'm']
}

/// A line as printed; over a running animated spinner it first clears the spinner's line.
pub open spec fn printed_text(t: PresenterTrace, animate: bool, line: Seq<char>) -> Seq<char> {
    if animate && t.spinning { clear_line() + line } else { line }
}

/// Prints a progress line, which ends any output block.
pub open spec fn print_op(t: PresenterTrace, animate: bool, line: Seq<char>) -> PresenterTrace {
    PresenterTrace { block: None, acts: t.acts.push(ActionModel::Print(printed_text(t, animate, line))), ..t }
}

/// Prints a line of command output, which keeps the output block open.
pub open spec fn output_print_op(t: PresenterTrace, animate: bool, line: Seq<char>) -> PresenterTrace {
    PresenterTrace { acts: t.acts.push(ActionModel::Print(printed_text(t, animate, line))), ..t }
}

/// Emits a JSON event.
pub open spec fn json_op(t: PresenterTrace, e: ProgressJsonEvent) -> PresenterTrace {
    PresenterTrace { acts: t.acts.push(ActionModel::Json(e)), ..t }
}

/// `a`, a blank, and `b`.
pub open spec fn spaced(a: Seq<char>, b: Seq<char>) -> Seq<char> {
    a + " "@ + b
}

/// The header of a command.
pub open spec fn command_header(p: ProgressPresenter) -> Seq<char> {
    styled("monochange"@, Style::Accent, p.color) + " "@ + styled("running `"@ + p.command_name@ + "`"@, Style::Header, p.color)
        + if p.dry_run { " (dry-run)"@ } else { Seq::empty() }
}

/// The command header, shown once per command.
pub open spec fn command_started_op(p: ProgressPresenter, t: PresenterTrace) -> PresenterTrace {
    if !p.enabled || t.started {
        t
    } else {
        let t1 = PresenterTrace { started: true, ..t };
        if p.json {
            json_op(t1, ProgressJsonEvent::CommandStarted)
        } else {
            print_op(t1, p.animate, command_header(p))
        }
    }
}

/// A line made of a symbol in `style`, a blank and `rest`.
pub open spec fn symbol_line(symbol: &'static str, style: Style, color: bool, rest: Seq<char>) -> Seq<char> {
    styled(symbol@, style, color) + " "@ + rest
}

pub open spec fn phase_started_trace(p: ProgressPresenter, phase: Seq<char>) -> PresenterTrace {
    let t = initial(p);
    if !p.enabled {
        t
    } else if p.json {
        json_op(t, ProgressJsonEvent::PhaseStarted)
    } else if p.animate {
        start_op(t, phase)
    } else {
        print_op(t, p.animate, symbol_line(p.symbols.step_start, Style::Accent, p.color, styled(phase, Style::Header, p.color)))
    }
}

/// A finished or failed phase (or command): the symbol, the label and the duration.
pub open spec fn ended_line(symbol: &'static str, style: Style, color: bool, label: Seq<char>, d: nat) -> Seq<char> {
    symbol_line(symbol, style, color, styled(label, Style::Header, color) + " "@ + styled(duration_text(d), Style::Muted, color))
}

pub open spec fn phase_ended_trace(p: ProgressPresenter, phase: Seq<char>, d: nat, failed: bool) -> PresenterTrace {
    if !p.enabled {
        initial(p)
    } else {
        let t = stop_op(initial(p));
        if p.json {
            json_op(t, if failed { ProgressJsonEvent::PhaseFailed } else { ProgressJsonEvent::PhaseFinished })
        } else if failed {
            print_op(t, p.animate, ended_line(p.symbols.step_failure, Style::Error, p.color, phase, d))
        } else {
            print_op(t, p.animate, ended_line(p.symbols.step_success, Style::Success, p.color, phase, d))
        }
    }
}

pub open spec fn warning_trace(p: ProgressPresenter, message: Seq<char>) -> PresenterTrace {
    let t = initial(p);
    if p.quiet {
        t
    } else if p.json {
        json_op(t, ProgressJsonEvent::Warning)
    } else {
        print_op(t, p.animate, styled("warning:"@, Style::Warning, p.color) + " "@ + message)
    }
}

pub open spec fn command_ended_trace(p: ProgressPresenter, d: nat, failed: bool) -> PresenterTrace {
    if !p.enabled || !p.command_started {
        initial(p)
    } else {
        let t = stop_op(initial(p));
        if p.json {
            json_op(t, if failed { ProgressJsonEvent::CommandFailed } else { ProgressJsonEvent::CommandFinished })
        } else if failed {
            print_op(t, p.animate, ended_line(p.symbols.step_failure, Style::Error, p.color, "`"@ + p.command_name@ + "` failed"@, d))
        } else {
            print_op(t, p.animate, ended_line(p.symbols.command_success, Style::Success, p.color, "`"@ + p.command_name@ + "` finished"@, d))
        }
    }
}

impl ProgressPresenter {
    /// A presenter for a command with `total_steps` steps: JSON output for the
    /// JSON format, ASCII symbols for the ASCII format, Unicode otherwise; the
    /// capabilities decide whether progress shows, in color and animated.
    pub fn with_context(
        command_name: String,
        dry_run: bool,
        total_steps: usize,
        format: ProgressFormat,
        capabilities: &TerminalCapabilities,
    ) -> (r: ProgressPresenter)
        ensures
            r.enabled == capabilities.progress_enabled,
            r.quiet == capabilities.quiet,
            r.color == capabilities.color,
            r.animate == capabilities.animate,
            r.json == (format == ProgressFormat::Json),
            symbol_texts(r.symbols) == if format == ProgressFormat::Ascii || format == ProgressFormat::Json {
                seq!["+"@, ">"@, "-"@, "+"@, "x"@, "`-"@, "-"@, "|"@]
            } else {
                seq!["✓"@, "▶"@, "○"@, "✔"@, "✖"@, "└─"@, "·"@, "│"@]
            },
            r.symbols.emoji == !(format == ProgressFormat::Ascii || format == ProgressFormat::Json),
            r.command_name == command_name,
            r.dry_run == dry_run,
            r.total_steps == total_steps,
            !r.command_started,
            !r.spinner_active,
            r.output_block is None,
    {
        let symbols = match format {
            ProgressFormat::Auto | ProgressFormat::Unicode => unicode_symbols(),
            ProgressFormat::Ascii | ProgressFormat::Json => ascii_symbols(),
        };
        ProgressPresenter {
            enabled: capabilities.progress_enabled,
            quiet: capabilities.quiet,
            color: capabilities.color,
            animate: capabilities.animate,
            json: format == ProgressFormat::Json,
            symbols,
            command_name,
            dry_run,
            total_steps,
            command_started: false,
            spinner_active: false,
            output_block: None,
        }
    }

    /// Names the command being reported, with its step count.
    pub fn configure_command(&mut self, command_name: &str, dry_run: bool, total_steps: usize)
        ensures
            final(self).command_name@ == command_name@,
            final(self).dry_run == dry_run,
            final(self).total_steps == total_steps,
            final(self).enabled == old(self).enabled,
            final(self).quiet == old(self).quiet,
            final(self).color == old(self).color,
            final(self).animate == old(self).animate,
            final(self).json == old(self).json,
            final(self).symbols == old(self).symbols,
            final(self).command_started == old(self).command_started,
            final(self).spinner_active == old(self).spinner_active,
    {
        self.command_name = command_name.to_string();
        self.dry_run = dry_run;
        self.total_steps = total_steps;
    }

    fn stop(&mut self, acts: &mut Vec<ProgressAction>)
        ensures
            trace_of(*final(self), final(acts)@) == stop_op(trace_of(*old(self), old(acts)@)),
            same_config(*old(self), *final(self)),
    {
        if self.spinner_active {
            acts.push(ProgressAction::StopSpinner);
            self.spinner_active = false;
            assert(action_models(acts@) =~= action_models(old(acts)@).push(ActionModel::Stop));
        }
    }

    fn start(&mut self, acts: &mut Vec<ProgressAction>, message: String)
        ensures
            trace_of(*final(self), final(acts)@) == start_op(trace_of(*old(self), old(acts)@), message@),
            same_config(*old(self), *final(self)),
    {
        self.stop(acts);
        let ghost mid = acts@;
        acts.push(ProgressAction::StartSpinner(message));
        self.spinner_active = true;
        self.output_block = None;
        assert(action_models(acts@) =~= action_models(mid).push(ActionModel::Start(message@)));
    }

    fn print(&mut self, acts: &mut Vec<ProgressAction>, line: String)
        ensures
            trace_of(*final(self), final(acts)@) == print_op(trace_of(*old(self), old(acts)@), old(self).animate, line@),
            same_config(*old(self), *final(self)),
            final(self).command_started == old(self).command_started,
            final(self).spinner_active == old(self).spinner_active,
    {
        self.print_output(acts, line);
        self.output_block = None;
    }

    fn print_output(&self, acts: &mut Vec<ProgressAction>, line: String)
        ensures
            trace_of(*self, final(acts)@) == output_print_op(trace_of(*self, old(acts)@), self.animate, line@),
    {
        let text = if self.animate && self.spinner_active {
            let mut t = String::new();
            push_str(&mut t, "\r\u{1b}[2K\u{1b}[0m");
            push_str(&mut t, line.as_str());
            proof {
                reveal_strlit("\r\u{1b}[2K\u{1b}[0m");
                assert("\r\u{1b}[2K\u{1b}[0m"@ =~= clear_line());
            }
            t
        } else {
            line
        };
        let ghost before = acts@;
        acts.push(ProgressAction::PrintLine(text));
        assert(action_models(acts@) =~= action_models(before).push(ActionModel::Print(text@)));
    }

    fn json_event(&self, acts: &mut Vec<ProgressAction>, e: ProgressJsonEvent)
        ensures
            trace_of(*self, final(acts)@) == json_op(trace_of(*self, old(acts)@), e),
    {
        let ghost before = acts@;
        acts.push(ProgressAction::EmitJson(e));
        assert(action_models(acts@) =~= action_models(before).push(ActionModel::Json(e)));
    }

    fn paint(&self, text: &str, style: Style) -> (r: String)
        ensures
            r@ == styled(text@, style, self.color),
    {
        paint_text(text, style, self.color)
    }

    fn symbol_line(&self, symbol: &'static str, style: Style, rest: &str) -> (r: String)
        ensures
            r@ == symbol_line(symbol, style, self.color, rest@),
    {
        let mut line = self.paint(symbol, style);
        push_str(&mut line, " ");
        push_str(&mut line, rest);
        line
    }

    fn ended_line(&self, symbol: &'static str, style: Style, label: &str, duration: Duration) -> (r: String)
        ensures
            r@ == ended_line(symbol, style, self.color, label@, duration@),
    {
        let mut rest = self.paint(label, Style::Header);
        push_str(&mut rest, " ");
        let d = format_duration(duration);
        let painted = self.paint(d.as_str(), Style::Muted);
        push_str(&mut rest, painted.as_str());
        self.symbol_line(symbol, style, rest.as_str())
    }

    /// Shows the command header once per command (see `command_started_op`).
    pub fn command_started(&mut self, acts: &mut Vec<ProgressAction>)
        ensures
            trace_of(*final(self), final(acts)@) == command_started_op(*old(self), trace_of(*old(self), old(acts)@)),
            same_config(*old(self), *final(self)),
    {
        if !self.enabled || self.command_started {
            return;
        }
        self.command_started = true;
        if self.json {
            self.json_event(acts, ProgressJsonEvent::CommandStarted);
        } else {
            let mut line = self.paint("monochange", Style::Accent);
            push_str(&mut line, " ");
            let mut running = String::new();
            push_str(&mut running, "running `");
            push_str(&mut running, self.command_name.as_str());
            push_str(&mut running, "`");
            let painted = self.paint(running.as_str(), Style::Header);
            push_str(&mut line, painted.as_str());
            if self.dry_run {
                push_str(&mut line, " (dry-run)");
            }
            self.print(acts, line);
        }
    }

    /// A phase begins: a spinner when animated, a line otherwise.
    pub fn phase_started(&mut self, phase: &str) -> (r: Vec<ProgressAction>)
        ensures
            trace_of(*final(self), r@) == phase_started_trace(*old(self), phase@),
            same_config(*old(self), *final(self)),
    {
        let mut acts: Vec<ProgressAction> = Vec::new();
        assert(action_models(acts@) =~= seq![]);
        if !self.enabled {
            return acts;
        }
        if self.json {
            self.json_event(&mut acts, ProgressJsonEvent::PhaseStarted);
        } else if self.animate {
            self.start(&mut acts, phase.to_string());
        } else {
            let painted = self.paint(phase, Style::Header);
            let line = self.symbol_line(self.symbols.step_start, Style::Accent, painted.as_str());
            self.print(&mut acts, line);
        }
        acts
    }

    fn phase_ended(&mut self, phase: &str, duration: Duration, failed: bool) -> (r: Vec<ProgressAction>)
        ensures
            trace_of(*final(self), r@) == phase_ended_trace(*old(self), phase@, duration@, failed),
            same_config(*old(self), *final(self)),
    {
        let mut acts: Vec<ProgressAction> = Vec::new();
        assert(action_models(acts@) =~= seq![]);
        if !self.enabled {
            return acts;
        }
        self.stop(&mut acts);
        if self.json {
            self.json_event(&mut acts, if failed { ProgressJsonEvent::PhaseFailed } else { ProgressJsonEvent::PhaseFinished });
        } else if failed {
            let line = self.ended_line(self.symbols.step_failure, Style::Error, phase, duration);
            self.print(&mut acts, line);
        } else {
            let line = self.ended_line(self.symbols.step_success, Style::Success, phase, duration);
            self.print(&mut acts, line);
        }
        acts
    }

    /// A phase ends.
    pub fn phase_finished(&mut self, phase: &str, duration: Duration) -> (r: Vec<ProgressAction>)
        ensures
            trace_of(*final(self), r@) == phase_ended_trace(*old(self), phase@, duration@, false),
            same_config(*old(self), *final(self)),
    {
        self.phase_ended(phase, duration, false)
    }

    /// A phase fails.
    pub fn phase_failed(&mut self, phase: &str, duration: Duration) -> (r: Vec<ProgressAction>)
        ensures
            trace_of(*final(self), r@) == phase_ended_trace(*old(self), phase@, duration@, true),
            same_config(*old(self), *final(self)),
    {
        self.phase_ended(phase, duration, true)
    }

    /// A warning, unless output is quiet.
    pub fn warning(&mut self, message: &str) -> (r: Vec<ProgressAction>)
        ensures
            trace_of(*final(self), r@) == warning_trace(*old(self), message@),
            same_config(*old(self), *final(self)),
    {
        let mut acts: Vec<ProgressAction> = Vec::new();
        assert(action_models(acts@) =~= seq![]);
        if self.quiet {
            return acts;
        }
        if self.json {
            self.json_event(&mut acts, ProgressJsonEvent::Warning);
        } else {
            let mut line = self.paint("warning:", Style::Warning);
            push_str(&mut line, " ");
            push_str(&mut line, message);
            self.print(&mut acts, line);
        }
        acts
    }

    fn command_ended(&mut self, duration: Duration, failed: bool) -> (r: Vec<ProgressAction>)
        ensures
            trace_of(*final(self), r@) == command_ended_trace(*old(self), duration@, failed),
            same_config(*old(self), *final(self)),
    {
        let mut acts: Vec<ProgressAction> = Vec::new();
        assert(action_models(acts@) =~= seq![]);
        if !self.enabled || !self.command_started {
            return acts;
        }
        self.stop(&mut acts);
        if self.json {
            self.json_event(&mut acts, if failed { ProgressJsonEvent::CommandFailed } else { ProgressJsonEvent::CommandFinished });
        } else {
            let mut label = String::new();
            push_str(&mut label, "`");
            push_str(&mut label, self.command_name.as_str());
            push_str(&mut label, if failed { "` failed" } else { "` finished" });
            let line = if failed {
                self.ended_line(self.symbols.step_failure, Style::Error, label.as_str(), duration)
            } else {
                self.ended_line(self.symbols.command_success, Style::Success, label.as_str(), duration)
            };
            self.print(&mut acts, line);
        }
        acts
    }

    /// The command ends.
    pub fn command_finished(&mut self, duration: Duration) -> (r: Vec<ProgressAction>)
        ensures
            trace_of(*final(self), r@) == command_ended_trace(*old(self), duration@, false),
            same_config(*old(self), *final(self)),
    {
        self.command_ended(duration, false)
    }

    /// The command fails.
    pub fn command_failed(&mut self, duration: Duration) -> (r: Vec<ProgressAction>)
        ensures
            trace_of(*final(self), r@) == command_ended_trace(*old(self), duration@, true),
            same_config(*old(self), *final(self)),
    {
        self.command_ended(duration, true)
    }
}

/// The names under which a step shows: its display name and the name of its kind.
pub struct StepLabel {
    pub display_name: String,
    pub kind_name: String,
}

/// Which output stream of a command a text came from.
#[derive(Clone, Copy, Debug, PartialEq, Eq, Structural)]
pub enum CommandStream {
    Stdout,
    Stderr,
}

/// Prints each line in order.
pub open spec fn print_all(t: PresenterTrace, animate: bool, ls: Seq<Seq<char>>) -> PresenterTrace
    decreases ls.len(),
{
    if ls.len() == 0 {
        t
    } else {
        print_op(print_all(t, animate, ls.drop_last()), animate, ls.last())
    }
}

/// A step as progress names it: its position among the command's steps, its
/// name, and its kind when that differs from the name.
pub open spec fn step_message_text(p: ProgressPresenter, index: nat, step: StepLabel) -> Seq<char> {
    styled("["@ + decimal(index + 1) + "/"@ + decimal(p.total_steps as nat) + "]"@, Style::Muted, p.color) + " "@
        + styled(step.display_name@, Style::Header, p.color) + if step.display_name@ == step.kind_name@ {
        Seq::empty()
    } else {
        " "@ + styled("("@ + step.kind_name@ + ")"@, Style::Muted, p.color)
    }
}

pub open spec fn step_started_trace(p: ProgressPresenter, index: nat, step: StepLabel) -> PresenterTrace {
    if !p.enabled {
        initial(p)
    } else {
        let t = command_started_op(p, initial(p));
        let m = step_message_text(p, index, step);
        if p.json {
            json_op(t, ProgressJsonEvent::StepStarted)
        } else if p.animate {
            start_op(t, m)
        } else {
            print_op(t, p.animate, symbol_line(p.symbols.step_start, Style::Accent, p.color, m))
        }
    }
}

pub open spec fn step_skipped_trace(
    p: ProgressPresenter,
    index: nat,
    step: StepLabel,
    condition: Option<Seq<char>>,
    reason: Option<Seq<char>>,
) -> PresenterTrace {
    if !p.enabled {
        initial(p)
    } else {
        let t = stop_op(command_started_op(p, initial(p)));
        if p.json {
            json_op(t, ProgressJsonEvent::StepSkipped)
        } else {
            let detail = match reason {
                Some(r) => Some(r),
                None => condition,
            };
            let line = symbol_line(
                p.symbols.step_skip,
                Style::Warning,
                p.color,
                step_message_text(p, index, step) + " — "@ + styled("skipped"@, Style::Muted, p.color),
            ) + match detail {
                Some(d) => " "@ + styled("("@ + d + ")"@, Style::Muted, p.color),
                None => Seq::empty(),
            };
            print_op(t, p.animate, line)
        }
    }
}

pub open spec fn step_status_trace(p: ProgressPresenter, index: nat, step: StepLabel, status: Seq<char>) -> PresenterTrace {
    if !p.enabled {
        initial(p)
    } else if p.json {
        json_op(initial(p), ProgressJsonEvent::StepStatus)
    } else {
        let m = step_message_text(p, index, step) + " — "@ + styled(status, Style::Detail, p.color);
        if p.animate {
            start_op(initial(p), m)
        } else {
            print_op(initial(p), p.animate, symbol_line(p.symbols.step_start, Style::Accent, p.color, m))
        }
    }
}

/// The detail line of a phase of a finished step.
pub open spec fn phase_timing_line(p: ProgressPresenter, x: (Seq<char>, nat)) -> Seq<char> {
    "  "@ + styled(p.symbols.bullet@, Style::Muted, p.color) + " "@ + styled(x.0, Style::Detail, p.color) + " "@ + styled(
        duration_text(x.1),
        Style::Muted,
        p.color,
    )
}

pub open spec fn step_finished_trace(
    p: ProgressPresenter,
    index: nat,
    step: StepLabel,
    d: nat,
    timings: Seq<(Seq<char>, nat)>,
) -> PresenterTrace {
    if !p.enabled {
        initial(p)
    } else {
        let t = stop_op(command_started_op(p, initial(p)));
        if p.json {
            json_op(t, ProgressJsonEvent::StepFinished)
        } else {
            let head = symbol_line(
                p.symbols.step_success,
                Style::Success,
                p.color,
                step_message_text(p, index, step) + " "@ + styled(duration_text(d), Style::Muted, p.color),
            );
            print_all(
                print_op(t, p.animate, head),
                p.animate,
                summarized(timings).map_values(|x: (Seq<char>, nat)| phase_timing_line(p, x)),
            )
        }
    }
}

/// The `i`-th line of a step's error: the first under a branch, the others under a pipe.
pub open spec fn error_line(p: ProgressPresenter, i: int, line: Seq<char>) -> Seq<char> {
    "  "@ + styled(if i == 0 { p.symbols.error_branch@ } else { p.symbols.log_pipe@ }, Style::Error, p.color) + " "@
        + styled(line, Style::Error, p.color)
}

pub open spec fn step_failed_trace(p: ProgressPresenter, index: nat, step: StepLabel, d: nat, error: Seq<char>) -> PresenterTrace {
    if !p.enabled {
        initial(p)
    } else {
        let t = stop_op(command_started_op(p, initial(p)));
        if p.json {
            json_op(t, ProgressJsonEvent::StepFailed)
        } else {
            let head = symbol_line(
                p.symbols.step_failure,
                Style::Error,
                p.color,
                step_message_text(p, index, step) + " "@ + styled(duration_text(d), Style::Muted, p.color),
            );
            let ls = lines(error);
            print_all(print_op(t, p.animate, head), p.animate, Seq::new(ls.len(), |i: int| error_line(p, i, ls[i])))
        }
    }
}

/// The header of a block of a step's command output.
pub open spec fn output_header(p: ProgressPresenter, step: StepLabel) -> Seq<char> {
    "  "@ + styled(p.symbols.log_pipe@, Style::Muted, p.color) + " "@ + styled(step.display_name@, Style::Detail, p.color)
}

/// One line of a command's output under its block's header; without color
/// its control sequences are removed, and an empty line shows the pipe alone.
pub open spec fn output_line(p: ProgressPresenter, line: Seq<char>) -> Seq<char> {
    let text = if p.color { line } else { stripped(line) };
    if text.len() == 0 {
        "  "@ + styled(p.symbols.log_pipe@, Style::Muted, p.color)
    } else {
        "  "@ + styled(p.symbols.log_pipe@, Style::Muted, p.color) + "   "@ + text
            + if p.color { seq!['\u{1b}', '[', '0', 'm'] } else { Seq::empty() }
    }
}

/// Prints lines of command output in order.
pub open spec fn output_all(t: PresenterTrace, animate: bool, ls: Seq<Seq<char>>) -> PresenterTrace
    decreases ls.len(),
{
    if ls.len() == 0 {
        t
    } else {
        output_print_op(output_all(t, animate, ls.drop_last()), animate, ls.last())
    }
}

/// Opens the output block of a step unless it is the open one: its header
/// shows once per block, and any other line printed ends the block.
pub open spec fn open_block_op(p: ProgressPresenter, t: PresenterTrace, step: StepLabel) -> PresenterTrace {
    if t.block == Some(step.display_name@) {
        t
    } else {
        PresenterTrace { block: Some(step.display_name@), ..output_print_op(t, p.animate, output_header(p, step)) }
    }
}

/// Command output: in JSON one event; otherwise the command header when not
/// yet shown, the step's block header when its block is not open, then each
/// line, whichever stream it came from.
pub open spec fn command_output_trace(
    p: ProgressPresenter,
    step: StepLabel,
    stream: CommandStream,
    text: Seq<char>,
) -> PresenterTrace {
    if !p.enabled || text.len() == 0 {
        initial(p)
    } else if p.json {
        json_op(initial(p), ProgressJsonEvent::CommandOutput)
    } else {
        output_all(
            open_block_op(p, command_started_op(p, initial(p)), step),
            p.animate,
            lines(text).map_values(|l: Seq<char>| output_line(p, l)),
        )
    }
}

impl ProgressPresenter {
    /// The message naming a step.
    pub fn step_message(&self, step_index: usize, step: &StepLabel) -> (r: String)
        requires
            step_index < usize::MAX,
        ensures
            r@ == step_message_text(*self, step_index as nat, *step),
    {
        let mut position = String::new();
        push_str(&mut position, "[");
        push_decimal(&mut position, (step_index + 1) as u128);
        push_str(&mut position, "/");
        push_decimal(&mut position, self.total_steps as u128);
        push_str(&mut position, "]");
        let mut out = self.paint(position.as_str(), Style::Muted);
        push_str(&mut out, " ");
        let name = self.paint(step.display_name.as_str(), Style::Header);
        push_str(&mut out, name.as_str());
        if !str_eq(step.display_name.as_str(), step.kind_name.as_str()) {
            push_str(&mut out, " ");
            let mut kind = String::new();
            push_str(&mut kind, "(");
            push_str(&mut kind, step.kind_name.as_str());
            push_str(&mut kind, ")");
            let painted = self.paint(kind.as_str(), Style::Muted);
            push_str(&mut out, painted.as_str());
        }
        out
    }

    fn print_lines(&mut self, acts: &mut Vec<ProgressAction>, ls: Vec<String>)
        ensures
            trace_of(*final(self), final(acts)@) == print_all(trace_of(*old(self), old(acts)@), old(self).animate, views(ls@)),
            same_config(*old(self), *final(self)),
            final(self).command_started == old(self).command_started,
            final(self).spinner_active == old(self).spinner_active,
    {
        let ghost start = trace_of(*self, acts@);
        let mut i: usize = 0;
        while i < ls.len()
            invariant
                i <= ls@.len(),
                same_config(*old(self), *self),
                self.command_started == old(self).command_started,
                self.spinner_active == old(self).spinner_active,
                trace_of(*self, acts@) == print_all(start, old(self).animate, views(ls@).take(i as int)),
            decreases ls@.len() - i,
        {
            proof {
                assert(views(ls@).take(i + 1).drop_last() =~= views(ls@).take(i as int));
            }
            self.print(acts, ls[i].clone());
            i = i + 1;
        }
        assert(views(ls@).take(ls@.len() as int) =~= views(ls@));
    }

    /// A step begins.
    pub fn step_started(&mut self, step_index: usize, step: &StepLabel) -> (r: Vec<ProgressAction>)
        requires
            step_index < usize::MAX,
        ensures
            trace_of(*final(self), r@) == step_started_trace(*old(self), step_index as nat, *step),
            same_config(*old(self), *final(self)),
    {
        let mut acts: Vec<ProgressAction> = Vec::new();
        assert(action_models(acts@) =~= seq![]);
        if !self.enabled {
            return acts;
        }
        self.command_started(&mut acts);
        if self.json {
            self.json_event(&mut acts, ProgressJsonEvent::StepStarted);
            return acts;
        }
        let message = self.step_message(step_index, step);
        if self.animate {
            self.start(&mut acts, message);
        } else {
            let line = self.symbol_line(self.symbols.step_start, Style::Accent, message.as_str());
            self.print(&mut acts, line);
        }
        acts
    }

    /// A step is skipped, with the reason (or else the condition) when known.
    pub fn step_skipped(
        &mut self,
        step_index: usize,
        step: &StepLabel,
        condition: Option<&str>,
        reason: Option<&str>,
    ) -> (r: Vec<ProgressAction>)
        requires
            step_index < usize::MAX,
        ensures
            trace_of(*final(self), r@) == step_skipped_trace(
                *old(self),
                step_index as nat,
                *step,
                match condition {
                    Some(c) => Some(c@),
                    None => None,
                },
                match reason {
                    Some(x) => Some(x@),
                    None => None,
                },
            ),
            same_config(*old(self), *final(self)),
    {
        let mut acts: Vec<ProgressAction> = Vec::new();
        assert(action_models(acts@) =~= seq![]);
        if !self.enabled {
            return acts;
        }
        self.command_started(&mut acts);
        self.stop(&mut acts);
        if self.json {
            self.json_event(&mut acts, ProgressJsonEvent::StepSkipped);
            return acts;
        }
        let ghost p0 = *old(self);
        let ghost det: Option<Seq<char>> = match reason {
            Some(x) => Some(x@),
            None => match condition {
                Some(c) => Some(c@),
                None => None,
            },
        };
        let mut rest = self.step_message(step_index, step);
        push_str(&mut rest, " — ");
        let skipped = self.paint("skipped", Style::Muted);
        push_str(&mut rest, skipped.as_str());
        assert(rest@ == step_message_text(p0, step_index as nat, *step) + " — "@ + styled("skipped"@, Style::Muted, p0.color));
        let mut line = self.symbol_line(self.symbols.step_skip, Style::Warning, rest.as_str());
        let ghost head = line@;
        let detail = match reason {
            Some(x) => Some(x),
            None => condition,
        };
        if let Some(d) = detail {
            push_str(&mut line, " ");
            let mut wrapped = String::new();
            push_str(&mut wrapped, "(");
            push_str(&mut wrapped, d);
            push_str(&mut wrapped, ")");
            let painted = self.paint(wrapped.as_str(), Style::Muted);
            push_str(&mut line, painted.as_str());
            assert(det == Some(d@));
            assert(line@ == head + " "@ + styled("("@ + d@ + ")"@, Style::Muted, p0.color));
        } else {
            assert(det is None);
        }
        assert(line@ == symbol_line(p0.symbols.step_skip, Style::Warning, p0.color, step_message_text(p0, step_index as nat, *step)
            + " — "@ + styled("skipped"@, Style::Muted, p0.color)) + match det {
            Some(d) => " "@ + styled("("@ + d + ")"@, Style::Muted, p0.color),
            None => Seq::empty(),
        });
        self.print(&mut acts, line);
        acts
    }

    /// A step reports its status.
    pub fn step_status(&mut self, step_index: usize, step: &StepLabel, status: &str) -> (r: Vec<ProgressAction>)
        requires
            step_index < usize::MAX,
        ensures
            trace_of(*final(self), r@) == step_status_trace(*old(self), step_index as nat, *step, status@),
            same_config(*old(self), *final(self)),
    {
        let mut acts: Vec<ProgressAction> = Vec::new();
        assert(action_models(acts@) =~= seq![]);
        if !self.enabled {
            return acts;
        }
        if self.json {
            self.json_event(&mut acts, ProgressJsonEvent::StepStatus);
            return acts;
        }
        let mut message = self.step_message(step_index, step);
        push_str(&mut message, " — ");
        let painted = self.paint(status, Style::Detail);
        push_str(&mut message, painted.as_str());
        if self.animate {
            self.start(&mut acts, message);
        } else {
            let line = self.symbol_line(self.symbols.step_start, Style::Accent, message.as_str());
            self.print(&mut acts, line);
        }
        acts
    }

    /// A step ends, with the longest of its phases.
    pub fn step_finished(
        &mut self,
        step_index: usize,
        step: &StepLabel,
        duration: Duration,
        phase_timings: &[StepPhaseTiming],
    ) -> (r: Vec<ProgressAction>)
        requires
            step_index < usize::MAX,
        ensures
            trace_of(*final(self), r@) == step_finished_trace(
                *old(self),
                step_index as nat,
                *step,
                duration@,
                timing_views(phase_timings@),
            ),
            same_config(*old(self), *final(self)),
    {
        let mut acts: Vec<ProgressAction> = Vec::new();
        assert(action_models(acts@) =~= seq![]);
        if !self.enabled {
            return acts;
        }
        self.command_started(&mut acts);
        self.stop(&mut acts);
        if self.json {
            self.json_event(&mut acts, ProgressJsonEvent::StepFinished);
            return acts;
        }
        let mut rest = self.step_message(step_index, step);
        push_str(&mut rest, " ");
        let d = format_duration(duration);
        let painted = self.paint(d.as_str(), Style::Muted);
        push_str(&mut rest, painted.as_str());
        let head = self.symbol_line(self.symbols.step_success, Style::Success, rest.as_str());
        self.print(&mut acts, head);
        let phases = summarized_phase_timings(phase_timings);
        let ghost xs = timing_views(phases@);
        let ghost p0 = *old(self);
        let mut ls: Vec<String> = Vec::new();
        let mut i: usize = 0;
        while i < phases.len()
            invariant
                i <= phases@.len(),
                xs == timing_views(phases@),
                same_config(p0, *self),
                views(ls@) == xs.take(i as int).map_values(|x: (Seq<char>, nat)| phase_timing_line(p0, x)),
            decreases phases@.len() - i,
        {
            let mut line = String::new();
            push_str(&mut line, "  ");
            let bullet = self.paint(self.symbols.bullet, Style::Muted);
            push_str(&mut line, bullet.as_str());
            push_str(&mut line, " ");
            let label = self.paint(phases[i].label.as_str(), Style::Detail);
            push_str(&mut line, label.as_str());
            push_str(&mut line, " ");
            let pd = format_duration(phases[i].duration);
            let painted_d = self.paint(pd.as_str(), Style::Muted);
            push_str(&mut line, painted_d.as_str());
            let ghost before = views(ls@);
            ls.push(line);
            proof {
                assert(views(ls@) =~= before.push(phase_timing_line(p0, xs[i as int])));
                assert(xs.take(i + 1).map_values(|x: (Seq<char>, nat)| phase_timing_line(p0, x))
                    =~= xs.take(i as int).map_values(|x: (Seq<char>, nat)| phase_timing_line(p0, x)).push(phase_timing_line(p0, xs[i as int])));
            }
            i = i + 1;
        }
        assert(xs.take(phases@.len() as int) =~= xs);
        self.print_lines(&mut acts, ls);
        acts
    }

    /// A step fails: the step line, then each line of the error.
    pub fn step_failed(&mut self, step_index: usize, step: &StepLabel, duration: Duration, error: &str) -> (r: Vec<ProgressAction>)
        requires
            step_index < usize::MAX,
        ensures
            trace_of(*final(self), r@) == step_failed_trace(*old(self), step_index as nat, *step, duration@, error@),
            same_config(*old(self), *final(self)),
    {
        let mut acts: Vec<ProgressAction> = Vec::new();
        assert(action_models(acts@) =~= seq![]);
        if !self.enabled {
            return acts;
        }
        self.command_started(&mut acts);
        self.stop(&mut acts);
        if self.json {
            self.json_event(&mut acts, ProgressJsonEvent::StepFailed);
            return acts;
        }
        let mut rest = self.step_message(step_index, step);
        push_str(&mut rest, " ");
        let d = format_duration(duration);
        let painted = self.paint(d.as_str(), Style::Muted);
        push_str(&mut rest, painted.as_str());
        let head = self.symbol_line(self.symbols.step_failure, Style::Error, rest.as_str());
        self.print(&mut acts, head);
        let error_lines = lines_of(error);
        let ghost el = views(error_lines@);
        let ghost p0 = *old(self);
        let ghost target = Seq::new(el.len(), |k: int| error_line(p0, k, el[k]));
        let mut ls: Vec<String> = Vec::new();
        let mut i: usize = 0;
        while i < error_lines.len()
            invariant
                i <= error_lines@.len(),
                el == views(error_lines@),
                same_config(p0, *self),
                target == Seq::new(el.len(), |k: int| error_line(p0, k, el[k])),
                views(ls@) == target.take(i as int),
            decreases error_lines@.len() - i,
        {
            let branch = if i == 0 { self.symbols.error_branch } else { self.symbols.log_pipe };
            let mut line = String::new();
            push_str(&mut line, "  ");
            let b = self.paint(branch, Style::Error);
            push_str(&mut line, b.as_str());
            push_str(&mut line, " ");
            let t = self.paint(error_lines[i].as_str(), Style::Error);
            push_str(&mut line, t.as_str());
            let ghost before = views(ls@);
            ls.push(line);
            proof {
                assert(views(ls@) =~= before.push(target[i as int]));
                assert(target.take(i + 1) =~= target.take(i as int).push(target[i as int]));
            }
            i = i + 1;
        }
        assert(target.take(error_lines@.len() as int) =~= target);
        self.print_lines(&mut acts, ls);
        acts
    }

    fn output_line(&self, line: &str) -> (r: String)
        ensures
            r@ == output_line(*self, line@),
    {
        let text = if self.color { line.to_string() } else { strip_terminal_controls(line) };
        let mut out = String::new();
        push_str(&mut out, "  ");
        let pipe = self.paint(self.symbols.log_pipe, Style::Muted);
        push_str(&mut out, pipe.as_str());
        if !text.as_str().is_empty() {
            push_str(&mut out, "   ");
            push_str(&mut out, text.as_str());
            if self.color {
                proof {
                    reveal_strlit("\u{1b}[0m");
                    assert("\u{1b}[0m"@ =~= seq!['\u{1b}', '[', '0', 'm']);
                }
                push_str(&mut out, "\u{1b}[0m");
            }
        }
        proof {
            reveal_strlit("  ");
            reveal_strlit("   ");
        }
        out
    }

    fn open_block(&mut self, acts: &mut Vec<ProgressAction>, step: &StepLabel)
        ensures
            trace_of(*final(self), final(acts)@) == open_block_op(*old(self), trace_of(*old(self), old(acts)@), *step),
            same_config(*old(self), *final(self)),
            final(self).command_started == old(self).command_started,
            final(self).spinner_active == old(self).spinner_active,
    {
        let open = match &self.output_block {
            Some(b) => str_eq(b.as_str(), step.display_name.as_str()),
            None => false,
        };
        if open {
            return;
        }
        let mut header = String::new();
        push_str(&mut header, "  ");
        let pipe = self.paint(self.symbols.log_pipe, Style::Muted);
        push_str(&mut header, pipe.as_str());
        push_str(&mut header, " ");
        let name = self.paint(step.display_name.as_str(), Style::Detail);
        push_str(&mut header, name.as_str());
        self.print_output(acts, header);
        self.output_block = Some(step.display_name.clone());
    }

    /// Output of a step's command (see `command_output_trace`).
    pub fn log_command_output(&mut self, step: &StepLabel, stream: CommandStream, text: &str) -> (r: Vec<ProgressAction>)
        ensures
            trace_of(*final(self), r@) == command_output_trace(*old(self), *step, stream, text@),
            same_config(*old(self), *final(self)),
    {
        let mut acts: Vec<ProgressAction> = Vec::new();
        assert(action_models(acts@) =~= seq![]);
        if !self.enabled || text.is_empty() {
            return acts;
        }
        if self.json {
            self.json_event(&mut acts, ProgressJsonEvent::CommandOutput);
            return acts;
        }
        self.command_started(&mut acts);
        self.open_block(&mut acts, step);
        let text_lines = lines_of(text);
        let ghost tl = views(text_lines@);
        let ghost p0 = *old(self);
        let ghost start = trace_of(*self, acts@);
        let mut i: usize = 0;
        while i < text_lines.len()
            invariant
                i <= text_lines@.len(),
                tl == views(text_lines@),
                same_config(p0, *self),
                trace_of(*self, acts@) == output_all(
                    start,
                    p0.animate,
                    tl.take(i as int).map_values(|l: Seq<char>| output_line(p0, l)),
                ),
            decreases text_lines@.len() - i,
        {
            let line = self.output_line(text_lines[i].as_str());
            proof {
                assert(tl.take(i + 1).map_values(|l: Seq<char>| output_line(p0, l)).drop_last()
                    =~= tl.take(i as int).map_values(|l: Seq<char>| output_line(p0, l)));
                assert(tl.take(i + 1).map_values(|l: Seq<char>| output_line(p0, l)).last() == output_line(p0, tl[i as int]));
                assert(output_line(*self, text_lines@[i as int]@) == output_line(p0, tl[i as int]));
            }
            self.print_output(&mut acts, line);
            i = i + 1;
        }
        assert(tl.take(text_lines@.len() as int) =~= tl);
        acts
    }
}

/// The plural ending of a count.
pub open spec fn plural(n: nat) -> Seq<char> {
    if n == 1 { Seq::empty() } else { "s"@ }
}

fn plural_of(n: usize) -> (r: &'static str)
    ensures
        r@ == plural(n as nat),
{
    proof {
        reveal_strlit("");
    }
    if n == 1 { "" } else { "s" }
}

/// `n` followed by `noun` and its plural ending.
pub open spec fn counted_noun(n: nat, noun: Seq<char>) -> Seq<char> {
    decimal(n) + " "@ + noun + plural(n)
}

fn push_counted_noun(out: &mut String, n: usize, noun: &str)
    ensures
        final(out)@ == old(out)@ + counted_noun(n as nat, noun@),
{
    push_decimal(out, n as u128);
    push_str(out, " ");
    push_str(out, noun);
    push_str(out, plural_of(n));
}

pub open spec fn planning_started_trace(p: ProgressPresenter, suites: nat) -> PresenterTrace {
    if !p.enabled || suites == 0 {
        initial(p)
    } else if p.json {
        json_op(initial(p), ProgressJsonEvent::LintPlanningStarted)
    } else {
        print_op(
            initial(p),
            p.animate,
            symbol_line(p.symbols.step_start, Style::Accent, p.color, styled("Running "@ + counted_noun(suites, "lint suite"@), Style::Header, p.color)),
        )
    }
}

pub open spec fn planning_finished_trace(p: ProgressPresenter) -> PresenterTrace {
    if p.json && p.enabled {
        json_op(initial(p), ProgressJsonEvent::LintPlanningFinished)
    } else {
        initial(p)
    }
}

/// An activity that shows as a spinner when animated and as a line otherwise.
pub open spec fn activity_op(p: ProgressPresenter, t: PresenterTrace, message: Seq<char>) -> PresenterTrace {
    if p.animate {
        start_op(t, message)
    } else {
        print_op(t, p.animate, symbol_line(p.symbols.step_start, Style::Accent, p.color, message))
    }
}

pub open spec fn suite_started_trace(p: ProgressPresenter, suite: Seq<char>, files: nat, rules: nat) -> PresenterTrace {
    if !p.enabled {
        initial(p)
    } else if p.json {
        json_op(initial(p), ProgressJsonEvent::LintSuiteStarted)
    } else {
        activity_op(p, initial(p), suite + " — checking "@ + counted_noun(files, "file"@) + " with "@ + counted_noun(rules, "rule"@))
    }
}

pub open spec fn suite_finished_trace(p: ProgressPresenter, suite: Seq<char>, results: nat, fixable: nat) -> PresenterTrace {
    if !p.enabled {
        initial(p)
    } else {
        let t = stop_op(initial(p));
        if p.json {
            json_op(t, ProgressJsonEvent::LintSuiteFinished)
        } else {
            print_op(
                t,
                p.animate,
                symbol_line(
                    p.symbols.step_success,
                    Style::Success,
                    p.color,
                    suite + " — "@ + counted_noun(results, "issue"@) + if fixable > 0 {
                        " ("@ + decimal(fixable) + " fixable)"@
                    } else {
                        Seq::empty()
                    },
                ),
            )
        }
    }
}

pub open spec fn fix_started_trace(p: ProgressPresenter, files: nat) -> PresenterTrace {
    if !p.enabled {
        initial(p)
    } else if p.json {
        json_op(initial(p), ProgressJsonEvent::LintFixStarted)
    } else {
        activity_op(p, initial(p), "Applying fixes to "@ + counted_noun(files, "file"@))
    }
}

pub open spec fn fix_applied_trace(p: ProgressPresenter, path: Seq<char>, description: Seq<char>) -> PresenterTrace {
    if !p.enabled {
        initial(p)
    } else if p.json {
        json_op(initial(p), ProgressJsonEvent::LintFixApplied)
    } else {
        print_op(initial(p), p.animate, "  "@ + styled(p.symbols.bullet@, Style::Success, p.color) + " "@ + path + " ("@ + description + ")"@)
    }
}

pub open spec fn fix_finished_trace(p: ProgressPresenter, files: nat) -> PresenterTrace {
    if !p.enabled {
        initial(p)
    } else {
        let t = stop_op(initial(p));
        if p.json {
            json_op(t, ProgressJsonEvent::LintFixFinished)
        } else {
            print_op(t, p.animate, symbol_line(p.symbols.step_success, Style::Success, p.color, "Fixed "@ + counted_noun(files, "file"@)))
        }
    }
}

/// The rule above the lint summary.
pub open spec fn summary_rule() -> Seq<char> {
    "─────────────────────────────"@
}

/// The hint about fixable issues.
pub open spec fn fixable_hint(p: ProgressPresenter, fixable: nat, fixed: bool) -> Seq<char> {
    styled(p.symbols.bullet@, Style::Muted, p.color) + " "@ + counted_noun(fixable, "issue"@) + " "@ + (if fixed {
        "remain auto-fixable"@
    } else {
        "can be auto-fixed"@
    }) + ". Run `monochange check --fix`"@ + (if fixed { " again"@ } else { Seq::empty() }) + " to apply."@
}

pub open spec fn summary_trace(p: ProgressPresenter, errors: nat, warnings: nat, fixable: nat, fixed: bool) -> PresenterTrace {
    if !p.enabled || (errors == 0 && warnings == 0) {
        initial(p)
    } else if p.json {
        json_op(initial(p), ProgressJsonEvent::LintSummary)
    } else {
        let t1 = print_op(initial(p), p.animate, styled(summary_rule(), Style::Muted, p.color));
        let t2 = match summary_counts(errors, warnings, p.symbols.step_failure@, "!"@) {
            Some(line) => print_op(t1, p.animate, line),
            None => t1,
        };
        if fixable > 0 {
            print_op(t2, p.animate, fixable_hint(p, fixable, fixed))
        } else {
            t2
        }
    }
}

impl ProgressPresenter {
    fn activity(&mut self, acts: &mut Vec<ProgressAction>, message: String)
        ensures
            trace_of(*final(self), final(acts)@) == activity_op(*old(self), trace_of(*old(self), old(acts)@), message@),
            same_config(*old(self), *final(self)),
    {
        if self.animate {
            self.start(acts, message);
        } else {
            let line = self.symbol_line(self.symbols.step_start, Style::Accent, message.as_str());
            self.print(acts, line);
        }
    }

    /// Lint suites are about to run.
    pub fn planning_started(&mut self, suites: &[String]) -> (r: Vec<ProgressAction>)
        ensures
            trace_of(*final(self), r@) == planning_started_trace(*old(self), suites@.len()),
            same_config(*old(self), *final(self)),
    {
        let mut acts: Vec<ProgressAction> = Vec::new();
        assert(action_models(acts@) =~= seq![]);
        if !self.enabled || suites.len() == 0 {
            return acts;
        }
        if self.json {
            self.json_event(&mut acts, ProgressJsonEvent::LintPlanningStarted);
            return acts;
        }
        let mut message = String::new();
        push_str(&mut message, "Running ");
        push_counted_noun(&mut message, suites.len(), "lint suite");
        let painted = self.paint(message.as_str(), Style::Header);
        let line = self.symbol_line(self.symbols.step_start, Style::Accent, painted.as_str());
        self.print(&mut acts, line);
        acts
    }

    /// Lint planning is done; only JSON output reports it.
    pub fn planning_finished(&mut self) -> (r: Vec<ProgressAction>)
        ensures
            trace_of(*final(self), r@) == planning_finished_trace(*old(self)),
            same_config(*old(self), *final(self)),
    {
        let mut acts: Vec<ProgressAction> = Vec::new();
        assert(action_models(acts@) =~= seq![]);
        if self.json && self.enabled {
            self.json_event(&mut acts, ProgressJsonEvent::LintPlanningFinished);
        }
        acts
    }

    /// A lint suite starts.
    pub fn suite_started(&mut self, suite_id: &str, file_count: usize, rule_count: usize) -> (r: Vec<ProgressAction>)
        ensures
            trace_of(*final(self), r@) == suite_started_trace(*old(self), suite_id@, file_count as nat, rule_count as nat),
            same_config(*old(self), *final(self)),
    {
        let mut acts: Vec<ProgressAction> = Vec::new();
        assert(action_models(acts@) =~= seq![]);
        if !self.enabled {
            return acts;
        }
        if self.json {
            self.json_event(&mut acts, ProgressJsonEvent::LintSuiteStarted);
            return acts;
        }
        let mut message = String::new();
        push_str(&mut message, suite_id);
        push_str(&mut message, " — checking ");
        push_counted_noun(&mut message, file_count, "file");
        push_str(&mut message, " with ");
        push_counted_noun(&mut message, rule_count, "rule");
        self.activity(&mut acts, message);
        acts
    }

    /// A lint suite ends.
    pub fn suite_finished(&mut self, suite_id: &str, result_count: usize, fixable_count: usize) -> (r: Vec<ProgressAction>)
        ensures
            trace_of(*final(self), r@) == suite_finished_trace(*old(self), suite_id@, result_count as nat, fixable_count as nat),
            same_config(*old(self), *final(self)),
    {
        let mut acts: Vec<ProgressAction> = Vec::new();
        assert(action_models(acts@) =~= seq![]);
        if !self.enabled {
            return acts;
        }
        self.stop(&mut acts);
        if self.json {
            self.json_event(&mut acts, ProgressJsonEvent::LintSuiteFinished);
            return acts;
        }
        let mut rest = String::new();
        push_str(&mut rest, suite_id);
        push_str(&mut rest, " — ");
        push_counted_noun(&mut rest, result_count, "issue");
        if fixable_count > 0 {
            push_str(&mut rest, " (");
            push_decimal(&mut rest, fixable_count as u128);
            push_str(&mut rest, " fixable)");
        }
        assert(rest@ =~= suite_id@ + " — "@ + counted_noun(result_count as nat, "issue"@) + if fixable_count > 0 {
            " ("@ + decimal(fixable_count as nat) + " fixable)"@
        } else {
            Seq::empty()
        });
        let line = self.symbol_line(self.symbols.step_success, Style::Success, rest.as_str());
        self.print(&mut acts, line);
        acts
    }

    /// Lint fixes start.
    pub fn fix_started(&mut self, file_count: usize) -> (r: Vec<ProgressAction>)
        ensures
            trace_of(*final(self), r@) == fix_started_trace(*old(self), file_count as nat),
            same_config(*old(self), *final(self)),
    {
        let mut acts: Vec<ProgressAction> = Vec::new();
        assert(action_models(acts@) =~= seq![]);
        if !self.enabled {
            return acts;
        }
        if self.json {
            self.json_event(&mut acts, ProgressJsonEvent::LintFixStarted);
            return acts;
        }
        let mut message = String::new();
        push_str(&mut message, "Applying fixes to ");
        push_counted_noun(&mut message, file_count, "file");
        self.activity(&mut acts, message);
        acts
    }

    /// A lint fix was applied to a file.
    pub fn fix_applied(&mut self, file_path: &str, description: &str) -> (r: Vec<ProgressAction>)
        ensures
            trace_of(*final(self), r@) == fix_applied_trace(*old(self), file_path@, description@),
            same_config(*old(self), *final(self)),
    {
        let mut acts: Vec<ProgressAction> = Vec::new();
        assert(action_models(acts@) =~= seq![]);
        if !self.enabled {
            return acts;
        }
        if self.json {
            self.json_event(&mut acts, ProgressJsonEvent::LintFixApplied);
            return acts;
        }
        let mut line = String::new();
        push_str(&mut line, "  ");
        let bullet = self.paint(self.symbols.bullet, Style::Success);
        push_str(&mut line, bullet.as_str());
        push_str(&mut line, " ");
        push_str(&mut line, file_path);
        push_str(&mut line, " (");
        push_str(&mut line, description);
        push_str(&mut line, ")");
        self.print(&mut acts, line);
        acts
    }

    /// Lint fixes end.
    pub fn fix_finished(&mut self, files_fixed: usize) -> (r: Vec<ProgressAction>)
        ensures
            trace_of(*final(self), r@) == fix_finished_trace(*old(self), files_fixed as nat),
            same_config(*old(self), *final(self)),
    {
        let mut acts: Vec<ProgressAction> = Vec::new();
        assert(action_models(acts@) =~= seq![]);
        if !self.enabled {
            return acts;
        }
        self.stop(&mut acts);
        if self.json {
            self.json_event(&mut acts, ProgressJsonEvent::LintFixFinished);
            return acts;
        }
        let mut rest = String::new();
        push_str(&mut rest, "Fixed ");
        push_counted_noun(&mut rest, files_fixed, "file");
        let line = self.symbol_line(self.symbols.step_success, Style::Success, rest.as_str());
        self.print(&mut acts, line);
        acts
    }

    /// The lint summary, when there are errors or warnings.
    pub fn summary(&mut self, errors: usize, warnings: usize, fixable: usize, fixed: bool) -> (r: Vec<ProgressAction>)
        ensures
            trace_of(*final(self), r@) == summary_trace(*old(self), errors as nat, warnings as nat, fixable as nat, fixed),
            same_config(*old(self), *final(self)),
    {
        let mut acts: Vec<ProgressAction> = Vec::new();
        assert(action_models(acts@) =~= seq![]);
        if !self.enabled || (errors == 0 && warnings == 0) {
            return acts;
        }
        if self.json {
            self.json_event(&mut acts, ProgressJsonEvent::LintSummary);
            return acts;
        }
        let rule = self.paint("─────────────────────────────", Style::Muted);
        self.print(&mut acts, rule);
        match summary_count_line(errors, warnings, self.symbols.step_failure, "!") {
            Some(line) => self.print(&mut acts, line),
            None => {},
        }
        if fixable > 0 {
            let mut line = self.paint(self.symbols.bullet, Style::Muted);
            push_str(&mut line, " ");
            push_counted_noun(&mut line, fixable, "issue");
            push_str(&mut line, " ");
            push_str(&mut line, if fixed { "remain auto-fixable" } else { "can be auto-fixed" });
            push_str(&mut line, ". Run `monochange check --fix`");
            if fixed {
                push_str(&mut line, " again");
            }
            push_str(&mut line, " to apply.");
            self.print(&mut acts, line);
        }
        acts
    }

    /// Stops the spinner so an interactive prompt can take the terminal;
    /// says whether one was running.
    pub fn pause_spinner(&mut self) -> (r: (bool, Vec<ProgressAction>))
        ensures
            r.0 == old(self).spinner_active,
            trace_of(*final(self), r.1@) == stop_op(initial(*old(self))),
            same_config(*old(self), *final(self)),
    {
        let mut acts: Vec<ProgressAction> = Vec::new();
        assert(action_models(acts@) =~= seq![]);
        let was_active = self.spinner_active;
        self.stop(&mut acts);
        (was_active, acts)
    }
}

/// A package as publish progress shows it; the ecosystem's symbol and
/// label are the ones the ecosystem presents itself with.
pub struct PublishProgressPackage {
    pub package_id: String,
    pub package_name: String,
    pub ecosystem_emoji: String,
    pub ecosystem_label: String,
    pub version: String,
    pub registry: String,
}

/// An ecosystem as publish progress shows it.
pub struct EcosystemPresentation {
    pub emoji: String,
    pub label: String,
}

/// Whether a publish run releases packages or publishes placeholders.
#[derive(Clone, Copy, Debug, PartialEq, Eq, Structural)]
pub enum PublishRunMode {
    Release,
    Placeholder,
}

/// What happens while packages publish.
pub enum PublishProgressEvent {
    RunStarted { mode: PublishRunMode, dry_run: bool, total: usize, ecosystems: Vec<EcosystemPresentation> },
    RegistryCheckStarted(PublishProgressPackage),
    PackageStarted(PublishProgressPackage),
    PackageSkipped { package: PublishProgressPackage, message: String },
    PackagePlanned(PublishProgressPackage),
    PackagePublished(PublishProgressPackage),
    PackageFailed { package: PublishProgressPackage, message: String },
    RunFinished { mode: PublishRunMode, total: usize, published: usize, skipped: usize, failed: usize },
}

/// The name of a run mode as it is printed.
pub open spec fn run_mode_text(mode: PublishRunMode) -> Seq<char> {
    match mode {
        PublishRunMode::Release => "Release"@,
        PublishRunMode::Placeholder => "Placeholder"@,
    }
}

/// An ecosystem as a run line names it: its symbol and label, or its label alone without emoji.
pub open spec fn ecosystem_text(e: EcosystemPresentation, emoji: bool) -> Seq<char> {
    if emoji { e.emoji@ + " "@ + e.label@ } else { e.label@ }
}

/// The ecosystems, separated by commas.
pub open spec fn ecosystems_text(es: Seq<EcosystemPresentation>, emoji: bool) -> Seq<char>
    decreases es.len(),
{
    if es.len() == 0 {
        Seq::empty()
    } else if es.len() == 1 {
        ecosystem_text(es[0], emoji)
    } else {
        ecosystems_text(es.drop_last(), emoji) + ", "@ + ecosystem_text(es.last(), emoji)
    }
}

/// A package's ecosystem symbol (with emoji), ecosystem label and name.
pub open spec fn package_prefix(pkg: PublishProgressPackage, emoji: bool) -> Seq<char> {
    (if emoji { pkg.ecosystem_emoji@ + " "@ } else { Seq::empty() }) + pkg.ecosystem_label@ + " "@ + pkg.package_name@
}

/// A symbol and a space that start a line.
pub open spec fn lead(symbol: &str, style: Style, color: bool) -> Seq<char> {
    styled(symbol@, style, color) + " "@
}

/// The packages of a run that were neither published, skipped nor failed.
pub open spec fn not_attempted(total: usize, published: usize, skipped: usize, failed: usize) -> nat {
    let rest = total - published - skipped - failed;
    if rest > 0 { rest as nat } else { 0 }
}

/// A count after a comma, when there is any.
pub open spec fn count_part(n: nat, word: Seq<char>) -> Seq<char> {
    if n > 0 { ", "@ + decimal(n) + word } else { Seq::empty() }
}

/// The outcome of a run: failures, else publications, else nothing at all.
pub open spec fn run_outcome_lead(s: ProgressSymbols, color: bool, published: usize, failed: usize) -> Seq<char> {
    if failed > 0 {
        lead(s.step_failure, Style::Error, color)
    } else if published > 0 {
        lead(s.command_success, Style::Success, color)
    } else {
        lead(s.bullet, Style::Muted, color)
    }
}

/// The counts of a finished run: those published, then the failed, skipped
/// and not attempted ones, each when there are any.
pub open spec fn run_counts_text(total: usize, published: usize, skipped: usize, failed: usize) -> Seq<char> {
    decimal(published as nat) + " published"@ + count_part(failed as nat, " failed"@) + count_part(skipped as nat, " skipped"@)
        + count_part(not_attempted(total, published, skipped, failed), " not attempted"@)
}

/// The line of a publish event. A registry check or upload leaves out its
/// start symbol when animated, as the spinner shows one.
pub open spec fn publish_event_text(e: PublishProgressEvent, s: ProgressSymbols, color: bool, animated: bool) -> Seq<char> {
    let start = if animated { Seq::empty() } else { lead(s.step_start, Style::Accent, color) };
    match e {
        PublishProgressEvent::RunStarted { mode, dry_run, total, ecosystems } => lead(s.step_start, Style::Accent, color)
            + "Publishing "@ + decimal(total as nat) + (if total == 1 { " package ("@ } else { " packages ("@ })
            + run_mode_text(mode) + (if dry_run { " dry-run"@ } else { Seq::empty() }) + ")"@
            + if ecosystems@.len() > 0 { " across "@ + ecosystems_text(ecosystems@, s.emoji) } else { Seq::empty() },
        PublishProgressEvent::RegistryCheckStarted(pkg) => start + package_prefix(pkg, s.emoji) + " checking "@
            + pkg.version@ + " on "@ + pkg.registry@,
        PublishProgressEvent::PackageStarted(pkg) => start + package_prefix(pkg, s.emoji) + " publishing "@
            + pkg.version@ + " to "@ + pkg.registry@,
        PublishProgressEvent::PackageSkipped { package, message } => lead(s.step_skip, Style::Muted, color)
            + package_prefix(package, s.emoji) + " "@ + message@,
        PublishProgressEvent::PackagePlanned(pkg) => lead(s.bullet, Style::Muted, color) + package_prefix(pkg, s.emoji)
            + " would publish "@ + pkg.version@ + " to "@ + pkg.registry@,
        PublishProgressEvent::PackagePublished(pkg) => lead(s.step_success, Style::Success, color)
            + package_prefix(pkg, s.emoji) + " published "@ + pkg.version@ + " to "@ + pkg.registry@,
        PublishProgressEvent::PackageFailed { package, message } => lead(s.step_failure, Style::Error, color)
            + package_prefix(package, s.emoji) + " failed: "@ + message@,
        PublishProgressEvent::RunFinished { mode, total, published, skipped, failed } => run_outcome_lead(
            s,
            color,
            published,
            failed,
        ) + "Publish complete: "@ + run_counts_text(total, published, skipped, failed),
    }
}

fn push_lead(out: &mut String, symbol: &str, style: Style, color: bool)
    ensures
        final(out)@ == old(out)@ + lead(symbol, style, color),
{
    let painted = paint_text(symbol, style, color);
    push_str(out, painted.as_str());
    push_str(out, " ");
}

fn push_package_prefix(out: &mut String, pkg: &PublishProgressPackage, emoji: bool)
    ensures
        final(out)@ == old(out)@ + package_prefix(*pkg, emoji),
{
    let ghost start = out@;
    if emoji {
        push_str(out, pkg.ecosystem_emoji.as_str());
        push_str(out, " ");
    }
    push_str(out, pkg.ecosystem_label.as_str());
    push_str(out, " ");
    push_str(out, pkg.package_name.as_str());
    assert(out@ =~= start + package_prefix(*pkg, emoji));
}

fn push_ecosystems(out: &mut String, es: &Vec<EcosystemPresentation>, emoji: bool)
    ensures
        final(out)@ == old(out)@ + ecosystems_text(es@, emoji),
{
    let mut i: usize = 0;
    while i < es.len()
        invariant
            i <= es@.len(),
            out@ == old(out)@ + ecosystems_text(es@.take(i as int), emoji),
        decreases es@.len() - i,
    {
        proof {
            assert(es@.take(i + 1).drop_last() =~= es@.take(i as int));
            assert(es@.take(i + 1).last() == es@[i as int]);
            if i == 0 {
                assert(es@.take(1)[0] == es@[0]);
            }
        }
        let ghost before = out@;
        if i > 0 {
            push_str(out, ", ");
        }
        if emoji {
            push_str(out, es[i].emoji.as_str());
            push_str(out, " ");
        }
        push_str(out, es[i].label.as_str());
        proof {
            if i == 0 {
                assert(out@ =~= before + ecosystem_text(es@[0], emoji));
            } else {
                assert(out@ =~= before + ", "@ + ecosystem_text(es@[i as int], emoji));
            }
        }
        i = i + 1;
    }
    assert(es@.take(es@.len() as int) =~= es@);
}

fn push_count_part(out: &mut String, n: usize, word: &str)
    ensures
        final(out)@ == old(out)@ + count_part(n as nat, word@),
{
    if n > 0 {
        let ghost start = out@;
        push_str(out, ", ");
        push_decimal(out, n as u128);
        push_str(out, word);
        assert(out@ =~= start + ", "@ + decimal(n as nat) + word@);
    } else {
        assert(out@ =~= old(out)@ + count_part(n as nat, word@));
    }
}

fn push_run_counts(out: &mut String, total: usize, published: usize, skipped: usize, failed: usize)
    ensures
        final(out)@ == old(out)@ + run_counts_text(total, published, skipped, failed),
{
    let ghost start = out@;
    push_decimal(out, published as u128);
    push_str(out, " published");
    push_count_part(out, failed, " failed");
    push_count_part(out, skipped, " skipped");
    let rest: usize = if published <= total && skipped <= total - published && failed <= total - published - skipped {
        total - published - skipped - failed
    } else {
        0
    };
    assert(rest as nat == not_attempted(total, published, skipped, failed));
    push_count_part(out, rest, " not attempted");
    assert(out@ =~= start + run_counts_text(total, published, skipped, failed));
}

/// The line that shows a publish event (see `publish_event_text`).
pub fn render_publish_event(event: &PublishProgressEvent, symbols: &ProgressSymbols, color: bool, animated: bool) -> (r: String)
    ensures
        r@ == publish_event_text(*event, *symbols, color, animated),
{
    let mut out = String::new();
    let emoji = symbols.emoji;
    match event {
        PublishProgressEvent::RunStarted { mode, dry_run, total, ecosystems } => {
            push_lead(&mut out, symbols.step_start, Style::Accent, color);
            push_str(&mut out, "Publishing ");
            push_decimal(&mut out, *total as u128);
            push_str(&mut out, if *total == 1 { " package (" } else { " packages (" });
            push_str(&mut out, match mode {
                PublishRunMode::Release => "Release",
                PublishRunMode::Placeholder => "Placeholder",
            });
            if *dry_run {
                push_str(&mut out, " dry-run");
            }
            push_str(&mut out, ")");
            if ecosystems.len() > 0 {
                push_str(&mut out, " across ");
                push_ecosystems(&mut out, ecosystems, emoji);
            }
        },
        PublishProgressEvent::RegistryCheckStarted(pkg) => {
            if !animated {
                push_lead(&mut out, symbols.step_start, Style::Accent, color);
            }
            push_package_prefix(&mut out, pkg, emoji);
            push_str(&mut out, " checking ");
            push_str(&mut out, pkg.version.as_str());
            push_str(&mut out, " on ");
            push_str(&mut out, pkg.registry.as_str());
        },
        PublishProgressEvent::PackageStarted(pkg) => {
            if !animated {
                push_lead(&mut out, symbols.step_start, Style::Accent, color);
            }
            push_package_prefix(&mut out, pkg, emoji);
            push_str(&mut out, " publishing ");
            push_str(&mut out, pkg.version.as_str());
            push_str(&mut out, " to ");
            push_str(&mut out, pkg.registry.as_str());
        },
        PublishProgressEvent::PackageSkipped { package, message } => {
            push_lead(&mut out, symbols.step_skip, Style::Muted, color);
            push_package_prefix(&mut out, package, emoji);
            push_str(&mut out, " ");
            push_str(&mut out, message.as_str());
        },
        PublishProgressEvent::PackagePlanned(pkg) => {
            push_lead(&mut out, symbols.bullet, Style::Muted, color);
            push_package_prefix(&mut out, pkg, emoji);
            push_str(&mut out, " would publish ");
            push_str(&mut out, pkg.version.as_str());
            push_str(&mut out, " to ");
            push_str(&mut out, pkg.registry.as_str());
        },
        PublishProgressEvent::PackagePublished(pkg) => {
            push_lead(&mut out, symbols.step_success, Style::Success, color);
            push_package_prefix(&mut out, pkg, emoji);
            push_str(&mut out, " published ");
            push_str(&mut out, pkg.version.as_str());
            push_str(&mut out, " to ");
            push_str(&mut out, pkg.registry.as_str());
        },
        PublishProgressEvent::PackageFailed { package, message } => {
            push_lead(&mut out, symbols.step_failure, Style::Error, color);
            push_package_prefix(&mut out, package, emoji);
            push_str(&mut out, " failed: ");
            push_str(&mut out, message.as_str());
        },
        PublishProgressEvent::RunFinished { total, published, skipped, failed, .. } => {
            if *failed > 0 {
                push_lead(&mut out, symbols.step_failure, Style::Error, color);
            } else if *published > 0 {
                push_lead(&mut out, symbols.command_success, Style::Success, color);
            } else {
                push_lead(&mut out, symbols.bullet, Style::Muted, color);
            }
            push_str(&mut out, "Publish complete: ");
            push_run_counts(&mut out, *total, *published, *skipped, *failed);
        },
    }
    out
}

/// The name of the JSON event that reports a publish event.
pub open spec fn publish_event_name_text(e: PublishProgressEvent) -> Seq<char> {
    match e {
        PublishProgressEvent::RunStarted { .. } => "publish_run_started"@,
        PublishProgressEvent::RegistryCheckStarted(_) => "publish_registry_check_started"@,
        PublishProgressEvent::PackageStarted(_) => "publish_package_started"@,
        PublishProgressEvent::PackageSkipped { .. } => "publish_package_skipped"@,
        PublishProgressEvent::PackagePlanned(_) => "publish_package_planned"@,
        PublishProgressEvent::PackagePublished(_) => "publish_package_published"@,
        PublishProgressEvent::PackageFailed { .. } => "publish_package_failed"@,
        PublishProgressEvent::RunFinished { .. } => "publish_run_finished"@,
    }
}

/// The name of the JSON event that reports a publish event.
pub fn publish_event_name(event: &PublishProgressEvent) -> (r: &'static str)
    ensures
        r@ == publish_event_name_text(*event),
{
    match event {
        PublishProgressEvent::RunStarted { .. } => "publish_run_started",
        PublishProgressEvent::RegistryCheckStarted(_) => "publish_registry_check_started",
        PublishProgressEvent::PackageStarted(_) => "publish_package_started",
        PublishProgressEvent::PackageSkipped { .. } => "publish_package_skipped",
        PublishProgressEvent::PackagePlanned(_) => "publish_package_planned",
        PublishProgressEvent::PackagePublished(_) => "publish_package_published",
        PublishProgressEvent::PackageFailed { .. } => "publish_package_failed",
        PublishProgressEvent::RunFinished { .. } => "publish_run_finished",
    }
}

/// A registry check or a package upload: work that a spinner may show.
pub open spec fn is_publish_activity(e: PublishProgressEvent) -> bool {
    e is RegistryCheckStarted || e is PackageStarted
}

pub open spec fn report_trace(p: ProgressPresenter, e: PublishProgressEvent) -> PresenterTrace {
    if !p.enabled {
        initial(p)
    } else if p.json {
        json_op(initial(p), ProgressJsonEvent::Publish)
    } else {
        let line = publish_event_text(e, p.symbols, p.color, p.animate);
        if is_publish_activity(e) && p.animate {
            start_op(initial(p), line)
        } else {
            let t = if !is_publish_activity(e) { stop_op(initial(p)) } else { initial(p) };
            print_op(t, p.animate, line)
        }
    }
}

impl ProgressPresenter {
    /// A publish event: registry checks and uploads show as a spinner when
    /// animated; other events stop the spinner and print their line.
    pub fn report(&mut self, event: &PublishProgressEvent) -> (r: Vec<ProgressAction>)
        ensures
            trace_of(*final(self), r@) == report_trace(*old(self), *event),
            same_config(*old(self), *final(self)),
    {
        let mut acts: Vec<ProgressAction> = Vec::new();
        assert(action_models(acts@) =~= seq![]);
        if !self.enabled {
            return acts;
        }
        if self.json {
            self.json_event(&mut acts, ProgressJsonEvent::Publish);
            return acts;
        }
        let activity = match event {
            PublishProgressEvent::RegistryCheckStarted(_) | PublishProgressEvent::PackageStarted(_) => true,
            _ => false,
        };
        let line = render_publish_event(event, &self.symbols, self.color, self.animate);
        if activity && self.animate {
            self.start(&mut acts, line);
        } else {
            if !activity {
                self.stop(&mut acts);
            }
            self.print(&mut acts, line);
        }
        acts
    }
}

} // verus!
