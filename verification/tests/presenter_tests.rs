use monochange::diagnostic::CliDiagnostic;
use monochange::error::MonochangeError;
use monochange::presenter::{
    ascii_symbols, publish_event_name, render_publish_event, unicode_symbols, CommandStream,
    EcosystemPresentation, ProgressAction, ProgressJsonEvent, ProgressPresenter, PublishProgressEvent,
    PublishProgressPackage, PublishRunMode, StepLabel,
};
use monochange::publish_json::{publish_event_json, JsonField};
use monochange::progress::{summary_count_line, Duration, StepPhaseTiming};
use monochange::terminal::{ProgressFormat, ProgressSettings, TerminalCapabilities, TerminalProbe};

fn capabilities(enabled: bool, color: bool, animate: bool) -> TerminalCapabilities {
    TerminalCapabilities {
        stdout_is_terminal: false,
        stderr_is_terminal: false,
        ci: true,
        quiet: !enabled,
        color,
        animate,
        progress_enabled: enabled,
    }
}

fn presenter(format: ProgressFormat, enabled: bool, color: bool, animate: bool) -> ProgressPresenter {
    ProgressPresenter::with_context("release".to_string(), false, 3, format, &capabilities(enabled, color, animate))
}

fn printed(actions: &[ProgressAction]) -> String {
    let mut out = String::new();
    for action in actions {
        if let ProgressAction::PrintLine(line) = action {
            out.push_str(line);
            out.push('\n');
        }
    }
    out
}

fn step(name: &str) -> StepLabel {
    StepLabel { display_name: name.to_string(), kind_name: "Command".to_string() }
}

fn publish_package() -> PublishProgressPackage {
    PublishProgressPackage {
        package_id: "cli".to_string(),
        package_name: "monochange".to_string(),
        ecosystem_emoji: "🦀".to_string(),
        ecosystem_label: "cargo".to_string(),
        version: "1.2.3".to_string(),
        registry: "crates.io".to_string(),
    }
}

#[test]
fn human_progress_covers_lint_counts_fixes_and_summary_wording() {
    let mut p = presenter(ProgressFormat::Auto, true, false, false);
    let mut output = String::new();
    output += &printed(&p.planning_started(&[]));
    output += &printed(&p.planning_started(&["cargo".to_string()]));
    output += &printed(&p.planning_started(&["cargo".to_string(), "changeset".to_string()]));
    output += &printed(&p.planning_finished());
    output += &printed(&p.suite_started("cargo", 1, 1));
    output += &printed(&p.suite_started("changeset", 2, 3));
    output += &printed(&p.suite_finished("cargo", 1, 0));
    output += &printed(&p.suite_finished("changeset", 2, 1));
    output += &printed(&p.fix_started(1));
    output += &printed(&p.fix_started(2));
    output += &printed(&p.fix_applied("Cargo.toml", "sorted dependencies"));
    output += &printed(&p.fix_finished(1));
    output += &printed(&p.fix_finished(2));
    output += &printed(&p.summary(0, 0, 0, false));
    output += &printed(&p.summary(1, 1, 1, false));
    output += &printed(&p.summary(2, 2, 2, true));

    assert!(output.contains("Running 1 lint suite\n"));
    assert!(output.contains("Running 2 lint suites\n"));
    assert!(output.contains("checking 1 file with 1 rule"));
    assert!(output.contains("checking 2 files with 3 rules"));
    assert!(output.contains("1 issue\n"));
    assert!(output.contains("2 issues (1 fixable)"));
    assert!(output.contains("Fixed 1 file\n"));
    assert!(output.contains("Fixed 2 files\n"));
    assert!(output.contains("can be auto-fixed"));
    assert!(output.contains("remain auto-fixable"));
    assert!(output.contains("  · Cargo.toml (sorted dependencies)\n"));
    assert_eq!(summary_count_line(0, 0, "x", "y"), None);
    assert_eq!(summary_count_line(1, 0, "x", "y"), Some("x 1 error".to_string()));
    assert_eq!(summary_count_line(0, 2, "x", "y"), Some("y 2 warnings".to_string()));
}

#[test]
fn steps_show_their_position_kind_skips_and_failures() {
    let mut p = presenter(ProgressFormat::Unicode, true, false, false);
    let announce = step("announce release");
    let first = printed(&p.step_skipped(0, &announce, None, None));
    assert_eq!(
        first,
        "monochange running `release`\n○ [1/3] announce release (Command) — skipped\n"
    );
    let second = printed(&p.step_skipped(0, &announce, Some("{{ false }}"), Some("condition is false")));
    assert_eq!(second, "○ [1/3] announce release (Command) — skipped (condition is false)\n");
    let third = printed(&p.step_skipped(0, &announce, Some("{{ false }}"), None));
    assert_eq!(third, "○ [1/3] announce release (Command) — skipped ({{ false }})\n");
    let failed = printed(&p.step_failed(1, &announce, Duration::from_millis(25), "boom\nagain"));
    assert_eq!(failed, "✖ [2/3] announce release (Command) 25ms\n  └─ boom\n  │ again\n");
    let command = printed(&p.command_failed(Duration::from_millis(30)));
    assert_eq!(command, "✖ `release` failed 30ms\n");
}

#[test]
fn a_step_named_after_its_kind_shows_the_name_once() {
    let p = presenter(ProgressFormat::Ascii, true, false, false);
    let same = StepLabel { display_name: "Command".to_string(), kind_name: "Command".to_string() };
    assert_eq!(p.step_message(2, &same), "[3/3] Command");
}

#[test]
fn finished_steps_list_their_longest_phases() {
    let mut p = presenter(ProgressFormat::Ascii, true, false, false);
    p.command_started = true;
    let timings = [
        StepPhaseTiming { label: "build release plan".to_string(), duration: Duration::from_millis(8) },
        StepPhaseTiming { label: "tiny".to_string(), duration: Duration::from_millis(1) },
    ];
    let output = printed(&p.step_finished(0, &step("announce release"), Duration::from_millis(12), &timings));
    assert_eq!(output, "+ [1/3] announce release (Command) 12ms\n  - build release plan 8ms\n");
}

#[test]
fn command_output_is_labelled_and_stripped_without_color() {
    let mut p = presenter(ProgressFormat::Unicode, true, false, false);
    p.command_started = true;
    let output = printed(&p.log_command_output(&step("format"), CommandStream::Stderr, "warn \u{1b}[33mline\u{1b}[0m\nnext"));
    assert_eq!(output, "  │ format\n  │   warn line\n  │   next\n");
    assert!(p.log_command_output(&step("format"), CommandStream::Stdout, "").is_empty());
}

#[test]
fn animated_activities_use_a_spinner_that_later_lines_clear() {
    let mut p = presenter(ProgressFormat::Unicode, true, false, true);
    let actions = p.phase_started("Loading configuration");
    assert!(matches!(actions.as_slice(), [ProgressAction::StartSpinner(m)] if m == "Loading configuration"));
    assert!(p.spinner_active);
    let warning = p.warning("careful");
    assert!(matches!(warning.as_slice(), [ProgressAction::PrintLine(l)] if l == "\r\u{1b}[2K\u{1b}[0mwarning: careful"));
    let finished = p.phase_finished("Loaded configuration", Duration::from_millis(4));
    assert!(matches!(finished.first(), Some(ProgressAction::StopSpinner)));
    assert!(!p.spinner_active);
    assert_eq!(printed(&finished), "✔ Loaded configuration 4ms\n");
    let (was_active, actions) = p.pause_spinner();
    assert!(!was_active);
    assert!(actions.is_empty());
}

#[test]
fn disabled_and_json_progress_print_nothing() {
    let mut quiet = presenter(ProgressFormat::Unicode, false, false, false);
    assert!(quiet.step_started(0, &step("x")).is_empty());
    assert!(quiet.warning("hidden").is_empty());
    let mut json = presenter(ProgressFormat::Json, true, false, false);
    let actions = json.step_started(0, &step("x"));
    assert!(matches!(
        actions.as_slice(),
        [ProgressAction::EmitJson(ProgressJsonEvent::CommandStarted), ProgressAction::EmitJson(ProgressJsonEvent::StepStarted)]
    ));
    let again = json.step_started(1, &step("y"));
    assert!(matches!(again.as_slice(), [ProgressAction::EmitJson(ProgressJsonEvent::StepStarted)]));
}

#[test]
fn publish_event_rendering_keeps_the_package_and_outcome_prominent() {
    assert_eq!(
        render_publish_event(&PublishProgressEvent::PackageStarted(publish_package()), &unicode_symbols(), false, false),
        "▶ 🦀 cargo monochange publishing 1.2.3 to crates.io"
    );
    // The spinner supplies the activity frame, so the message must not repeat it.
    assert_eq!(
        render_publish_event(&PublishProgressEvent::PackageStarted(publish_package()), &unicode_symbols(), false, true),
        "🦀 cargo monochange publishing 1.2.3 to crates.io"
    );
    assert_eq!(
        render_publish_event(
            &PublishProgressEvent::PackageFailed {
                package: publish_package(),
                message: "registry rejected package".to_string(),
            },
            &ascii_symbols(),
            false,
            false,
        ),
        "x cargo monochange failed: registry rejected package"
    );
}

#[test]
fn publish_activity_spins_when_animated_and_outcomes_stop_the_spinner() {
    let mut p = presenter(ProgressFormat::Unicode, true, false, true);
    let started = p.report(&PublishProgressEvent::PackageStarted(publish_package()));
    assert!(matches!(started.as_slice(), [ProgressAction::StartSpinner(_)]));
    let published = p.report(&PublishProgressEvent::PackagePublished(publish_package()));
    assert!(matches!(published.first(), Some(ProgressAction::StopSpinner)));
    assert_eq!(printed(&published), "✔ 🦀 cargo monochange published 1.2.3 to crates.io\n");
}

fn one_step_presenter(format: ProgressFormat, enabled: bool, color: bool, animate: bool) -> ProgressPresenter {
    ProgressPresenter::with_context("release".to_string(), false, 1, format, &capabilities(enabled, color, animate))
}

fn json_events(actions: &[ProgressAction]) -> usize {
    actions.iter().filter(|action| matches!(action, ProgressAction::EmitJson(_))).count()
}

#[test]
fn progress_format_parsing_and_renderer_selection_cover_all_variants() {
    assert_eq!(ProgressFormat::parse("auto"), Some(ProgressFormat::Auto));
    assert_eq!(ProgressFormat::parse("unicode"), Some(ProgressFormat::Unicode));
    assert_eq!(ProgressFormat::parse("ascii"), Some(ProgressFormat::Ascii));
    assert_eq!(ProgressFormat::parse("json"), Some(ProgressFormat::Json));
    assert_eq!(ProgressFormat::parse("wat"), None);

    let unicode = one_step_presenter(ProgressFormat::Unicode, true, false, false);
    assert!(unicode.enabled);
    assert!(!unicode.json);
    assert_eq!(unicode.symbols.command_success, unicode_symbols().command_success);

    let ascii = one_step_presenter(ProgressFormat::Ascii, true, false, false);
    assert!(ascii.enabled);
    assert!(!ascii.json);
    assert_eq!(ascii.symbols.command_success, ascii_symbols().command_success);

    let auto = one_step_presenter(ProgressFormat::Auto, true, false, false);
    assert!(auto.enabled);

    let quiet = one_step_presenter(ProgressFormat::Auto, false, false, false);
    assert!(!quiet.enabled);

    let json = one_step_presenter(ProgressFormat::Json, true, false, false);
    assert!(json.enabled);
    assert!(json.json);
    assert_eq!(json.symbols.command_success, ascii_symbols().command_success);
}

#[test]
fn progress_reporter_renders_skips_failures_and_stderr_output_when_enabled() {
    let mut p = one_step_presenter(ProgressFormat::Auto, true, false, false);
    let label = step("announce release");
    let mut output = String::new();
    output += &printed(&p.step_skipped(0, &label, None, None));
    output += &printed(&p.step_skipped(0, &label, Some("{{ false }}"), Some("condition is false")));
    output += &printed(&p.log_command_output(&label, CommandStream::Stderr, "warn line\n"));
    output += &printed(&p.step_failed(1, &label, Duration::from_millis(25), "boom\nagain"));
    output += &printed(&p.command_failed(Duration::from_millis(30)));
    assert!(output.contains("condition is false"));
    assert!(output.contains("warn line"));
    assert!(output.contains("boom"));
    assert!(output.contains("again"));
}

#[test]
fn progress_reporter_emits_json_skip_and_failure_events() {
    let mut p = one_step_presenter(ProgressFormat::Json, true, false, false);
    let label = step("announce release");
    let mut events = 0;
    events += json_events(&p.step_skipped(0, &label, Some("{{ false }}"), Some("condition is false")));
    events += json_events(&p.step_failed(1, &label, Duration::from_millis(25), "boom"));
    events += json_events(&p.command_failed(Duration::from_millis(30)));
    assert!(events >= 2);
}

#[test]
fn progress_reporter_updates_step_status_in_human_json_and_animated_modes() {
    let label = step("retarget release");
    let mut disabled = one_step_presenter(ProgressFormat::Auto, false, false, false);
    assert!(disabled.step_status(0, &label, "locating release record").is_empty());

    let mut human = one_step_presenter(ProgressFormat::Auto, true, false, false);
    assert!(printed(&human.step_status(0, &label, "planning retarget")).contains("planning retarget"));

    let mut json = one_step_presenter(ProgressFormat::Json, true, false, false);
    assert_eq!(json_events(&json.step_status(0, &label, "applying git ref and provider updates")), 1);

    let mut animated = one_step_presenter(ProgressFormat::Auto, true, false, true);
    let actions = animated.step_status(0, &label, "syncing provider metadata");
    assert!(actions.iter().any(|action| matches!(action, ProgressAction::StartSpinner(_))));
    assert!(animated.spinner_active);
    let (was_active, stop) = animated.pause_spinner();
    assert!(was_active);
    assert!(matches!(stop.as_slice(), [ProgressAction::StopSpinner]));
}

#[test]
fn command_output_renders_one_step_header_per_block() {
    let mut p = one_step_presenter(ProgressFormat::Auto, true, false, false);
    let label = step("format release files");
    let mut output = String::new();
    output += &printed(&p.log_command_output(&label, CommandStream::Stdout, "line one\n\nansi \u{1b}[33mwarning\u{1b}[0m\n"));
    output += &printed(&p.log_command_output(&label, CommandStream::Stderr, "warn line\n"));
    output += &printed(&p.step_status(0, &label, "still running"));
    output += &printed(&p.log_command_output(&label, CommandStream::Stdout, "line two"));
    assert_eq!(
        output,
        [
            "monochange running `release`\n",
            "  │ format release files\n",
            "  │   line one\n",
            "  │\n",
            "  │   ansi warning\n",
            "  │   warn line\n",
            "▶ [1/1] format release files (Command) — still running\n",
            "  │ format release files\n",
            "  │   line two\n",
        ]
        .concat()
    );
}

fn cargo() -> EcosystemPresentation {
    EcosystemPresentation { emoji: "🦀".to_string(), label: "cargo".to_string() }
}

fn npm() -> EcosystemPresentation {
    EcosystemPresentation { emoji: "📦".to_string(), label: "npm".to_string() }
}

fn json_event_name(event: &ProgressJsonEvent) -> &'static str {
    match event {
        ProgressJsonEvent::PhaseStarted => "phase_started",
        ProgressJsonEvent::PhaseFinished => "phase_finished",
        ProgressJsonEvent::PhaseFailed => "phase_failed",
        ProgressJsonEvent::Warning => "warning",
        ProgressJsonEvent::CommandStarted => "command_started",
        ProgressJsonEvent::CommandFinished => "command_finished",
        ProgressJsonEvent::CommandFailed => "command_failed",
        ProgressJsonEvent::StepStarted => "step_started",
        ProgressJsonEvent::StepSkipped => "step_skipped",
        ProgressJsonEvent::StepStatus => "step_status",
        ProgressJsonEvent::StepFinished => "step_finished",
        ProgressJsonEvent::StepFailed => "step_failed",
        ProgressJsonEvent::CommandOutput => "command_output",
        ProgressJsonEvent::LintPlanningStarted => "lint_planning_started",
        ProgressJsonEvent::LintPlanningFinished => "lint_planning_finished",
        ProgressJsonEvent::LintSuiteStarted => "lint_suite_started",
        ProgressJsonEvent::LintSuiteFinished => "lint_suite_finished",
        ProgressJsonEvent::LintFixStarted => "lint_fix_started",
        ProgressJsonEvent::LintFixApplied => "lint_fix_applied",
        ProgressJsonEvent::LintFixFinished => "lint_fix_finished",
        ProgressJsonEvent::LintSummary => "lint_summary",
        ProgressJsonEvent::Publish => "publish",
    }
}

fn json_names(actions: &[ProgressAction]) -> Vec<&'static str> {
    actions
        .iter()
        .filter_map(|action| match action {
            ProgressAction::EmitJson(event) => Some(json_event_name(event)),
            _ => None,
        })
        .collect()
}

#[test]
fn publish_rendering_and_json_cover_every_event_variant() {
    let events = [
        PublishProgressEvent::RunStarted { mode: PublishRunMode::Release, dry_run: false, total: 2, ecosystems: vec![cargo(), npm()] },
        PublishProgressEvent::RegistryCheckStarted(publish_package()),
        PublishProgressEvent::PackageStarted(publish_package()),
        PublishProgressEvent::PackageSkipped { package: publish_package(), message: "already exists".to_string() },
        PublishProgressEvent::PackagePlanned(publish_package()),
        PublishProgressEvent::PackagePublished(publish_package()),
        PublishProgressEvent::PackageFailed { package: publish_package(), message: "registry rejected package".to_string() },
        PublishProgressEvent::RunFinished { mode: PublishRunMode::Release, total: 2, published: 1, skipped: 0, failed: 1 },
    ];

    let rendered = events
        .iter()
        .map(|event| render_publish_event(event, &unicode_symbols(), false, false))
        .collect::<Vec<_>>();
    assert!(rendered[0].contains("across 🦀 cargo, 📦 npm"));
    assert_eq!(rendered[1], "▶ 🦀 cargo monochange checking 1.2.3 on crates.io");
    assert!(rendered[3].contains("already exists"));
    assert!(rendered[5].contains("published 1.2.3"));
    assert_eq!(rendered[7], "✖ Publish complete: 1 published, 1 failed");
    assert_eq!(
        render_publish_event(
            &PublishProgressEvent::RunFinished { mode: PublishRunMode::Release, total: 5, published: 1, skipped: 0, failed: 0 },
            &ascii_symbols(),
            false,
            false,
        ),
        "+ Publish complete: 1 published, 4 not attempted"
    );
    // Nothing published is a neutral outcome, not a success or a failure.
    assert_eq!(
        render_publish_event(
            &PublishProgressEvent::RunFinished { mode: PublishRunMode::Release, total: 3, published: 0, skipped: 3, failed: 0 },
            &unicode_symbols(),
            false,
            false,
        ),
        "· Publish complete: 0 published, 3 skipped"
    );
    assert_eq!(
        render_publish_event(
            &PublishProgressEvent::RunStarted { mode: PublishRunMode::Placeholder, dry_run: false, total: 1, ecosystems: Vec::new() },
            &unicode_symbols(),
            false,
            false,
        ),
        "▶ Publishing 1 package (Placeholder)"
    );
    let empty_run = render_publish_event(
        &PublishProgressEvent::RunStarted { mode: PublishRunMode::Placeholder, dry_run: true, total: 0, ecosystems: vec![npm()] },
        &ascii_symbols(),
        false,
        false,
    );
    assert_eq!(empty_run, "> Publishing 0 packages (Placeholder dry-run) across npm");

    let mut json = one_step_presenter(ProgressFormat::Json, true, false, false);
    let mut names = Vec::new();
    for event in events.iter() {
        let actions = json.report(event);
        for action in actions.iter() {
            if let ProgressAction::EmitJson(ProgressJsonEvent::Publish) = action {
                names.push(publish_event_name(event));
            }
        }
    }
    assert_eq!(
        names,
        [
            "publish_run_started",
            "publish_registry_check_started",
            "publish_package_started",
            "publish_package_skipped",
            "publish_package_planned",
            "publish_package_published",
            "publish_package_failed",
            "publish_run_finished",
        ]
    );
}

#[test]
fn nested_workflow_and_publish_events_share_complete_lines() {
    let mut p = one_step_presenter(ProgressFormat::Auto, true, false, false);
    let label = step("publish packages");
    let mut output = String::new();
    output += &printed(&p.step_started(0, &label));
    output += &printed(&p.report(&PublishProgressEvent::RunStarted {
        mode: PublishRunMode::Release,
        dry_run: true,
        total: 1,
        ecosystems: vec![cargo()],
    }));
    output += &printed(&p.report(&PublishProgressEvent::PackageStarted(publish_package())));
    output += &printed(&p.report(&PublishProgressEvent::PackagePlanned(publish_package())));
    output += &printed(&p.step_finished(
        0,
        &label,
        Duration::from_millis(10),
        &[StepPhaseTiming { label: "prepare registry request".to_string(), duration: Duration::from_millis(8) }],
    ));
    output += &printed(&p.command_finished(Duration::from_millis(12)));

    assert!(!output.contains('\r'));
    assert!(!output.contains('\u{1b}'));
    assert!(output.lines().any(|line| line.contains("[1/1] publish packages")));
    assert!(output.lines().any(|line| line.contains("Publishing 1 package (Release dry-run)")));
    assert!(output.lines().any(|line| line.contains("would publish 1.2.3")));
}

#[test]
fn progress_and_diagnostics_use_the_same_writer() {
    let mut p = one_step_presenter(ProgressFormat::Auto, true, false, false);
    let mut output = printed(&p.phase_started("Loading workspace configuration"));
    let diagnostic = CliDiagnostic::from_error(
        &MonochangeError::Config("missing package".to_string()),
        Some("monochange check"),
    );
    output += &diagnostic.render(false);
    output.push('\n');
    assert_eq!(
        output,
        "▶ Loading workspace configuration\nerror[config.invalid]: missing package\n  command: monochange check\n  help: Check `monochange.toml` and the command arguments, then rerun the command.\n",
    );
}

#[test]
fn json_view_sequences_lint_and_publish_events_from_the_same_reporter() {
    let mut p = one_step_presenter(ProgressFormat::Json, true, false, false);
    let lint = p.planning_started(&["cargo".to_string()]);
    let run = PublishProgressEvent::RunStarted { mode: PublishRunMode::Release, dry_run: true, total: 1, ecosystems: vec![cargo()] };
    let publish = p.report(&run);
    assert!(printed(&lint).is_empty());
    assert!(printed(&publish).is_empty());
    assert_eq!(json_names(&lint), ["lint_planning_started"]);
    assert_eq!(json_names(&publish), ["publish"]);
    assert_eq!(publish_event_name(&run), "publish_run_started");
}

#[test]
fn json_progress_covers_phases_warnings_command_output_and_lint_lifecycle() {
    let mut p = one_step_presenter(ProgressFormat::Json, true, false, false);
    let label = step("check workspace");
    let mut actions = Vec::new();
    actions.extend(p.phase_started("Loading configuration"));
    actions.extend(p.phase_finished("Loaded configuration", Duration::from_millis(4)));
    actions.extend(p.phase_failed("Validate configuration", Duration::from_millis(5)));
    actions.extend(p.warning("deprecated option"));
    actions.extend(p.log_command_output(&label, CommandStream::Stdout, "result"));
    actions.extend(p.log_command_output(&label, CommandStream::Stderr, "warning"));
    actions.extend(p.planning_started(&["cargo".to_string(), "changeset".to_string()]));
    actions.extend(p.planning_finished());
    actions.extend(p.suite_started("cargo", 2, 3));
    actions.extend(p.suite_finished("cargo", 1, 1));
    actions.extend(p.fix_started(2));
    actions.extend(p.fix_applied("Cargo.toml", "sorted dependencies"));
    actions.extend(p.fix_finished(1));
    actions.extend(p.summary(1, 2, 1, false));
    assert_eq!(
        json_names(&actions),
        [
            "phase_started",
            "phase_finished",
            "phase_failed",
            "warning",
            "command_output",
            "command_output",
            "lint_planning_started",
            "lint_planning_finished",
            "lint_suite_started",
            "lint_suite_finished",
            "lint_fix_started",
            "lint_fix_applied",
            "lint_fix_finished",
            "lint_summary",
        ]
    );
    assert!(printed(&actions).is_empty());
}

#[test]
fn progress_disabled_quiet_colored_and_animated_edges_are_safe() {
    let label = step("publish packages");
    let mut disabled = presenter(ProgressFormat::Unicode, false, false, false);
    let mut quiet = Vec::new();
    quiet.extend(disabled.phase_failed("phase", Duration::from_millis(0)));
    quiet.extend(disabled.log_command_output(&label, CommandStream::Stdout, "ignored"));
    quiet.extend(disabled.log_command_output(&label, CommandStream::Stdout, ""));
    quiet.extend(disabled.suite_started("cargo", 1, 1));
    quiet.extend(disabled.suite_finished("cargo", 0, 0));
    quiet.extend(disabled.fix_started(1));
    quiet.extend(disabled.fix_applied("file", "fix"));
    quiet.extend(disabled.fix_finished(1));
    quiet.extend(disabled.summary(1, 0, 0, false));
    quiet.extend(disabled.report(&PublishProgressEvent::PackageStarted(publish_package())));
    quiet.extend(disabled.warning("ignored"));
    assert!(quiet.is_empty());

    let mut colored = one_step_presenter(ProgressFormat::Auto, true, false, false);
    colored.color = true;
    let mut output = printed(&colored.phase_failed("Build", Duration::from_millis(1)));
    output += &printed(&colored.log_command_output(&label, CommandStream::Stdout, "\u{1b}[32mkept\u{1b}[0m"));
    assert!(output.contains("\u{1b}[32mkept"));

    let mut animated = presenter(ProgressFormat::Unicode, true, false, false);
    animated.animate = true;
    let mut actions = Vec::new();
    actions.extend(animated.suite_started("cargo", 1, 1));
    actions.extend(animated.suite_finished("cargo", 0, 0));
    actions.extend(animated.fix_started(1));
    actions.extend(animated.fix_finished(1));
    actions.extend(animated.report(&PublishProgressEvent::RegistryCheckStarted(publish_package())));
    actions.extend(animated.report(&PublishProgressEvent::PackagePlanned(publish_package())));
    assert!(!animated.spinner_active);
}

#[test]
fn every_progress_format_respects_the_progress_opt_out() {
    let probe = TerminalProbe {
        stdout_is_terminal: true,
        stderr_is_terminal: true,
        ci: false,
        term_is_dumb: false,
        no_color: false,
        no_progress: true,
    };
    for format in [ProgressFormat::Auto, ProgressFormat::Unicode, ProgressFormat::Ascii, ProgressFormat::Json] {
        let settings = ProgressSettings { quiet: false, format, tracing_enabled: false };
        let capabilities = TerminalCapabilities::resolve(settings, probe);
        let reporter = ProgressPresenter::with_context("release".to_string(), false, 1, format, &capabilities);
        assert!(!reporter.enabled);
    }
}

#[test]
fn publish_event_json_names_the_event_and_its_fields() {
    let run = publish_event_json(&PublishProgressEvent::RunStarted {
        mode: PublishRunMode::Release,
        dry_run: true,
        total: 2,
        ecosystems: vec![cargo(), npm()],
    });
    assert_eq!(run.name, "publish_run_started");
    let keys: Vec<&str> = run.fields.iter().map(|(k, _)| *k).collect();
    assert_eq!(keys, ["mode", "publish_dry_run", "total", "ecosystems"]);
    assert!(matches!(&run.fields[0].1, JsonField::Text(m) if m == "release"));
    assert!(matches!(&run.fields[2].1, JsonField::Count(2)));
    assert!(matches!(&run.fields[3].1, JsonField::Texts(v) if v == &vec!["cargo".to_string(), "npm".to_string()]));

    let failed = publish_event_json(&PublishProgressEvent::PackageFailed {
        package: publish_package(),
        message: "registry rejected package".to_string(),
    });
    assert_eq!(failed.name, "publish_package_failed");
    match &failed.fields[0].1 {
        JsonField::Object(o) => {
            assert_eq!(o[0], ("package_id", "cli".to_string()));
            assert_eq!(o[3], ("ecosystem", "cargo".to_string()));
        },
        _ => panic!("package object expected"),
    }
    assert!(matches!(&failed.fields[1].1, JsonField::Text(m) if m == "registry rejected package"));
}
