use monochange::terminal::{ProgressFormat, ProgressSettings, TerminalCapabilities, TerminalProbe};

fn probe() -> TerminalProbe {
    TerminalProbe {
        stdout_is_terminal: true,
        stderr_is_terminal: true,
        ci: false,
        term_is_dumb: false,
        no_color: false,
        no_progress: false,
    }
}

#[test]
fn terminal_capabilities_resolve_one_consistent_policy() {
    let settings = ProgressSettings { quiet: false, format: ProgressFormat::Auto, tracing_enabled: false };
    let interactive = TerminalCapabilities::resolve(settings, probe());
    assert!(interactive.stdout_is_terminal);
    assert!(interactive.stderr_is_terminal);
    assert!(!interactive.quiet);
    assert!(interactive.color);
    assert!(interactive.animate);
    assert!(interactive.progress_enabled);

    let redirected = TerminalCapabilities::resolve(settings, TerminalProbe { stderr_is_terminal: false, ..probe() });
    assert!(!redirected.color);
    assert!(!redirected.animate);
    assert!(redirected.progress_enabled);

    let ci = TerminalCapabilities::resolve(settings, TerminalProbe { ci: true, ..probe() });
    assert!(ci.color);
    assert!(!ci.animate);

    let tracing = TerminalCapabilities::resolve(
        ProgressSettings { quiet: false, format: ProgressFormat::Auto, tracing_enabled: true },
        probe(),
    );
    assert!(tracing.color);
    assert!(!tracing.animate);

    let disabled = TerminalCapabilities::resolve(settings, TerminalProbe { no_progress: true, ..probe() });
    assert!(!disabled.progress_enabled);
    assert!(!disabled.color);
    assert!(!disabled.animate);

    let quiet = TerminalCapabilities::resolve(ProgressSettings { quiet: true, ..settings }, probe());
    assert!(quiet.quiet);
}

#[test]
fn explicit_json_progress_never_uses_terminal_styling() {
    let capabilities = TerminalCapabilities::resolve(
        ProgressSettings { quiet: false, format: ProgressFormat::Json, tracing_enabled: false },
        probe(),
    );
    assert!(!capabilities.color);
    assert!(!capabilities.animate);
}

#[test]
fn progress_settings_parse_environment_independent_cli_values() {
    let args: Vec<String> = ["monochange", "--quiet", "--progress-format=ascii"].iter().map(|s| s.to_string()).collect();
    let settings = ProgressSettings::from_args(&args, None);
    assert!(settings.quiet);
    assert_eq!(settings.format, ProgressFormat::Ascii);
    assert!(!settings.tracing_enabled);

    let args: Vec<String> =
        ["monochange", "--progress-format", "json", "--log-level=debug"].iter().map(|s| s.to_string()).collect();
    let settings = ProgressSettings::from_args(&args, None);
    assert_eq!(settings.format, ProgressFormat::Json);
    assert!(settings.tracing_enabled);
}

#[test]
fn progress_format_parsing_covers_all_variants() {
    assert_eq!(ProgressFormat::parse("auto"), Some(ProgressFormat::Auto));
    assert_eq!(ProgressFormat::parse("unicode"), Some(ProgressFormat::Unicode));
    assert_eq!(ProgressFormat::parse("ascii"), Some(ProgressFormat::Ascii));
    assert_eq!(ProgressFormat::parse("json"), Some(ProgressFormat::Json));
    assert_eq!(ProgressFormat::parse("wat"), None);
}
