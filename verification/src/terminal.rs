use vstd::prelude::*;

use crate::text::{chars_of, starts_with, str_eq, string_from_range, starts_with_str};

verus! {

broadcast use vstd::string::group_string_axioms;

/// How progress is rendered on stderr.
#[derive(Clone, Copy, Debug, PartialEq, Eq, Structural)]
pub enum ProgressFormat {
    Auto,
    Unicode,
    Ascii,
    Json,
}

/// The progress format a name selects, if it names one.
pub open spec fn parse_progress_format(value: Seq<char>) -> Option<ProgressFormat> {
    if value == "auto"@ {
        Some(ProgressFormat::Auto)
    } else if value == "unicode"@ {
        Some(ProgressFormat::Unicode)
    } else if value == "ascii"@ {
        Some(ProgressFormat::Ascii)
    } else if value == "json"@ {
        Some(ProgressFormat::Json)
    } else {
        None
    }
}

impl ProgressFormat {
    /// Parses `auto`, `unicode`, `ascii` or `json`.
    pub fn parse(value: &str) -> (r: Option<Self>)
        ensures
            r == parse_progress_format(value@),
    {
        if str_eq(value, "auto") {
            Some(ProgressFormat::Auto)
        } else if str_eq(value, "unicode") {
            Some(ProgressFormat::Unicode)
        } else if str_eq(value, "ascii") {
            Some(ProgressFormat::Ascii)
        } else if str_eq(value, "json") {
            Some(ProgressFormat::Json)
        } else {
            None
        }
    }
}

/// The progress options a command line asks for.
#[derive(Clone, Copy, Debug, PartialEq, Eq, Structural)]
pub struct ProgressSettings {
    pub quiet: bool,
    pub format: ProgressFormat,
    pub tracing_enabled: bool,
}

/// The argument asks for quiet output.
pub open spec fn is_quiet_flag(a: Seq<char>) -> bool {
    a == "--quiet"@ || a == "-q"@
}

/// The argument sets a log level.
pub open spec fn is_log_level_flag(a: Seq<char>) -> bool {
    a == "--log-level"@ || starts_with(a, "--log-level="@)
}

/// Some argument is `--quiet` or `-q`.
pub open spec fn args_quiet(args: Seq<Seq<char>>) -> bool {
    exists|i: int| 0 <= i < args.len() && #[trigger] is_quiet_flag(args[i])
}

/// Some argument is `--log-level` or starts with `--log-level=`.
pub open spec fn args_tracing(args: Seq<Seq<char>>) -> bool {
    exists|i: int| 0 <= i < args.len() && #[trigger] is_log_level_flag(args[i])
}

/// The format after reading `args` from left to right, starting at `current`:
/// `--progress-format VALUE` and `--progress-format=VALUE` select a known
/// format; an unknown value leaves the format as it was.
pub open spec fn scan_progress_format(args: Seq<Seq<char>>, current: ProgressFormat) -> ProgressFormat
    decreases args.len(),
{
    if args.len() == 0 {
        current
    } else if args[0] == "--progress-format"@ {
        if args.len() >= 2 {
            scan_progress_format(
                args.skip(2),
                match parse_progress_format(args[1]) {
                    Some(f) => f,
                    None => current,
                },
            )
        } else {
            current
        }
    } else if starts_with(args[0], "--progress-format="@) {
        scan_progress_format(
            args.skip(1),
            match parse_progress_format(args[0].skip("--progress-format="@.len() as int)) {
                Some(f) => f,
                None => current,
            },
        )
    } else {
        scan_progress_format(args.skip(1), current)
    }
}

/// The views of a list of strings.
pub open spec fn arg_views(args: Seq<String>) -> Seq<Seq<char>> {
    args.map_values(|a: String| a@)
}

impl ProgressSettings {
    /// Reads the progress options from the command-line arguments (those that
    /// are valid Unicode) and from the value of `MONOCHANGE_PROGRESS_FORMAT`,
    /// which the arguments override.
    pub fn from_args(args: &[String], env_format: Option<&str>) -> (r: Self)
        ensures
            r.quiet == args_quiet(arg_views(args@)),
            r.tracing_enabled == args_tracing(arg_views(args@)),
            r.format == scan_progress_format(
                arg_views(args@),
                match env_format {
                    Some(v) => match parse_progress_format(v@) {
                        Some(f) => f,
                        None => ProgressFormat::Auto,
                    },
                    None => ProgressFormat::Auto,
                },
            ),
    {
        let ghost av = arg_views(args@);
        let mut quiet = false;
        let mut tracing_enabled = false;
        let mut i: usize = 0;
        while i < args.len()
            invariant
                i <= args@.len(),
                av == arg_views(args@),
                quiet == exists|j: int| 0 <= j < i && #[trigger] is_quiet_flag(av[j]),
                tracing_enabled == exists|j: int| 0 <= j < i && #[trigger] is_log_level_flag(av[j]),
            decreases args@.len() - i,
        {
            let a = args[i].as_str();
            assert(av[i as int] == a@);
            assert(is_quiet_flag(av[i as int]) == (a@ == "--quiet"@ || a@ == "-q"@));
            assert(is_log_level_flag(av[i as int]) == (a@ == "--log-level"@ || starts_with(a@, "--log-level="@)));
            if str_eq(a, "--quiet") || str_eq(a, "-q") {
                quiet = true;
            }
            if str_eq(a, "--log-level") || starts_with_str(a, "--log-level=") {
                tracing_enabled = true;
            }
            i = i + 1;
        }
        let mut format = match env_format {
            Some(v) => match ProgressFormat::parse(v) {
                Some(f) => f,
                None => ProgressFormat::Auto,
            },
            None => ProgressFormat::Auto,
        };
        let ghost start = format;
        let mut k: usize = 0;
        assert(av.skip(0) =~= av);
        while k < args.len()
            invariant
                k <= args@.len(),
                av == arg_views(args@),
                scan_progress_format(av.skip(k as int), format) == scan_progress_format(av, start),
            decreases args@.len() - k,
        {
            let a = args[k].as_str();
            let ghost rest = av.skip(k as int);
            assert(rest[0] == a@);
            if str_eq(a, "--progress-format") {
                if k + 1 < args.len() {
                    assert(rest[1] == args@[k + 1]@);
                    assert(rest.skip(2) =~= av.skip(k + 2));
                    if let Some(value) = ProgressFormat::parse(args[k + 1].as_str()) {
                        format = value;
                    }
                    k = k + 2;
                } else {
                    assert(av.skip(args@.len() as int) =~= Seq::<Seq<char>>::empty());
                    k = args.len();
                }
                continue;
            }
            assert(rest.skip(1) =~= av.skip(k + 1));
            if starts_with_str(a, "--progress-format=") {
                let v = chars_of(a);
                let prefix_len = chars_of("--progress-format=").len();
                let value = string_from_range(v.as_slice(), prefix_len, v.len());
                if let Some(f) = ProgressFormat::parse(value.as_str()) {
                    format = f;
                }
            }
            k = k + 1;
        }
        assert(av.skip(args@.len() as int) =~= Seq::<Seq<char>>::empty());
        ProgressSettings { quiet, format, tracing_enabled }
    }
}

/// What the environment reports about the terminal.
#[derive(Clone, Copy, Debug, PartialEq, Eq, Structural)]
pub struct TerminalProbe {
    pub stdout_is_terminal: bool,
    pub stderr_is_terminal: bool,
    pub ci: bool,
    pub term_is_dumb: bool,
    pub no_color: bool,
    pub no_progress: bool,
}

/// How progress output behaves on this terminal.
#[derive(Clone, Copy, Debug, PartialEq, Eq, Structural)]
pub struct TerminalCapabilities {
    pub stdout_is_terminal: bool,
    pub stderr_is_terminal: bool,
    pub ci: bool,
    pub quiet: bool,
    pub color: bool,
    pub animate: bool,
    pub progress_enabled: bool,
}

impl TerminalCapabilities {
    /// Combines the requested settings with what the terminal supports:
    /// progress shows unless quiet or disabled; color and animation need a
    /// human format on a capable stderr terminal, with color also honouring
    /// `NO_COLOR` and animation also off in CI and while tracing.
    pub fn resolve(settings: ProgressSettings, probe: TerminalProbe) -> (r: Self)
        ensures
            r.stdout_is_terminal == probe.stdout_is_terminal,
            r.stderr_is_terminal == probe.stderr_is_terminal,
            r.ci == probe.ci,
            r.quiet == settings.quiet,
            r.progress_enabled == (!settings.quiet && !probe.no_progress),
            r.color == (r.progress_enabled && settings.format != ProgressFormat::Json
                && probe.stderr_is_terminal && !probe.term_is_dumb && !probe.no_color),
            r.animate == (r.progress_enabled && settings.format != ProgressFormat::Json
                && probe.stderr_is_terminal && !probe.term_is_dumb && !probe.ci
                && !settings.tracing_enabled),
    {
        let human = settings.format != ProgressFormat::Json;
        let progress_enabled = !settings.quiet && !probe.no_progress;
        let color = progress_enabled && human && probe.stderr_is_terminal && !probe.term_is_dumb
            && !probe.no_color;
        let animate = progress_enabled && human && probe.stderr_is_terminal && !probe.term_is_dumb
            && !probe.ci && !settings.tracing_enabled;
        TerminalCapabilities {
            stdout_is_terminal: probe.stdout_is_terminal,
            stderr_is_terminal: probe.stderr_is_terminal,
            ci: probe.ci,
            quiet: settings.quiet,
            color,
            animate,
            progress_enabled,
        }
    }
}

} // verus!
