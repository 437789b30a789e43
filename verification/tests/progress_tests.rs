use monochange::progress::{
    duration_millis, format_duration, paint_text, render_spinner_tick, start_symbol,
    strip_terminal_controls, summarized_phase_timings, summary_count_line, Duration,
    StepPhaseTiming, Style,
};

#[test]
fn format_duration_and_paint_text_cover_terminal_styles() {
    assert_eq!(paint_text("plain", Style::Detail, false), "plain");
    assert_eq!(paint_text("accent", Style::Accent, true), "\u{1b}[36;1maccent\u{1b}[0m");
    assert_eq!(paint_text("success", Style::Success, true), "\u{1b}[32;1msuccess\u{1b}[0m");
    assert_eq!(paint_text("warn", Style::Warning, true), "\u{1b}[33;1mwarn\u{1b}[0m");
    assert_eq!(paint_text("error", Style::Error, true), "\u{1b}[31;1merror\u{1b}[0m");
    assert_eq!(paint_text("detail", Style::Detail, true), "\u{1b}[35mdetail\u{1b}[0m");
    assert_eq!(paint_text("header", Style::Header, true), "\u{1b}[37;1mheader\u{1b}[0m");
    assert_eq!(paint_text("muted", Style::Muted, true), "\u{1b}[2mmuted\u{1b}[0m");
    assert_eq!(format_duration(Duration::from_secs(61)), "61.0s");
    assert_eq!(format_duration(Duration::from_millis(1500)), "1.50s");
    assert_eq!(format_duration(Duration::from_micros(12)), "12µs");
}

#[test]
fn spinner_tick_renders_full_line_only_when_content_changes() {
    assert_eq!(
        render_spinner_tick("\u{2B8B}", "running command `x`", false, true),
        "\r\u{1b}[2K\u{1b}[0m\u{2B8B} running command `x`",
    );
    assert_eq!(render_spinner_tick("\u{2B99}", "running command `x`", false, false), "\r\u{2B99}");
    assert_eq!(
        render_spinner_tick("\u{2B8B}", "msg", true, true),
        "\r\u{1b}[2K\u{1b}[0m\u{1b}[36;1m\u{2B8B}\u{1b}[0m msg",
    );
    assert_eq!(render_spinner_tick("\u{2B99}", "msg", true, false), "\r\u{1b}[36;1m\u{2B99}\u{1b}[0m");
}

#[test]
fn redirected_subprocess_output_strips_terminal_controls() {
    assert_eq!(strip_terminal_controls("\x1b[33mwarning\x1b[0m\r"), "warning");
    assert_eq!(strip_terminal_controls("\x1b]0;secret title\x07visible"), "visible");
}

#[test]
fn terminal_control_stripping_ignores_incomplete_or_unknown_escape_sequences() {
    assert_eq!(strip_terminal_controls("a\u{1b}xb"), "ab");
    assert_eq!(strip_terminal_controls("a\u{1b}"), "a");
    assert_eq!(strip_terminal_controls("a\u{1b}]title\u{1b}\\b"), "ab");
}

#[test]
fn stripping_terminal_controls_twice_changes_nothing_more() {
    let inputs = ["\x1b[33mwarning\x1b[0m\r", "a\u{1b}]title\u{1b}\\b", "plain text", "a\u{1b}xb"];
    for input in inputs {
        let once = strip_terminal_controls(input);
        assert_eq!(strip_terminal_controls(&once), once);
    }
}

#[test]
fn format_duration_covers_each_unit() {
    assert_eq!(format_duration(Duration::from_nanos(999)), "0µs");
    assert_eq!(format_duration(Duration::from_millis(12)), "12ms");
    assert_eq!(format_duration(Duration::from_secs(2)), "2.00s");
    assert_eq!(format_duration(Duration::from_secs(600)), "600.0s");
}

#[test]
fn duration_millis_truncates_to_whole_milliseconds() {
    assert_eq!(duration_millis(Duration::from_micros(1999)), 1);
    assert_eq!(duration_millis(Duration::from_secs(3)), 3000);
}

#[test]
fn summary_count_line_pluralizes_and_joins_counts() {
    assert_eq!(summary_count_line(0, 0, "x", "!"), None);
    assert_eq!(summary_count_line(1, 0, "x", "!"), Some("x 1 error".to_string()));
    assert_eq!(summary_count_line(2, 1, "x", "!"), Some("x 2 errors, ! 1 warning".to_string()));
    assert_eq!(summary_count_line(0, 3, "x", "!"), Some("! 3 warnings".to_string()));
}

#[test]
fn start_symbol_depends_on_interactivity() {
    assert_ne!(start_symbol(true), start_symbol(false));
}

#[test]
fn summarized_phase_timings_keep_the_longest_phases_first() {
    let timings: Vec<StepPhaseTiming> = [("a", 10u64), ("b", 500), ("c", 300), ("d", 500)]
        .iter()
        .map(|(label, ms)| StepPhaseTiming { label: label.to_string(), duration: Duration::from_millis(*ms) })
        .collect();
    let summary = summarized_phase_timings(&timings);
    let labels: Vec<&str> = summary.iter().map(|t| t.label.as_str()).collect();
    assert!(labels.len() <= 5);
    assert_eq!(labels.first().copied(), Some("b"));
    assert!(labels.iter().position(|l| *l == "b") < labels.iter().position(|l| *l == "c"));
}

#[test]
fn seconds_show_the_float_value_rounded_as_float_formatting_rounds() {
    assert_eq!(format_duration(Duration::from_millis(1015)), "1.01s");
    assert_eq!(format_duration(Duration::from_millis(1125)), "1.12s");
    assert_eq!(format_duration(Duration::from_millis(60_050)), "60.0s");
    let mut x: u64 = 12345;
    for _ in 0..20000 {
        x = x.wrapping_mul(6364136223846793005).wrapping_add(1442695040888963407);
        let secs = ((x >> 11) % if x % 3 == 0 { u64::MAX } else if x % 3 == 1 { 100_000_000 } else { 100 }).max(1);
        let nanos = ((x >> 3) % 1_000_000_000) as u32;
        let float = std::time::Duration::new(secs, nanos).as_secs_f64();
        let expected = if secs >= 60 { format!("{float:.1}s") } else { format!("{float:.2}s") };
        let nanos_total = secs as u128 * 1_000_000_000 + nanos as u128;
        if nanos_total <= u64::MAX as u128 {
            assert_eq!(format_duration(Duration::from_nanos(nanos_total as u64)), expected);
        }
        let whole = std::time::Duration::from_secs(secs).as_secs_f64();
        let whole_expected = if secs >= 60 { format!("{whole:.1}s") } else { format!("{whole:.2}s") };
        assert_eq!(format_duration(Duration::from_secs(secs)), whole_expected);
    }
    for secs in 1..120u64 {
        for tenth in 0..100u64 {
            let millis = secs * 1000 + tenth * 10 + 5;
            let float = std::time::Duration::from_millis(millis).as_secs_f64();
            let expected = if secs >= 60 { format!("{float:.1}s") } else { format!("{float:.2}s") };
            assert_eq!(format_duration(Duration::from_millis(millis)), expected);
        }
    }
}
