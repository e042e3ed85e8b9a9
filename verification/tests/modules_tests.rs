use ccline::input::{ContextWindow, Cost, CurrentUsage, Input, Model, Workspace};
use ccline::modules::{cache, context, cost, duration, format_with_commas, model, project, tokens, version};
use ccline::style::{paint, ANSI_RED};

#[test]
fn formats_small_numbers_unchanged() {
    assert_eq!(format_with_commas(0), "0");
    assert_eq!(format_with_commas(999), "999");
}

#[test]
fn inserts_single_comma() {
    assert_eq!(format_with_commas(1000), "1,000");
    assert_eq!(format_with_commas(12345), "12,345");
}

#[test]
fn inserts_multiple_commas() {
    assert_eq!(format_with_commas(1_234_567), "1,234,567");
    assert_eq!(format_with_commas(12_345_678_901), "12,345,678,901");
}

#[test]
fn formats_largest_number() {
    assert_eq!(format_with_commas(u64::MAX), "18,446,744,073,709,551,615");
    assert_eq!(format_with_commas(100_000), "100,000");
}

#[test]
fn paint_wraps_body_in_code_and_reset() {
    assert_eq!(paint(Some(ANSI_RED), "75%".into()), "\x1b[31m75%\x1b[0m");
}

#[test]
fn paint_returns_body_untouched_when_no_code() {
    assert_eq!(paint(None, "42%".into()), "42%");
}

fn with_usage(read: u64, creation: u64, new_input: u64) -> Input {
    Input {
        context_window: Some(ContextWindow {
            current_usage: Some(CurrentUsage {
                input_tokens: Some(new_input),
                cache_read_input_tokens: Some(read),
                cache_creation_input_tokens: Some(creation),
            }),
            ..Default::default()
        }),
        ..Default::default()
    }
}

#[test]
fn renders_typical_hit_rate() {
    let input = with_usage(38_000, 5_800, 1_200);
    assert_eq!(cache::render(&input), "84% (38,000)");
}

#[test]
fn renders_zero_when_everything_missing() {
    assert_eq!(cache::render(&Input::default()), "0% (0)");
}

#[test]
fn renders_zero_pct_when_denominator_is_zero() {
    let input = with_usage(0, 0, 0);
    assert_eq!(cache::render(&input), "0% (0)");
}

#[test]
fn renders_hundred_percent_when_only_cache_read() {
    let input = with_usage(1_000, 0, 0);
    assert_eq!(cache::render(&input), "100% (1,000)");
}

#[test]
fn cache_overflow_is_refused() {
    assert!(cache::render_checked(&with_usage(u64::MAX, 1, 0)).is_none());
    assert!(cache::render_checked(&with_usage(u64::MAX / 10, 0, 0)).is_none());
}

/// The context share as the payload's float arrives: rounded half away
/// from zero to a whole percent.
fn with_context(pct: f64, size: u64) -> Input {
    Input {
        context_window: Some(ContextWindow {
            used_percentage: Some(pct.round() as u64),
            context_window_size: Some(size),
            ..Default::default()
        }),
        ..Default::default()
    }
}

#[test]
fn percent_rounds_half_up() {
    assert_eq!(context::render_percent(&with_context(17.3, 200_000)), "17%");
    assert_eq!(context::render_percent(&with_context(17.5, 200_000)), "18%");
    assert_eq!(context::render_percent(&with_context(28.000000000000004, 0)), "28%");
}

#[test]
fn percent_falls_back_to_zero() {
    assert_eq!(context::render_percent(&Input::default()), "0%");
}

#[test]
fn bar_renders_partial_fill() {
    let input = with_context(17.3, 200_000);
    assert_eq!(context::render_bar(&input), "█░░░░░░░░░ 17% (34k/200k)");
}

#[test]
fn bar_renders_empty_when_zero_percent() {
    let input = with_context(0.0, 200_000);
    assert_eq!(context::render_bar(&input), "░░░░░░░░░░ 0% (0k/200k)");
}

#[test]
fn bar_renders_full_at_hundred_percent() {
    let input = with_context(100.0, 200_000);
    assert_eq!(context::render_bar(&input), "██████████ 100% (200k/200k)");
}

#[test]
fn bar_clamps_above_hundred_percent() {
    let input = with_context(150.0, 200_000);
    let out = context::render_bar(&input);
    assert!(out.starts_with("██████████ 150%"));
}

#[test]
fn bar_falls_back_to_zero_when_missing() {
    assert_eq!(context::render_bar(&Input::default()), "░░░░░░░░░░ 0% (0k/0k)");
}

/// The cost as the payload's float arrives: written with two decimals.
fn with_usd(usd: f64) -> Input {
    Input {
        cost: Some(Cost {
            total_cost_usd: Some(format!("{usd:.2}")),
            total_duration_ms: None,
        }),
        ..Default::default()
    }
}

#[test]
fn renders_two_decimal_places() {
    assert_eq!(cost::render(&with_usd(1.79)), "$1.79");
}

#[test]
fn rounds_to_two_decimals() {
    assert_eq!(cost::render(&with_usd(1.7955)), "$1.80");
}

#[test]
fn pads_single_decimal() {
    assert_eq!(cost::render(&with_usd(0.5)), "$0.50");
}

#[test]
fn renders_zero_when_cost_missing() {
    assert_eq!(cost::render(&Input::default()), "$0.00");
}

fn with_ms(ms: u64) -> Input {
    Input {
        cost: Some(Cost {
            total_cost_usd: None,
            total_duration_ms: Some(ms),
        }),
        ..Default::default()
    }
}

#[test]
fn renders_minutes_and_seconds() {
    assert_eq!(duration::render(&with_ms(425_000)), "7m 5s");
}

#[test]
fn renders_sub_minute_as_seconds_only() {
    assert_eq!(duration::render(&with_ms(42_000)), "42s");
}

#[test]
fn duration_renders_zero_when_missing() {
    assert_eq!(duration::render(&Input::default()), "0s");
}

#[test]
fn drops_sub_second_remainder() {
    assert_eq!(duration::render(&with_ms(60_999)), "1m 0s");
}

#[test]
fn renders_hours_and_minutes_past_one_hour() {
    assert_eq!(duration::render(&with_ms(25_529_000)), "7h 5m");
}

#[test]
fn renders_exact_hour_boundary() {
    assert_eq!(duration::render(&with_ms(3_600_000)), "1h 0m");
}

#[test]
fn renders_days_and_hours_past_one_day() {
    assert_eq!(duration::render(&with_ms(183_600_000)), "2d 3h");
}

#[test]
fn renders_display_name() {
    let input = Input {
        model: Some(Model {
            display_name: Some("Opus 4.6".into()),
        }),
        ..Default::default()
    };
    assert_eq!(model::render(&input), "Opus 4.6");
}

#[test]
fn renders_empty_when_model_missing() {
    let input = Input::default();
    assert_eq!(model::render(&input), "");
}

#[test]
fn renders_empty_when_display_name_missing() {
    let input = Input {
        model: Some(Model { display_name: None }),
        ..Default::default()
    };
    assert_eq!(model::render(&input), "");
}

fn with_dir(dir: &str) -> Input {
    Input {
        workspace: Some(Workspace {
            project_dir: Some(dir.into()),
        }),
        ..Default::default()
    }
}

#[test]
fn renders_basename() {
    let input = with_dir("/Users/example/projects/code-statusline");
    assert_eq!(project::render(&input), "code-statusline");
}

#[test]
fn handles_trailing_slash() {
    let input = with_dir("/tmp/foo/");
    assert_eq!(project::render(&input), "foo");
}

#[test]
fn renders_empty_when_workspace_missing() {
    let input = Input::default();
    assert_eq!(project::render(&input), "");
}

#[test]
fn renders_empty_when_project_dir_missing() {
    let input = Input {
        workspace: Some(Workspace { project_dir: None }),
        ..Default::default()
    };
    assert_eq!(project::render(&input), "");
}

#[test]
fn project_renders_empty_for_root() {
    assert_eq!(project::render(&with_dir("/")), "");
    assert_eq!(project::render(&with_dir("")), "");
}

fn with_tokens(input_tokens: u64, output_tokens: u64) -> Input {
    Input {
        context_window: Some(ContextWindow {
            total_input_tokens: Some(input_tokens),
            total_output_tokens: Some(output_tokens),
            ..Default::default()
        }),
        ..Default::default()
    }
}

#[test]
fn renders_with_commas() {
    let input = with_tokens(1_234_567, 89_012);
    assert_eq!(tokens::render_in(&input), "1,234,567");
    assert_eq!(tokens::render_out(&input), "89,012");
}

#[test]
fn tokens_renders_zero_when_missing() {
    assert_eq!(tokens::render_in(&Input::default()), "0");
    assert_eq!(tokens::render_out(&Input::default()), "0");
}

#[test]
fn renders_prefixed_version() {
    let input = Input {
        version: Some("2.0.76".into()),
        ..Default::default()
    };
    assert_eq!(version::render(&input), "v2.0.76");
}

#[test]
fn renders_empty_when_missing() {
    let input = Input::default();
    assert_eq!(version::render(&input), "");
}

#[test]
fn context_percent_colors_by_pressure() {
    assert_eq!(context::render_percent(&with_context(64.4, 0)), "64%");
    assert_eq!(context::render_percent(&with_context(64.5, 0)), "\x1b[33m65%\x1b[0m");
    assert_eq!(context::render_percent(&with_context(74.0, 0)), "\x1b[33m74%\x1b[0m");
    assert_eq!(context::render_percent(&with_context(75.0, 0)), "\x1b[31m75%\x1b[0m");
}

#[test]
fn context_bar_stays_plain_under_pressure() {
    assert_eq!(
        context::render_bar(&with_context(80.0, 1_000_000)),
        "████████░░ 80% (800k/1000k)"
    );
}

#[test]
fn project_renders_empty_when_dir_ends_in_parent() {
    assert_eq!(project::render(&with_dir("a/..")), "");
    assert_eq!(project::render(&with_dir("/tmp/foo/..")), "");
}

#[test]
fn project_skips_current_dir_and_repeated_separators() {
    assert_eq!(project::render(&with_dir("./x/.")), "x");
    assert_eq!(project::render(&with_dir("foo.txt/.//")), "foo.txt");
    assert_eq!(project::render(&with_dir("/a//b")), "b");
    assert_eq!(project::render(&with_dir(".")), "");
    assert_eq!(project::render(&with_dir("./")), "");
}
