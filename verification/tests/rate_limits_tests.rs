use ccline::input::{Input, RateLimitWindow, RateLimits, UsedPercentage};
use ccline::modules::rate_limits::{
    countdown, elapsed_in_window, format_weekly_date_at_offset, format_weekly_date_in_tz,
    now_epoch, render_session, weekly_color,
    render_weekly_reset, session_reset_with_now, weekly_reset_in_tz, weekly_with_now, WEEK_SECS,
};
use jiff::tz::TimeZone;

/// The largest window age in `0..=WEEK_SECS` up to which the weekly burn
/// pace of `used` is at least `pace` (0 when it never is). The pace falls
/// as the window ages, so a binary search finds the end of that prefix.
fn pace_through(used: f64, pace: f64) -> i64 {
    let ratio = |e: i64| used / (e as f64 / WEEK_SECS as f64 * 100.0);
    if !(ratio(1) >= pace) {
        return 0;
    }
    if ratio(WEEK_SECS) >= pace {
        return WEEK_SECS;
    }
    let (mut lo, mut hi) = (1i64, WEEK_SECS);
    while hi - lo > 1 {
        let mid = lo + (hi - lo) / 2;
        if ratio(mid) >= pace {
            lo = mid;
        } else {
            hi = mid;
        }
    }
    lo
}

/// A used share as the payload's float arrives.
fn used(p: f64) -> UsedPercentage {
    UsedPercentage {
        rounded: p.round() as i64,
        red_pace_through: pace_through(p, 1.5),
        yellow_pace_through: pace_through(p, 1.0),
    }
}

fn with_windows(five: Option<(f64, i64)>, seven: Option<(f64, i64)>) -> Input {
    Input {
        rate_limits: Some(RateLimits {
            five_hour: five.map(|(pct, reset)| RateLimitWindow {
                used_percentage: Some(used(pct)),
                resets_at: Some(reset),
            }),
            seven_day: seven.map(|(pct, reset)| RateLimitWindow {
                used_percentage: Some(used(pct)),
                resets_at: Some(reset),
            }),
        }),
        ..Default::default()
    }
}

#[test]
fn session_renders_rounded_percent() {
    let input = with_windows(Some((17.5, 0)), None);
    assert_eq!(render_session(&input), "18%");
}

#[test]
fn weekly_renders_rounded_percent() {
    let input = with_windows(None, Some((12.3, 0)));
    assert_eq!(weekly_with_now(&input, now_epoch()), "12%");
}

#[test]
fn session_falls_back_to_na_when_missing() {
    assert_eq!(render_session(&Input::default()), "N/A");
}

#[test]
fn weekly_falls_back_to_na_when_missing() {
    assert_eq!(weekly_with_now(&Input::default(), now_epoch()), "N/A");
}

#[test]
fn countdown_renders_hours_and_minutes() {
    assert_eq!(countdown(10_000, 3_640), "1h 46m");
}

#[test]
fn countdown_clamps_to_zero_when_already_past() {
    assert_eq!(countdown(100, 500), "0h 0m");
}

#[test]
fn session_reset_uses_injected_now() {
    let input = with_windows(Some((17.0, 11_000)), None);
    assert_eq!(session_reset_with_now(&input, 10_000), "0h 16m");
}

#[test]
fn session_reset_na_when_missing() {
    assert_eq!(session_reset_with_now(&Input::default(), 0), "N/A");
}

#[test]
fn weekly_reset_na_when_missing() {
    assert_eq!(render_weekly_reset(&Input::default()), "N/A");
}

const NOW: i64 = 1_700_000_000;
const DAY: i64 = 86_400;

fn weekly_window(used_pct: Option<f64>, resets_at: Option<i64>) -> Input {
    Input {
        rate_limits: Some(RateLimits {
            five_hour: None,
            seven_day: Some(RateLimitWindow {
                used_percentage: used_pct.map(used),
                resets_at,
            }),
        }),
        ..Default::default()
    }
}

fn weekly_at(used_pct: f64, elapsed: i64) -> Input {
    weekly_window(Some(used_pct), Some(NOW - elapsed + WEEK_SECS))
}

#[test]
fn weekly_uncolored_when_under_pace() {
    assert_eq!(weekly_with_now(&weekly_at(10.0, DAY), NOW), "10%");
}

#[test]
fn weekly_yellow_when_over_pace() {
    assert_eq!(
        weekly_with_now(&weekly_at(15.0, DAY), NOW),
        "\x1b[33m15%\x1b[0m"
    );
}

#[test]
fn weekly_red_when_far_over_pace() {
    assert_eq!(
        weekly_with_now(&weekly_at(22.0, DAY), NOW),
        "\x1b[31m22%\x1b[0m"
    );
}

#[test]
fn weekly_pace_boundaries_are_exact_at_half_window() {
    let half = WEEK_SECS / 2;
    assert_eq!(weekly_with_now(&weekly_at(49.0, half), NOW), "49%");
    assert_eq!(
        weekly_with_now(&weekly_at(50.0, half), NOW),
        "\x1b[33m50%\x1b[0m"
    );
    assert_eq!(
        weekly_with_now(&weekly_at(75.0, half), NOW),
        "\x1b[31m75%\x1b[0m"
    );
}

#[test]
fn weekly_uncolored_below_floor_despite_wild_ratio() {
    assert_eq!(weekly_with_now(&weekly_at(4.0, 3_600), NOW), "4%");
}

#[test]
fn weekly_colors_from_floor_upward() {
    assert_eq!(
        weekly_with_now(&weekly_at(5.0, 3_600), NOW),
        "\x1b[31m5%\x1b[0m"
    );
}

#[test]
fn weekly_floor_follows_rounded_value() {
    assert_eq!(
        weekly_with_now(&weekly_at(4.5, 3_600), NOW),
        "\x1b[31m5%\x1b[0m"
    );
}

#[test]
fn weekly_red_at_critical_even_when_under_pace() {
    assert_eq!(
        weekly_with_now(&weekly_at(92.0, WEEK_SECS * 13 / 14), NOW),
        "\x1b[31m92%\x1b[0m"
    );
}

#[test]
fn weekly_uncolored_when_resets_at_missing() {
    assert_eq!(
        weekly_with_now(&weekly_window(Some(50.0), None), NOW),
        "50%"
    );
}

#[test]
fn weekly_red_at_critical_without_resets_at() {
    assert_eq!(
        weekly_with_now(&weekly_window(Some(95.0), None), NOW),
        "\x1b[31m95%\x1b[0m"
    );
}

#[test]
fn weekly_uncolored_when_window_starts_in_the_future() {
    let input = weekly_window(Some(50.0), Some(NOW + WEEK_SECS + 3_600));
    assert_eq!(weekly_with_now(&input, NOW), "50%");
}

#[test]
fn weekly_clamps_elapsed_for_stale_payload() {
    let input = weekly_window(Some(60.0), Some(NOW - 3_600));
    assert_eq!(weekly_with_now(&input, NOW), "60%");
}

#[test]
fn weekly_na_stays_uncolored() {
    assert_eq!(weekly_with_now(&weekly_window(None, Some(NOW)), NOW), "N/A");
}

#[test]
fn weekly_negative_share_renders_with_sign() {
    assert_eq!(weekly_with_now(&weekly_window(Some(-3.0), None), NOW), "-3%");
}

#[test]
fn elapsed_in_window_clamps_and_refuses_future_starts() {
    assert_eq!(elapsed_in_window(NOW + WEEK_SECS - DAY, NOW), Some(DAY));
    assert_eq!(elapsed_in_window(NOW - 3_600, NOW), Some(WEEK_SECS));
    assert_eq!(elapsed_in_window(NOW + WEEK_SECS, NOW), None);
}

#[test]
fn format_weekly_date_renders_pm_case() {
    assert_eq!(
        format_weekly_date_in_tz(1_700_000_000, &TimeZone::UTC),
        Some("Tue 10:13PM".into())
    );
}

#[test]
fn format_weekly_date_renders_am_case() {
    assert_eq!(
        format_weekly_date_in_tz(1_700_035_200, &TimeZone::UTC),
        Some("Wed 8:00AM".into())
    );
}

#[test]
fn format_weekly_date_rejects_invalid_epoch() {
    assert_eq!(format_weekly_date_in_tz(i64::MAX, &TimeZone::UTC), None);
}

#[test]
fn format_weekly_date_accepts_range_ends() {
    assert!(format_weekly_date_in_tz(253_402_207_200, &TimeZone::UTC).is_some());
    assert!(format_weekly_date_in_tz(253_402_207_201, &TimeZone::UTC).is_none());
    assert!(format_weekly_date_in_tz(-377_705_023_201, &TimeZone::UTC).is_some());
    assert!(format_weekly_date_in_tz(-377_705_023_202, &TimeZone::UTC).is_none());
}

#[test]
fn weekly_reset_formats_in_given_zone() {
    let input = weekly_window(Some(10.0), Some(1_700_000_000));
    assert_eq!(weekly_reset_in_tz(&input, &TimeZone::UTC), "Tue 10:13PM");
}

#[test]
fn session_colors_by_absolute_usage() {
    assert_eq!(render_session(&with_windows(Some((64.0, 0)), None)), "64%");
    assert_eq!(
        render_session(&with_windows(Some((65.0, 0)), None)),
        "\x1b[33m65%\x1b[0m"
    );
    assert_eq!(
        render_session(&with_windows(Some((84.4, 0)), None)),
        "\x1b[33m84%\x1b[0m"
    );
    assert_eq!(
        render_session(&with_windows(Some((85.0, 0)), None)),
        "\x1b[31m85%\x1b[0m"
    );
}

#[test]
fn weekly_date_at_offset_reads_civil_time() {
    assert_eq!(format_weekly_date_at_offset(1_700_000_000, 0), Some("Tue 10:13PM".to_string()));
    // Five hours west of UTC.
    assert_eq!(format_weekly_date_at_offset(1_700_000_000, -18_000), Some("Tue 5:13PM".to_string()));
    // Two hours east crosses midnight into Wednesday.
    assert_eq!(format_weekly_date_at_offset(1_700_000_000, 7_200), Some("Wed 12:13AM".to_string()));
    // The second before the epoch was a Wednesday.
    assert_eq!(format_weekly_date_at_offset(-1, 0), Some("Wed 11:59PM".to_string()));
    assert_eq!(format_weekly_date_at_offset(0, 0), Some("Thu 12:00AM".to_string()));
}

#[test]
fn weekly_date_at_offset_rejects_out_of_range() {
    assert_eq!(format_weekly_date_at_offset(1_700_000_000, 93_599).is_some(), true);
    assert_eq!(format_weekly_date_at_offset(1_700_000_000, 93_600), None);
    assert_eq!(format_weekly_date_at_offset(1_700_000_000, -93_600), None);
    assert_eq!(format_weekly_date_at_offset(i64::MAX, 0), None);
}

#[test]
fn weekly_date_in_zone_follows_the_zone() {
    let tz = TimeZone::fixed(jiff::tz::offset(-5));
    assert_eq!(format_weekly_date_in_tz(1_700_000_000, &tz), Some("Tue 5:13PM".to_string()));
}

#[test]
fn weekly_color_never_milder_with_more_usage() {
    let resets_at = 1_000_000;
    let now = resets_at - WEEK_SECS + WEEK_SECS / 4;
    let rank = |c: Option<&str>| match c {
        None => 0,
        Some(c) if c == ccline::style::ANSI_YELLOW => 1,
        _ => 2,
    };
    let shares = [0.0, 4.0, 10.0, 20.0, 25.0, 30.0, 37.0, 40.0, 60.0, 89.0, 90.0, 100.0];
    for w in shares.windows(2) {
        let lo = weekly_color(used(w[0]), Some(resets_at), now);
        let hi = weekly_color(used(w[1]), Some(resets_at), now);
        assert!(rank(lo) <= rank(hi), "{} vs {}", w[0], w[1]);
    }
}
