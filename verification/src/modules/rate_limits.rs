//! `$session`, `$session_reset`, `$weekly` and `$weekly_reset`: the usage
//! rate-limit windows.
//!
//! `rate_limits.five_hour` feeds the session pair, `rate_limits.seven_day`
//! the weekly pair; each renders `N/A` when its field is missing.
//!
//! - `$session`, `$weekly`: the rounded used share and `%`. `$session`
//!   colors on absolute usage of the shown share: yellow from 65%, red
//!   from 85%.
//! - `$session_reset`: the countdown `Xh Ym` from now to `resets_at`.
//! - `$weekly_reset`: the reset instant in the system time zone, formatted
//!   by `jiff` as `Mon 3:00PM`.
//!
//! `$weekly` is colored by burn pace: spending the allowance evenly over
//! the seven days makes the budget at any moment the elapsed share of the
//! window. At 1.0x the budget it turns yellow, at 1.5x red. Below 5% shown
//! it is never colored (minutes into a window any use is a wild pace), from
//! 90% shown it is always red, and when the pace cannot be computed (no
//! reset time, or a window that starts in the future) it stays plain.
use vstd::prelude::*;

use jiff::tz::TimeZone;
use jiff::Timestamp;
use std::time::{SystemTime, SystemTimeError};

use crate::input::{Input, RateLimitWindow, UsedPercentage};
use crate::style::{paint, painted, threshold_code, threshold_color, ANSI_RED, ANSI_YELLOW};
use crate::text::{decimal, push_decimal, push_signed_decimal, signed_decimal};

verus! {

#[verifier::external_type_specification]
#[verifier::external_body]
pub struct ExTimestamp(Timestamp);

#[verifier::external_type_specification]
#[verifier::external_body]
pub struct ExTimeZone(TimeZone);

#[verifier::external_type_specification]
#[verifier::external_body]
pub struct ExJiffError(jiff::Error);

#[verifier::external_type_specification]
#[verifier::external_body]
pub struct ExSystemTime(SystemTime);

#[verifier::external_type_specification]
#[verifier::external_body]
pub struct ExSystemTimeError(SystemTimeError);

/// What a window with a missing field renders.
pub const NA: &'static str = "N/A";

/// The `strftime`-style format of `$weekly_reset`.
pub const WEEKLY_FMT: &'static str = "%a %-I:%M%p";

/// The length of the seven-day window in seconds. The payload carries only
/// `resets_at`; the window start is that minus this.
pub const WEEK_SECS: i64 = 604800;

/// Below this shown percentage `$weekly` is never colored.
pub const PACE_FLOOR_PCT: i64 = 5;

/// From this shown percentage on `$weekly` is always red.
pub const CRITICAL_PCT: i64 = 90;

/// From this shown percentage on `$session` is yellow.
pub const SESSION_YELLOW_PCT: i64 = 65;

/// From this shown percentage on `$session` is red.
pub const SESSION_RED_PCT: i64 = 85;

/// The earliest second that `jiff::Timestamp` represents.
pub const TIMESTAMP_MIN_SECOND: i64 = -377705023201;

/// The latest second that `jiff::Timestamp` represents.
pub const TIMESTAMP_MAX_SECOND: i64 = 253402207200;

/// The abbreviated English name of day `d` of the week, Sunday being 0.
pub open spec fn weekday_name(d: int) -> Seq<char> {
    if d == 0 {
        "Sun"@
    } else if d == 1 {
        "Mon"@
    } else if d == 2 {
        "Tue"@
    } else if d == 3 {
        "Wed"@
    } else if d == 4 {
        "Thu"@
    } else if d == 5 {
        "Fri"@
    } else {
        "Sat"@
    }
}

/// A number below 100 written with two digits.
pub open spec fn two_digits(n: nat) -> Seq<char> {
    seq![crate::text::digit_char(n / 10), crate::text::digit_char(n % 10)]
}

/// The text of a weekday, an hour on the twelve-hour clock, a minute and a
/// half of the day, as `%a %-I:%M%p` writes them.
pub open spec fn date_text(day: Seq<char>, hour: nat, minute: nat, pm: bool) -> Seq<char> {
    day + " "@ + decimal(hour) + ":"@ + two_digits(minute) + if pm {
        "PM"@
    } else {
        "AM"@
    }
}

/// Hour `h` of the day (0 to 23) on the twelve-hour clock.
pub open spec fn twelve_hour(h: int) -> nat {
    if h % 12 == 0 {
        12
    } else {
        (h % 12) as nat
    }
}

/// `%a %-I:%M%p` of the instant `epoch` (Unix seconds) read at `offset`
/// seconds east of UTC: the civil time is `epoch + offset` seconds after
/// 1970-01-01T00:00, a Thursday.
pub open spec fn reset_date_text(epoch: int, offset: int) -> Seq<char> {
    let local = epoch + offset;
    let secs = local % 86400;
    date_text(
        weekday_name((local / 86400 + 4) % 7),
        twelve_hour(secs / 3600),
        ((local % 3600) / 60) as nat,
        secs >= 43200,
    )
}

/// The span of offsets from UTC that jiff represents: -25:59:59 to
/// 25:59:59, in seconds.
pub open spec fn offset_in_range(offset: int) -> bool {
    -93599 <= offset <= 93599
}

/// Whether `s` is the date of `epoch` at some offset from UTC that jiff
/// represents: what a time zone, whose offset at that instant is not known
/// here, can show.
pub open spec fn date_in_some_zone(epoch: int, s: Seq<char>) -> bool {
    exists|offset: int| offset_in_range(offset) && #[trigger] reset_date_text(epoch, offset) == s
}

/// Whether jiff represents the Unix second `epoch`.
pub open spec fn epoch_in_range(epoch: int) -> bool {
    TIMESTAMP_MIN_SECOND <= epoch <= TIMESTAMP_MAX_SECOND
}

/// Whether jiff represents both the Unix second `epoch` and the offset.
pub open spec fn civil_in_range(epoch: int, offset: int) -> bool {
    epoch_in_range(epoch) && offset_in_range(offset)
}

/// Wraps `jiff::Timestamp::from_second`, which jiff documents to fail
/// exactly when the second lies outside `Timestamp::MIN..=Timestamp::MAX`
/// (in its source, the Unix-second bounds below).
#[verifier::external_body]
fn timestamp_from_second(second: i64) -> (res: Result<Timestamp, jiff::Error>)
    ensures
        res is Ok <==> epoch_in_range(second as int),
{
    Timestamp::from_second(second)
}

/// Wraps `jiff::tz::TimeZone::to_offset`: the zone's offset from UTC at the
/// instant `ts`, in seconds (`Offset::seconds`). jiff documents every offset
/// to lie within -93599..=93599 seconds, with civil time minus offset
/// being UTC. Which offset a zone has is not claimed: the zone is opaque.
#[verifier::external_body]
fn zone_offset_seconds(tz: &TimeZone, ts: Timestamp) -> (offset: i32)
    ensures
        offset_in_range(offset as int),
{
    tz.to_offset(ts).seconds()
}

/// Wraps `jiff::fmt::strtime::format` on the civil time of the Unix second
/// `second` at `offset` seconds east of UTC, built with
/// `Timestamp::from_second`, `Offset::from_seconds` and `Offset::to_datetime`
/// (as `Timestamp::to_zoned` builds it). Building fails exactly when the
/// second or the offset lies outside jiff's range. For the weekly format the
/// claim is that formatting then succeeds and writes the abbreviated English
/// weekday, a space, the unpadded twelve-hour hour, a colon, the zero-padded
/// minute and `AM` (hours 0 to 11) or `PM`: `reset_date_text`. Of other
/// formats nothing more is claimed.
#[verifier::external_body]
fn strtime_format_at(fmt: &str, second: i64, offset: i32) -> (res: Result<String, jiff::Error>)
    ensures
        fmt@ == WEEKLY_FMT@ ==> (res is Ok <==> civil_in_range(second as int, offset as int)),
        fmt@ == WEEKLY_FMT@ ==> (res matches Ok(s) ==> s@ == reset_date_text(second as int, offset as int)),
{
    let ts = Timestamp::from_second(second)?;
    let off = jiff::tz::Offset::from_seconds(offset)?;
    jiff::fmt::strtime::format(fmt, off.to_datetime(ts))
}

/// Wraps `jiff::tz::TimeZone::system`, which reads the system's time zone
/// setting; nothing can be claimed of what it finds.
#[verifier::external_body]
fn system_time_zone() -> TimeZone {
    TimeZone::system()
}

/// Wraps `std::time::SystemTime::now`, the system clock; nothing can be
/// claimed of what it reads.
#[verifier::external_body]
fn system_time_now() -> SystemTime {
    SystemTime::now()
}

/// Wraps `SystemTime::duration_since` against the Unix epoch, which fails
/// when the time lies before the epoch. The time is opaque here, so nothing
/// is claimed.
#[verifier::external_body]
fn since_unix_epoch(t: SystemTime) -> Result<std::time::Duration, SystemTimeError> {
    t.duration_since(std::time::UNIX_EPOCH)
}

/// Wraps `Duration::as_secs`, the whole seconds of the duration, which is
/// opaque here, so nothing is claimed.
#[verifier::external_body]
fn duration_secs(d: &std::time::Duration) -> u64 {
    d.as_secs()
}

/// The current Unix time in seconds (0 when the clock reads before the
/// epoch). The clock decides the value, so nothing is claimed of it.
pub fn now_epoch() -> i64 {
    match since_unix_epoch(system_time_now()) {
        Ok(d) => duration_secs(&d) as i64,
        Err(_) => 0,
    }
}

/// Formats `epoch` as `Mon 3:00PM` at `offset` seconds east of UTC;
/// `None` when jiff cannot represent the instant or the offset.
pub fn format_weekly_date_at_offset(epoch: i64, offset: i32) -> (res: Option<String>)
    ensures
        res is Some <==> civil_in_range(epoch as int, offset as int),
        res matches Some(s) ==> s@ == reset_date_text(epoch as int, offset as int),
{
    match strtime_format_at(WEEKLY_FMT, epoch, offset) {
        Ok(s) => Some(s),
        Err(_) => None,
    }
}

/// Formats `epoch` as `Mon 3:00PM` in the time zone `tz`, at the zone's
/// offset at that instant; `None` when jiff cannot represent the instant.
pub fn format_weekly_date_in_tz(epoch: i64, tz: &TimeZone) -> (res: Option<String>)
    ensures
        res is Some <==> epoch_in_range(epoch as int),
        res matches Some(s) ==> date_in_some_zone(epoch as int, s@),
{
    let ts = match timestamp_from_second(epoch) {
        Ok(ts) => ts,
        Err(_) => return None,
    };
    let offset = zone_offset_seconds(tz, ts);
    let res = format_weekly_date_at_offset(epoch, offset);
    proof {
        if res is Some {
            assert(reset_date_text(epoch as int, offset as int) == res->0@);
        }
    }
    res
}

/// Formats `epoch` as `Mon 3:00PM` in the system time zone.
pub fn format_weekly_date(epoch: i64) -> (res: Option<String>)
    ensures
        res is Some <==> epoch_in_range(epoch as int),
        res matches Some(s) ==> date_in_some_zone(epoch as int, s@),
{
    let tz = system_time_zone();
    format_weekly_date_in_tz(epoch, &tz)
}

/// The five-hour window, if the payload has it.
pub open spec fn five_hour(input: Input) -> Option<RateLimitWindow> {
    match input.rate_limits {
        Some(r) => r.five_hour,
        None => None,
    }
}

/// The seven-day window, if the payload has it.
pub open spec fn seven_day(input: Input) -> Option<RateLimitWindow> {
    match input.rate_limits {
        Some(r) => r.seven_day,
        None => None,
    }
}

/// The used share of a window, if there is one.
pub open spec fn usage_of(w: Option<RateLimitWindow>) -> Option<UsedPercentage> {
    match w {
        Some(w) => w.used_percentage,
        None => None,
    }
}

/// The reset time of a window, if there is one.
pub open spec fn resets_of(w: Option<RateLimitWindow>) -> Option<i64> {
    match w {
        Some(w) => w.resets_at,
        None => None,
    }
}

/// The rounded share and `%`, colored by absolute usage, or `N/A`.
pub open spec fn percent_text(w: Option<RateLimitWindow>) -> Seq<char> {
    match usage_of(w) {
        Some(u) => painted(
            threshold_code(u.rounded as int, SESSION_YELLOW_PCT as int, SESSION_RED_PCT as int),
            signed_decimal(u.rounded as int) + "%"@,
        ),
        None => NA@,
    }
}

/// Whether `resets_at - now` stays within `i64`.
pub open spec fn countdown_fits(resets_at: i64, now: i64) -> bool {
    i64::MIN <= resets_at - now <= i64::MAX
}

/// The time left until `resets_at`, as `Xh Ym` (zero once it has passed).
pub open spec fn countdown_text(resets_at: int, now: int) -> Seq<char> {
    let diff = if resets_at - now > 0 {
        resets_at - now
    } else {
        0
    };
    decimal((diff / 3600) as nat) + "h "@ + decimal((diff % 3600 / 60) as nat) + "m"@
}

/// Whether the countdown of `$session_reset` stays within `i64`.
pub open spec fn session_reset_fits(input: Input, now: i64) -> bool {
    match resets_of(five_hour(input)) {
        Some(r) => countdown_fits(r, now),
        None => true,
    }
}

/// The rendered `$session_reset`.
pub open spec fn session_reset_text(input: Input, now: i64) -> Seq<char> {
    match resets_of(five_hour(input)) {
        Some(r) => countdown_text(r as int, now as int),
        None => NA@,
    }
}

/// The seconds since a seven-day window that resets at `resets_at` opened,
/// at most a whole window; none when it opens in the future.
pub open spec fn elapsed(resets_at: int, now: int) -> Option<int> {
    let e = now - (resets_at - WEEK_SECS);
    if e > 0 {
        Some(if e < WEEK_SECS { e } else { WEEK_SECS as int })
    } else {
        None
    }
}

/// Whether computing the elapsed time stays within `i64`.
pub open spec fn elapsed_fits(resets_at: i64, now: i64) -> bool {
    &&& i64::MIN <= resets_at - WEEK_SECS
    &&& now - (resets_at - WEEK_SECS) <= i64::MAX
    &&& i64::MIN <= now - (resets_at - WEEK_SECS)
}

/// The color band of `$weekly`.
pub enum Pace {
    Plain,
    Yellow,
    Red,
}

/// The band of a seven-day window: plain below the floor, red from the
/// critical share, and otherwise by burn pace once the window is open.
pub open spec fn weekly_pace(u: UsedPercentage, resets_at: Option<i64>, now: i64) -> Pace {
    if u.rounded < PACE_FLOOR_PCT {
        Pace::Plain
    } else if u.rounded >= CRITICAL_PCT {
        Pace::Red
    } else {
        match resets_at {
            None => Pace::Plain,
            Some(r) => match elapsed(r as int, now as int) {
                None => Pace::Plain,
                Some(e) => if e <= u.red_pace_through {
                    Pace::Red
                } else if e <= u.yellow_pace_through {
                    Pace::Yellow
                } else {
                    Pace::Plain
                },
            },
        }
    }
}

/// The ANSI code of a band.
pub open spec fn pace_code(p: Pace) -> Option<&'static str> {
    match p {
        Pace::Plain => None,
        Pace::Yellow => Some(ANSI_YELLOW),
        Pace::Red => Some(ANSI_RED),
    }
}

/// Whether the pace of `$weekly` is computed within `i64`: it is only
/// computed between the floor and the critical share with a reset time.
pub open spec fn weekly_fits(input: Input, now: i64) -> bool {
    match (usage_of(seven_day(input)), resets_of(seven_day(input))) {
        (Some(u), Some(r)) => (PACE_FLOOR_PCT <= u.rounded < CRITICAL_PCT) ==> elapsed_fits(r, now),
        _ => true,
    }
}

/// The rendered `$weekly`: the shown share colored by its band, or `N/A`.
pub open spec fn weekly_text(input: Input, now: i64) -> Seq<char> {
    match usage_of(seven_day(input)) {
        Some(u) => painted(
            pace_code(weekly_pace(u, resets_of(seven_day(input)), now)),
            signed_decimal(u.rounded as int) + "%"@,
        ),
        None => NA@,
    }
}

/// What `$weekly_reset` may render: `N/A` without a reset time or for one
/// that jiff cannot represent, otherwise the reset instant's date as the
/// zone shows it, like `Tue 10:13PM`.
pub open spec fn weekly_reset_outcome(input: Input, text: Seq<char>) -> bool {
    match resets_of(seven_day(input)) {
        Some(r) => if epoch_in_range(r as int) {
            date_in_some_zone(r as int, text)
        } else {
            text == NA@
        },
        None => text == NA@,
    }
}

fn five_hour_window(input: &Input) -> (res: Option<&RateLimitWindow>)
    ensures
        match res {
            Some(w) => five_hour(*input) == Some(*w),
            None => five_hour(*input) is None,
        },
{
    match &input.rate_limits {
        Some(r) => match &r.five_hour {
            Some(w) => Some(w),
            None => None,
        },
        None => None,
    }
}

fn seven_day_window(input: &Input) -> (res: Option<&RateLimitWindow>)
    ensures
        match res {
            Some(w) => seven_day(*input) == Some(*w),
            None => seven_day(*input) is None,
        },
{
    match &input.rate_limits {
        Some(r) => match &r.seven_day {
            Some(w) => Some(w),
            None => None,
        },
        None => None,
    }
}

fn window_usage(w: Option<&RateLimitWindow>) -> (res: Option<UsedPercentage>)
    ensures
        res == usage_of(
            match w {
                Some(w) => Some(*w),
                None => None,
            },
        ),
{
    match w {
        Some(w) => w.used_percentage,
        None => None,
    }
}

fn window_resets(w: Option<&RateLimitWindow>) -> (res: Option<i64>)
    ensures
        res == resets_of(
            match w {
                Some(w) => Some(*w),
                None => None,
            },
        ),
{
    match w {
        Some(w) => w.resets_at,
        None => None,
    }
}

/// The shown percentage of a window, colored by absolute usage, or `N/A`.
fn percent_or_na(window: Option<&RateLimitWindow>) -> (res: String)
    ensures
        res@ == percent_text(
            match window {
                Some(w) => Some(*w),
                None => None,
            },
        ),
{
    match window_usage(window) {
        Some(u) => {
            let mut s = String::new();
            push_signed_decimal(&mut s, u.rounded);
            s.append("%");
            let code = threshold_color(
                u.rounded as i128,
                SESSION_YELLOW_PCT as i128,
                SESSION_RED_PCT as i128,
            );
            paint(code, s)
        },
        None => String::from_str(NA),
    }
}

/// The countdown from `now` to `resets_at`, as `Xh Ym`.
pub fn countdown(resets_at: i64, now: i64) -> (res: String)
    requires
        countdown_fits(resets_at, now),
    ensures
        res@ == countdown_text(resets_at as int, now as int),
{
    let d = resets_at - now;
    let diff: u64 = if d > 0 {
        d as u64
    } else {
        0
    };
    let hours = diff / 3600;
    let minutes = (diff % 3600) / 60;
    let mut s = String::new();
    push_decimal(&mut s, hours);
    s.append("h ");
    push_decimal(&mut s, minutes);
    s.append("m");
    s
}

/// Seconds elapsed since the seven-day window opened, clamped to one
/// window; `None` while its start is in the future.
pub fn elapsed_in_window(resets_at: i64, now: i64) -> (res: Option<i64>)
    requires
        elapsed_fits(resets_at, now),
    ensures
        match res {
            Some(e) => elapsed(resets_at as int, now as int) == Some(e as int),
            None => elapsed(resets_at as int, now as int) is None,
        },
{
    let e = now - (resets_at - WEEK_SECS);
    if e > 0 {
        Some(
            if e < WEEK_SECS {
                e
            } else {
                WEEK_SECS
            },
        )
    } else {
        None
    }
}

/// Whether `elapsed_in_window` stays within `i64` for these arguments.
fn elapsed_fits_check(resets_at: i64, now: i64) -> (res: bool)
    ensures
        res == elapsed_fits(resets_at, now),
{
    match resets_at.checked_sub(WEEK_SECS) {
        Some(start) => now.checked_sub(start).is_some(),
        None => false,
    }
}

/// The ANSI code for the band of `$weekly`, or `None` for plain text.
pub fn weekly_color(used: UsedPercentage, resets_at: Option<i64>, now: i64) -> (res: Option<
    &'static str,
>)
    requires
        (PACE_FLOOR_PCT <= used.rounded < CRITICAL_PCT && resets_at is Some) ==> elapsed_fits(
            resets_at->0,
            now,
        ),
    ensures
        res == pace_code(weekly_pace(used, resets_at, now)),
{
    if used.rounded < PACE_FLOOR_PCT {
        return None;
    }
    if used.rounded >= CRITICAL_PCT {
        return Some(ANSI_RED);
    }
    let r = match resets_at {
        Some(r) => r,
        None => return None,
    };
    let e = match elapsed_in_window(r, now) {
        Some(e) => e,
        None => return None,
    };
    if e <= used.red_pace_through {
        Some(ANSI_RED)
    } else if e <= used.yellow_pace_through {
        Some(ANSI_YELLOW)
    } else {
        None
    }
}

/// Renders `$session`.
pub fn render_session(input: &Input) -> (res: String)
    ensures
        res@ == percent_text(five_hour(*input)),
{
    percent_or_na(five_hour_window(input))
}

/// Renders `$weekly` at Unix time `now`.
pub fn weekly_with_now(input: &Input, now: i64) -> (res: String)
    requires
        weekly_fits(*input, now),
    ensures
        res@ == weekly_text(*input, now),
{
    let window = seven_day_window(input);
    let used = match window_usage(window) {
        Some(u) => u,
        None => return String::from_str(NA),
    };
    let color = weekly_color(used, window_resets(window), now);
    let mut body = String::new();
    push_signed_decimal(&mut body, used.rounded);
    body.append("%");
    paint(color, body)
}

/// Whether rendering `$weekly` at `now` stays within `i64`.
pub fn weekly_fits_check(input: &Input, now: i64) -> (res: bool)
    ensures
        res == weekly_fits(*input, now),
{
    let window = seven_day_window(input);
    match (window_usage(window), window_resets(window)) {
        (Some(u), Some(r)) => if PACE_FLOOR_PCT <= u.rounded && u.rounded < CRITICAL_PCT {
            elapsed_fits_check(r, now)
        } else {
            true
        },
        _ => true,
    }
}

/// Renders `$session_reset` at Unix time `now`.
pub fn session_reset_with_now(input: &Input, now: i64) -> (res: String)
    requires
        session_reset_fits(*input, now),
    ensures
        res@ == session_reset_text(*input, now),
{
    match window_resets(five_hour_window(input)) {
        Some(r) => countdown(r, now),
        None => String::from_str(NA),
    }
}

/// Whether rendering `$session_reset` at `now` stays within `i64`.
pub fn session_reset_fits_check(input: &Input, now: i64) -> (res: bool)
    ensures
        res == session_reset_fits(*input, now),
{
    match window_resets(five_hour_window(input)) {
        Some(r) => r.checked_sub(now).is_some(),
        None => true,
    }
}

/// Renders `$weekly_reset` in the time zone `tz`.
pub fn weekly_reset_in_tz(input: &Input, tz: &TimeZone) -> (res: String)
    ensures
        weekly_reset_outcome(*input, res@),
{
    match window_resets(seven_day_window(input)) {
        Some(r) => match format_weekly_date_in_tz(r, tz) {
            Some(s) => s,
            None => String::from_str(NA),
        },
        None => String::from_str(NA),
    }
}

/// Renders `$weekly_reset` in the system time zone.
pub fn render_weekly_reset(input: &Input) -> (res: String)
    ensures
        weekly_reset_outcome(*input, res@),
{
    match window_resets(seven_day_window(input)) {
        Some(r) => match format_weekly_date(r) {
            Some(s) => s,
            None => String::from_str(NA),
        },
        None => String::from_str(NA),
    }
}

/// Law: the guards of the weekly pace. Below 5% shown it is never colored;
/// from 90% shown it is always red, with or without a reset time; between
/// the two it is plain whenever the pace cannot be computed (no reset
/// time, or a window that opens in the future).
pub proof fn law_weekly_guards(u: UsedPercentage, resets_at: Option<i64>, now: i64)
    ensures
        u.rounded < PACE_FLOOR_PCT ==> weekly_pace(u, resets_at, now) == Pace::Plain,
        u.rounded >= CRITICAL_PCT ==> weekly_pace(u, resets_at, now) == Pace::Red,
        (u.rounded < CRITICAL_PCT && resets_at is None) ==> weekly_pace(u, resets_at, now)
            == Pace::Plain,
        (u.rounded < CRITICAL_PCT && resets_at is Some && elapsed(resets_at->0 as int, now as int)
            is None) ==> weekly_pace(u, resets_at, now) == Pace::Plain,
{
}

/// The rank of a band: plain below yellow below red.
pub open spec fn pace_rank(p: Pace) -> int {
    match p {
        Pace::Plain => 0,
        Pace::Yellow => 1,
        Pace::Red => 2,
    }
}

/// The invariant of a used share: both pace bounds lie within one window,
/// and the red band (pace 1.5) ends no later than the yellow one (pace
/// 1.0), since a pace of at least 1.5 is at least 1.0.
pub open spec fn pace_bounds_ok(u: UsedPercentage) -> bool {
    0 <= u.red_pace_through <= u.yellow_pace_through <= WEEK_SECS
}

/// Law: more usage never gives `$weekly` a milder color. A larger share
/// has a shown percentage no lower and reaches each pace band for at least
/// as long into the window; with the same reset time and clock its band
/// ranks at least as high.
pub proof fn law_weekly_color_monotone(
    u1: UsedPercentage,
    u2: UsedPercentage,
    resets_at: Option<i64>,
    now: i64,
)
    requires
        pace_bounds_ok(u1),
        pace_bounds_ok(u2),
        u1.rounded <= u2.rounded,
        u1.red_pace_through <= u2.red_pace_through,
        u1.yellow_pace_through <= u2.yellow_pace_through,
    ensures
        pace_rank(weekly_pace(u1, resets_at, now)) <= pace_rank(weekly_pace(u2, resets_at, now)),
{
}

/// Law: the countdown never goes negative; once the reset time has passed
/// it reads `0h 0m`.
pub proof fn law_countdown_clamps_to_zero(resets_at: int, now: int)
    requires
        resets_at <= now,
    ensures
        countdown_text(resets_at, now) == "0h 0m"@,
{
    reveal_strlit("0h 0m");
    reveal_strlit("h ");
    reveal_strlit("m");
    assert(decimal(0) == seq!['0']);
    assert(countdown_text(resets_at, now) =~= "0h 0m"@);
}

} // verus!
