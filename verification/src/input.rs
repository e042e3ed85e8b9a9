//! The session payload, as the statusline reads it.
//!
//! Every field is optional: older host versions omit `rate_limits`,
//! some sessions omit `context_window`, and anything nested may be absent.
//! Where the payload carries a floating-point number, these types hold the
//! whole numbers that the statusline derives from it, which is all that it
//! reads of the number.
use vstd::prelude::*;

verus! {

/// The whole session payload.
#[derive(Debug, Default)]
pub struct Input {
    pub model: Option<Model>,
    pub version: Option<String>,
    pub cost: Option<Cost>,
    pub context_window: Option<ContextWindow>,
    pub rate_limits: Option<RateLimits>,
    pub workspace: Option<Workspace>,
}

/// The model in use.
#[derive(Debug, Default)]
pub struct Model {
    pub display_name: Option<String>,
}

/// What the session has cost so far.
#[derive(Debug, Default)]
pub struct Cost {
    /// The cost in US dollars, written with exactly two decimals
    /// (`format!("{:.2}")` of the payload's number).
    pub total_cost_usd: Option<String>,
    /// Wall-clock time since the session started, in milliseconds.
    pub total_duration_ms: Option<u64>,
}

/// The model's context window.
#[derive(Debug, Default)]
pub struct ContextWindow {
    /// The used share of the window in percent, rounded half away from
    /// zero to a whole number; a negative reading counts as 0 and one
    /// beyond `u64::MAX` as `u64::MAX` (what `round() as u64` gives).
    pub used_percentage: Option<u64>,
    pub context_window_size: Option<u64>,
    pub total_input_tokens: Option<u64>,
    pub total_output_tokens: Option<u64>,
    pub current_usage: Option<CurrentUsage>,
}

/// Token counts of the latest request.
#[derive(Debug, Default)]
pub struct CurrentUsage {
    pub input_tokens: Option<u64>,
    pub cache_read_input_tokens: Option<u64>,
    pub cache_creation_input_tokens: Option<u64>,
}

/// The usage rate-limit windows.
#[derive(Debug, Default)]
pub struct RateLimits {
    /// The five-hour window.
    pub five_hour: Option<RateLimitWindow>,
    /// The seven-day window.
    pub seven_day: Option<RateLimitWindow>,
}

/// One rate-limit window.
#[derive(Debug, Default)]
pub struct RateLimitWindow {
    pub used_percentage: Option<UsedPercentage>,
    /// When the window resets, in seconds since the Unix epoch.
    pub resets_at: Option<i64>,
}

/// A window's used share, as the statusline reads it.
///
/// The burn pace of a seven-day window that is `e` seconds old is the used
/// share divided by the linear budget `e / 604800 * 100`. For a positive
/// share the pace only falls as `e` grows, so the seconds at which it
/// reaches a band form a prefix of `1..=604800`; the two bounds below
/// record where each prefix ends. A pace of 1.5 is a pace of 1.0, so a
/// share read from the payload meets `pace_bounds_ok` (in `rate_limits`).
#[derive(Debug, Clone, Copy, Default)]
pub struct UsedPercentage {
    /// The share in percent, rounded half away from zero (saturating at
    /// the ends of `i64`; what `round() as i64` gives).
    pub rounded: i64,
    /// The largest window age in `0..=604800` seconds up to which the pace
    /// is at least 1.5 (0 when it never is).
    pub red_pace_through: i64,
    /// The largest window age in `0..=604800` seconds up to which the pace
    /// is at least 1.0 (0 when it never is).
    pub yellow_pace_through: i64,
}

/// The workspace of the session.
#[derive(Debug, Default)]
pub struct Workspace {
    pub project_dir: Option<String>,
}

} // verus!
