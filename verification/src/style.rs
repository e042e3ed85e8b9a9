//! Shared ANSI styling: the color codes of the threshold-colored modules
//! and the `paint` wrapper, which never leaves a body without its reset.
use vstd::prelude::*;

verus! {

/// Switches the terminal to red.
pub const ANSI_RED: &'static str = "\x1b[31m";

/// Switches the terminal to yellow.
pub const ANSI_YELLOW: &'static str = "\x1b[33m";

/// Switches the terminal back to its default color.
pub const ANSI_RESET: &'static str = "\x1b[0m";

/// `body` wrapped in `code` and the reset, or `body` alone without a code.
pub open spec fn painted(code: Option<&str>, body: Seq<char>) -> Seq<char> {
    match code {
        Some(c) => c@ + body + ANSI_RESET@,
        None => body,
    }
}

/// Wraps `body` in `code`, or returns it untouched when `code` is `None`.
pub fn paint(code: Option<&str>, body: String) -> (res: String)
    ensures
        res@ == painted(code, body@),
{
    match code {
        Some(c) => {
            let mut s = String::from_str(c);
            s.append(body.as_str());
            s.append(ANSI_RESET);
            s
        },
        None => body,
    }
}

/// The code for a reading that colors on absolute thresholds: red from
/// `red_from` on, yellow from `yellow_from` on, plain below.
pub open spec fn threshold_code(value: int, yellow_from: int, red_from: int) -> Option<
    &'static str,
> {
    if value >= red_from {
        Some(ANSI_RED)
    } else if value >= yellow_from {
        Some(ANSI_YELLOW)
    } else {
        None
    }
}

/// The code for a reading that colors on absolute thresholds.
pub fn threshold_color(value: i128, yellow_from: i128, red_from: i128) -> (res: Option<&'static str>)
    ensures
        res == threshold_code(value as int, yellow_from as int, red_from as int),
{
    if value >= red_from {
        Some(ANSI_RED)
    } else if value >= yellow_from {
        Some(ANSI_YELLOW)
    } else {
        None
    }
}

} // verus!
