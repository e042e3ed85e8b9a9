//! `$duration`: the session's wall-clock time (`cost.total_duration_ms`),
//! as its two most significant units: `42s`, `5m 29s`, `7h 5m`, `2d 3h`.
//! Sub-second remainders are dropped; a missing field reads as `0s`.
use vstd::prelude::*;

use crate::input::Input;
use crate::text::{decimal, push_decimal};

verus! {

/// The session duration in milliseconds, 0 when missing.
pub open spec fn duration_ms(input: Input) -> nat {
    match input.cost {
        Some(c) => match c.total_duration_ms {
            Some(ms) => ms as nat,
            None => 0,
        },
        None => 0,
    }
}

/// `ms` written with its two most significant units, starting at the
/// largest non-zero one of days, hours, minutes and seconds.
pub open spec fn duration_text(ms: nat) -> Seq<char> {
    let total = ms / 1000;
    let days = total / 86400;
    let hours = total % 86400 / 3600;
    let mins = total % 3600 / 60;
    let secs = total % 60;
    if days > 0 {
        decimal(days) + "d "@ + decimal(hours) + "h"@
    } else if hours > 0 {
        decimal(hours) + "h "@ + decimal(mins) + "m"@
    } else if mins > 0 {
        decimal(mins) + "m "@ + decimal(secs) + "s"@
    } else {
        decimal(secs) + "s"@
    }
}

/// `a`, `unit_a`, a space, `b` and `unit_b`.
fn two_units(a: u64, unit_a: &str, b: u64, unit_b: &str) -> (res: String)
    ensures
        res@ == decimal(a as nat) + unit_a@ + " "@ + decimal(b as nat) + unit_b@,
{
    let mut s = String::new();
    push_decimal(&mut s, a);
    s.append(unit_a);
    s.append(" ");
    push_decimal(&mut s, b);
    s.append(unit_b);
    s
}

/// Renders `$duration`.
pub fn render(input: &Input) -> (res: String)
    ensures
        res@ == duration_text(duration_ms(*input)),
{
    let ms: u64 = match &input.cost {
        Some(c) => match c.total_duration_ms {
            Some(ms) => ms,
            None => 0,
        },
        None => 0,
    };
    let total_secs = ms / 1000;
    let days = total_secs / 86_400;
    let hours = (total_secs % 86_400) / 3_600;
    let mins = (total_secs % 3_600) / 60;
    let secs = total_secs % 60;
    proof {
        reveal_strlit(" ");
        reveal_strlit("d ");
        reveal_strlit("h ");
        reveal_strlit("m ");
        reveal_strlit("d");
        reveal_strlit("h");
        reveal_strlit("m");
    }
    if days > 0 {
        let s = two_units(days, "d", hours, "h");
        assert(decimal(days as nat) + "d"@ + " "@ + decimal(hours as nat) + "h"@ =~= decimal(
            days as nat,
        ) + "d "@ + decimal(hours as nat) + "h"@);
        s
    } else if hours > 0 {
        let s = two_units(hours, "h", mins, "m");
        assert(decimal(hours as nat) + "h"@ + " "@ + decimal(mins as nat) + "m"@ =~= decimal(
            hours as nat,
        ) + "h "@ + decimal(mins as nat) + "m"@);
        s
    } else if mins > 0 {
        let s = two_units(mins, "m", secs, "s");
        proof {
            reveal_strlit("s");
        }
        assert(decimal(mins as nat) + "m"@ + " "@ + decimal(secs as nat) + "s"@ =~= decimal(
            mins as nat,
        ) + "m "@ + decimal(secs as nat) + "s"@);
        s
    } else {
        let mut s = String::new();
        push_decimal(&mut s, secs);
        s.append("s");
        assert(s@ =~= decimal(secs as nat) + "s"@);
        s
    }
}

/// Law: sub-second remainders are dropped, not rounded: a duration renders
/// like its whole seconds.
pub proof fn law_duration_drops_subseconds(ms: nat)
    ensures
        duration_text(ms) == duration_text(ms / 1000 * 1000),
{
    assert(ms / 1000 * 1000 / 1000 == ms / 1000) by (nonlinear_arith);
}

/// Law: a duration leads with its largest non-zero unit and follows it
/// with the next one down. From a day on it is days and hours, from an
/// hour on hours and minutes, from a minute on minutes and seconds, and
/// below that whole seconds alone.
pub proof fn law_duration_leads_with_largest_unit(ms: nat)
    ensures
        ms / 1000 >= 86400 ==> duration_text(ms) == decimal(ms / 1000 / 86400) + "d "@ + decimal(
            ms / 1000 % 86400 / 3600,
        ) + "h"@,
        3600 <= ms / 1000 < 86400 ==> duration_text(ms) == decimal(ms / 1000 / 3600) + "h "@
            + decimal(ms / 1000 % 3600 / 60) + "m"@,
        60 <= ms / 1000 < 3600 ==> duration_text(ms) == decimal(ms / 1000 / 60) + "m "@ + decimal(
            ms / 1000 % 60,
        ) + "s"@,
        ms / 1000 < 60 ==> duration_text(ms) == decimal(ms / 1000) + "s"@,
{
    let t = ms / 1000;
    if t < 86400 {
        assert(t / 86400 == 0);
        assert(t % 86400 == t);
        if t < 3600 {
            assert(t / 3600 == 0);
            assert(t % 3600 == t);
        }
    } else {
        assert(t / 86400 > 0);
    }
}

} // verus!
