//! `$context` and `$context_bar`: the used share of the context window,
//! and a ten-cell bar with the share and the used/total tokens in
//! thousands: `██░░░░░░░░ 17% (34k/200k)`. The used figure is derived from
//! the rounded share and the window size, so it agrees with the bar.
//!
//! `$context` colors on absolute context pressure, by the shown share:
//! yellow from 65%, red from 75%. The bar stays plain.
use vstd::prelude::*;

use crate::input::Input;
use crate::style::{paint, painted, threshold_code, threshold_color};
use crate::text::{decimal, push_char, push_decimal};

verus! {

/// The number of cells in the bar.
pub const BAR_WIDTH: u64 = 10;

/// From this shown share on `$context` is yellow.
pub const CONTEXT_YELLOW_PCT: u64 = 65;

/// From this shown share on `$context` is red.
pub const CONTEXT_RED_PCT: u64 = 75;

/// The rounded used share in percent, 0 when missing.
pub open spec fn rounded_percent(input: Input) -> nat {
    match input.context_window {
        Some(c) => match c.used_percentage {
            Some(p) => p as nat,
            None => 0,
        },
        None => 0,
    }
}

/// The window size in tokens, 0 when missing.
pub open spec fn context_size(input: Input) -> nat {
    match input.context_window {
        Some(c) => match c.context_window_size {
            Some(n) => n as nat,
            None => 0,
        },
        None => 0,
    }
}

/// The rendered `$context`: the share and a percent sign, colored by
/// pressure.
pub open spec fn percent_text(input: Input) -> Seq<char> {
    painted(
        threshold_code(rounded_percent(input) as int, CONTEXT_YELLOW_PCT as int, CONTEXT_RED_PCT as int),
        decimal(rounded_percent(input)) + "%"@,
    )
}

/// How many cells of the bar are full: a tenth of the share, at most all.
pub open spec fn filled_cells(pct: nat) -> nat {
    if pct * 10 / 100 < 10 {
        pct * 10 / 100
    } else {
        10
    }
}

/// Ten cells, the first `filled` of them full.
pub open spec fn bar_cells(filled: nat) -> Seq<char> {
    Seq::new(10, |i: int| if i < filled { '█' } else { '░' })
}

/// Whether the products stay within `u64`, as the rendering computes them there.
pub open spec fn bar_fits(input: Input) -> bool {
    &&& rounded_percent(input) * 10 <= u64::MAX
    &&& rounded_percent(input) * context_size(input) <= u64::MAX
}

/// The rendered `$context_bar`.
pub open spec fn bar_text(input: Input) -> Seq<char> {
    let pct = rounded_percent(input);
    let size = context_size(input);
    bar_cells(filled_cells(pct)) + " "@ + decimal(pct) + "% ("@ + decimal(pct * size / 100 / 1000)
        + "k/"@ + decimal(size / 1000) + "k)"@
}

fn percent_and_size(input: &Input) -> (res: (u64, u64))
    ensures
        res.0 == rounded_percent(*input),
        res.1 == context_size(*input),
{
    match &input.context_window {
        Some(c) => (
            match c.used_percentage {
                Some(p) => p,
                None => 0,
            },
            match c.context_window_size {
                Some(n) => n,
                None => 0,
            },
        ),
        None => (0, 0),
    }
}

/// Renders `$context`.
pub fn render_percent(input: &Input) -> (res: String)
    ensures
        res@ == percent_text(*input),
{
    let (pct, _) = percent_and_size(input);
    let mut s = String::new();
    push_decimal(&mut s, pct);
    s.append("%");
    let code = threshold_color(pct as i128, CONTEXT_YELLOW_PCT as i128, CONTEXT_RED_PCT as i128);
    paint(code, s)
}

/// Renders `$context_bar`, or `None` where the arithmetic leaves `u64`.
pub fn render_bar_checked(input: &Input) -> (res: Option<String>)
    ensures
        res is Some <==> bar_fits(*input),
        res matches Some(s) ==> s@ == bar_text(*input),
{
    let (pct, size) = percent_and_size(input);
    let scaled = match pct.checked_mul(BAR_WIDTH) {
        Some(x) => x,
        None => return None,
    };
    let used = match pct.checked_mul(size) {
        Some(x) => x,
        None => return None,
    };
    let filled = if scaled / 100 < BAR_WIDTH {
        scaled / 100
    } else {
        BAR_WIDTH
    };
    let mut bar = String::new();
    let mut i: u64 = 0;
    while i < BAR_WIDTH
        invariant
            i <= 10,
            filled == filled_cells(pct as nat),
            bar@ == bar_cells(filled as nat).take(i as int),
        decreases 10 - i,
    {
        push_char(&mut bar, if i < filled { '█' } else { '░' });
        assert(bar_cells(filled as nat).take(i + 1) == bar_cells(filled as nat).take(
            i as int,
        ).push(bar_cells(filled as nat)[i as int]));
        i = i + 1;
    }
    assert(bar_cells(filled as nat).take(10) == bar_cells(filled as nat));
    bar.append(" ");
    push_decimal(&mut bar, pct);
    bar.append("% (");
    push_decimal(&mut bar, used / 100 / 1000);
    bar.append("k/");
    push_decimal(&mut bar, size / 1000);
    bar.append("k)");
    Some(bar)
}

/// Renders `$context_bar`.
pub fn render_bar(input: &Input) -> (res: String)
    requires
        bar_fits(*input),
    ensures
        res@ == bar_text(*input),
{
    match render_bar_checked(input) {
        Some(s) => s,
        None => String::new(),
    }
}

/// Law: the bar always has exactly ten cells, whatever the share (the fill
/// is clamped above 100%), and the full cells come first.
pub proof fn law_bar_has_ten_cells(pct: nat)
    ensures
        bar_cells(filled_cells(pct)).len() == 10,
        filled_cells(pct) <= 10,
        filled_cells(pct) == if pct >= 100 { 10 } else { pct / 10 },
        forall|i: int|
            0 <= i < 10 ==> (#[trigger] bar_cells(filled_cells(pct))[i] == '█' <==> i
                < filled_cells(pct)),
{
    assert(pct * 10 / 100 == pct / 10) by (nonlinear_arith);
}

} // verus!
