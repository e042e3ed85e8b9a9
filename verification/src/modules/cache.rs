//! `$cache`: the cache hit rate and the cache-read token count.
//!
//! The rate is `cache_read / (cache_read + cache_creation + input)` in
//! whole percent (rounded down), followed by the comma-grouped cache-read
//! count in parentheses; `0% (0)` when the fields are missing or the
//! denominator is zero.
use vstd::prelude::*;

use super::{format_with_commas, group_thousands};
use crate::input::{CurrentUsage, Input};
use crate::text::{decimal, push_decimal};

verus! {

/// The token counts of the latest request, if the payload has them.
pub open spec fn usage(input: Input) -> Option<CurrentUsage> {
    match input.context_window {
        Some(c) => c.current_usage,
        None => None,
    }
}

/// A count that is 0 when missing.
pub open spec fn count(n: Option<u64>) -> nat {
    match n {
        Some(n) => n as nat,
        None => 0,
    }
}

pub open spec fn cache_read(input: Input) -> nat {
    match usage(input) {
        Some(u) => count(u.cache_read_input_tokens),
        None => 0,
    }
}

pub open spec fn cache_creation(input: Input) -> nat {
    match usage(input) {
        Some(u) => count(u.cache_creation_input_tokens),
        None => 0,
    }
}

pub open spec fn new_input(input: Input) -> nat {
    match usage(input) {
        Some(u) => count(u.input_tokens),
        None => 0,
    }
}

/// All tokens of the latest request.
pub open spec fn total_tokens(input: Input) -> nat {
    cache_read(input) + cache_creation(input) + new_input(input)
}

/// The hit rate in whole percent, rounded down; 0 without tokens.
pub open spec fn hit_percent(input: Input) -> nat {
    if total_tokens(input) > 0 {
        cache_read(input) * 100 / total_tokens(input)
    } else {
        0
    }
}

/// Whether the sums and products stay within `u64`, as the rendering
/// computes them there.
pub open spec fn cache_fits(input: Input) -> bool {
    &&& total_tokens(input) <= u64::MAX
    &&& cache_read(input) * 100 <= u64::MAX
}

/// The rendered `$cache`.
pub open spec fn cache_text(input: Input) -> Seq<char> {
    decimal(hit_percent(input)) + "% ("@ + group_thousands(decimal(cache_read(input))) + ")"@
}

fn count_of(n: Option<u64>) -> (res: u64)
    ensures
        res == count(n),
{
    match n {
        Some(n) => n,
        None => 0,
    }
}

/// Renders `$cache`, or `None` where the arithmetic leaves `u64`.
pub fn render_checked(input: &Input) -> (res: Option<String>)
    ensures
        res is Some <==> cache_fits(*input),
        res matches Some(s) ==> s@ == cache_text(*input),
{
    let (read, creation, fresh) = match &input.context_window {
        Some(c) => match &c.current_usage {
            Some(u) => (
                count_of(u.cache_read_input_tokens),
                count_of(u.cache_creation_input_tokens),
                count_of(u.input_tokens),
            ),
            None => (0, 0, 0),
        },
        None => (0, 0, 0),
    };
    let total = match read.checked_add(creation) {
        Some(t) => match t.checked_add(fresh) {
            Some(t) => t,
            None => return None,
        },
        None => return None,
    };
    let scaled = match read.checked_mul(100) {
        Some(x) => x,
        None => return None,
    };
    let pct = if total > 0 {
        scaled / total
    } else {
        0
    };
    let mut s = String::new();
    push_decimal(&mut s, pct);
    s.append("% (");
    let grouped = format_with_commas(read);
    s.append(grouped.as_str());
    s.append(")");
    Some(s)
}

/// Renders `$cache`.
pub fn render(input: &Input) -> (res: String)
    requires
        cache_fits(*input),
    ensures
        res@ == cache_text(*input),
{
    match render_checked(input) {
        Some(s) => s,
        None => String::new(),
    }
}

/// Law: the hit rate never exceeds 100 percent.
pub proof fn law_hit_rate_at_most_hundred(input: Input)
    ensures
        hit_percent(input) <= 100,
{
    let r = cache_read(input);
    let t = total_tokens(input);
    if t > 0 {
        assert(r * 100 / t <= 100) by (nonlinear_arith)
            requires
                r <= t,
                t > 0,
        {
            assert(r * 100 <= t * 100);
            assert((t * 100) / t == 100);
        }
    }
}

} // verus!
