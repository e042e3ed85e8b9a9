//! `$tokens_in` and `$tokens_out`: the session's total input and output
//! token counts, with comma thousands separators (0 when missing).
use vstd::prelude::*;

use super::{format_with_commas, group_thousands};
use crate::input::Input;
use crate::text::decimal;

verus! {

/// The total input tokens, 0 when missing.
pub open spec fn input_tokens(input: Input) -> nat {
    match input.context_window {
        Some(c) => match c.total_input_tokens {
            Some(n) => n as nat,
            None => 0,
        },
        None => 0,
    }
}

/// The total output tokens, 0 when missing.
pub open spec fn output_tokens(input: Input) -> nat {
    match input.context_window {
        Some(c) => match c.total_output_tokens {
            Some(n) => n as nat,
            None => 0,
        },
        None => 0,
    }
}

/// Renders `$tokens_in`.
pub fn render_in(input: &Input) -> (res: String)
    ensures
        res@ == group_thousands(decimal(input_tokens(*input))),
{
    let n: u64 = match &input.context_window {
        Some(c) => match c.total_input_tokens {
            Some(n) => n,
            None => 0,
        },
        None => 0,
    };
    format_with_commas(n)
}

/// Renders `$tokens_out`.
pub fn render_out(input: &Input) -> (res: String)
    ensures
        res@ == group_thousands(decimal(output_tokens(*input))),
{
    let n: u64 = match &input.context_window {
        Some(c) => match c.total_output_tokens {
            Some(n) => n,
            None => 0,
        },
        None => 0,
    };
    format_with_commas(n)
}

} // verus!
