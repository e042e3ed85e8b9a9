//! `$cost`: the session cost as `$X.XX`, `$0.00` when the payload lacks it.
use vstd::prelude::*;

use crate::input::Input;

verus! {

/// A dollar sign and the two-decimal cost, or `$0.00`.
pub open spec fn cost_text(input: Input) -> Seq<char> {
    match input.cost {
        Some(c) => match c.total_cost_usd {
            Some(t) => "$"@ + t@,
            None => "$0.00"@,
        },
        None => "$0.00"@,
    }
}

/// Renders `$cost`.
pub fn render(input: &Input) -> (res: String)
    ensures
        res@ == cost_text(*input),
{
    let amount: Option<&String> = match &input.cost {
        Some(c) => match &c.total_cost_usd {
            Some(t) => Some(t),
            None => None,
        },
        None => None,
    };
    match amount {
        Some(t) => {
            let mut s = String::from_str("$");
            s.append(t.as_str());
            s
        },
        None => String::from_str("$0.00"),
    }
}

} // verus!
