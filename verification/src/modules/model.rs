//! `$model`: the model's display name.
use vstd::prelude::*;

use crate::input::Input;

verus! {

/// The display name, or nothing when the payload lacks it.
pub open spec fn model_text(input: Input) -> Seq<char> {
    match input.model {
        Some(m) => match m.display_name {
            Some(n) => n@,
            None => Seq::empty(),
        },
        None => Seq::empty(),
    }
}

/// Renders `$model`.
pub fn render(input: &Input) -> (res: String)
    ensures
        res@ == model_text(*input),
{
    match &input.model {
        Some(m) => match &m.display_name {
            Some(n) => n.clone(),
            None => String::new(),
        },
        None => String::new(),
    }
}

} // verus!
