//! `$version`: the version of the host application, prefixed with `v`.
use vstd::prelude::*;

use crate::input::Input;

verus! {

/// `v` and the version, or nothing when the payload lacks it.
pub open spec fn version_text(input: Input) -> Seq<char> {
    match input.version {
        Some(v) => "v"@ + v@,
        None => Seq::empty(),
    }
}

/// Renders `$version`.
pub fn render(input: &Input) -> (res: String)
    ensures
        res@ == version_text(*input),
{
    match &input.version {
        Some(v) => {
            let mut s = String::from_str("v");
            s.append(v.as_str());
            s
        },
        None => String::new(),
    }
}

} // verus!
