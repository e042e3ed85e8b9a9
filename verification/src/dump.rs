//! Where the optional input snapshot goes.
//!
//! When `CCLINE_INPUT_DUMP` names a path, the payload is written there,
//! atomically: first to the path with `.tmp` appended, then renamed. The
//! writing itself happens at the program's edge; this module decides the
//! paths.
use vstd::prelude::*;

verus! {

/// The dump path for a value of `CCLINE_INPUT_DUMP`: none when the variable
/// is unset or empty, the value otherwise.
pub fn resolve_dump_path(value: Option<String>) -> (res: Option<String>)
    ensures
        res == match value {
            Some(v) => if v@.len() > 0 {
                Some(v)
            } else {
                None
            },
            None => None,
        },
{
    match value {
        Some(v) => if v.as_str().unicode_len() > 0 {
            Some(v)
        } else {
            None
        },
        None => None,
    }
}

/// The temporary sibling of `path`: the whole file name with `.tmp`
/// appended, so `snapshot.json` becomes `snapshot.json.tmp`.
pub fn tmp_path(path: &str) -> (res: String)
    ensures
        res@ == path@ + ".tmp"@,
{
    let mut s = String::from_str(path);
    s.append(".tmp");
    s
}

} // verus!
