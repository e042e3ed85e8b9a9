//! `$project`: the last component of `workspace.project_dir`.
use vstd::prelude::*;

use crate::input::Input;
use crate::paths::is_separator;

verus! {

/// Whether `part` occurs in `s` as a contiguous run of characters.
pub open spec fn is_infix(part: Seq<char>, s: Seq<char>) -> bool {
    exists|i: int| 0 <= i && i + part.len() <= s.len() && #[trigger] s.subrange(i, i + part.len()) == part
}

/// Whether `path` reads alike under every platform's path syntax: it holds
/// no backslash and no `:` (the marks of Windows separators and drive prefixes)
/// and does not open with `//` (which Windows reads as a network share).
pub open spec fn portable_path(path: Seq<char>) -> bool {
    &&& !path.contains('\\')
    &&& !path.contains(':')
    &&& !(path.len() >= 2 && path[0] == '/' && path[1] == '/')
}

/// The number of characters after the last `/` of `s`.
pub open spec fn tail_len(s: Seq<char>) -> nat
    decreases s.len(),
{
    if s.len() == 0 || s.last() == '/' {
        0
    } else {
        tail_len(s.drop_last()) + 1
    }
}

/// The final component of `path` when it is a name, read as `/`-separated
/// path syntax: from the end, empty segments (repeated or trailing
/// separators) and `.` are passed over; a final `..` gives none, and so do
/// a leading `/` (the root) and a leading `.` (the current directory).
pub open spec fn final_component(path: Seq<char>) -> Option<Seq<char>>
    decreases path.len(),
{
    if path.len() == 0 {
        None
    } else {
        let n = tail_len(path);
        let seg = path.skip(path.len() - n);
        if seg.len() == 0 || seg == "."@ {
            if n < path.len() {
                final_component(path.take(path.len() - n - 1))
            } else {
                None
            }
        } else if seg == ".."@ {
            None
        } else {
            Some(seg)
        }
    }
}

/// How many characters follow the last separator (`/` or `\`) of `p`.
pub open spec fn last_segment_len(p: Seq<char>) -> nat
    decreases p.len(),
{
    if p.len() == 0 || is_separator(p.last()) {
        0
    } else {
        last_segment_len(p.drop_last()) + 1
    }
}

/// The text after the last separator (`/` or `\`) of `p`.
pub open spec fn last_segment(p: Seq<char>) -> Seq<char> {
    p.skip(p.len() - last_segment_len(p))
}

/// Whether `a` ends `b`.
pub open spec fn is_suffix(a: Seq<char>, b: Seq<char>) -> bool {
    a.len() <= b.len() && b.skip(b.len() - a.len()) == a
}

/// Whether `p` ends in a plain name on every platform: the text after its
/// last separator is not empty, not `.` or `..` and holds no `:`, and `p`
/// does not open with two separators (a network share or verbatim prefix
/// on Windows).
pub open spec fn ends_in_name(p: Seq<char>) -> bool {
    let seg = last_segment(p);
    &&& seg.len() > 0
    &&& seg != "."@
    &&& seg != ".."@
    &&& !seg.contains(':')
    &&& !(p.len() >= 2 && is_separator(p[0]) && is_separator(p[1]))
}

/// Whether `name` is a final component of `p` that holds its last
/// segment: it ends `p`, and the text after `p`'s last separator ends it.
pub open spec fn ends_with_segment(name: Seq<char>, p: Seq<char>) -> bool {
    is_suffix(name, p) && is_suffix(last_segment(p), name)
}

/// The final component of `path`, if it has one.
///
/// Wraps `std::path::Path::file_name`, which returns the last component of
/// the path when it is a normal one (a file or directory name) and `None`
/// when the path is empty, is a root or ends in `..`; repeated separators,
/// a trailing separator and `.` past the start are normalized away. The
/// contract claims that on a path that every platform reads alike the
/// result is `final_component`, and that any name returned is a non-empty
/// run of the path's characters. A path that ends in a plain name on every
/// platform (`ends_in_name`) always has a final component: on Unix the text
/// after its last `/`, on Windows the text after its last `/` or `\`;
/// either way it ends the path and holds that name. Beyond that, on paths
/// that platforms read differently (drive letters, backslashes, network
/// shares) which component comes back is left unsaid.
#[verifier::external_body]
fn path_file_name(path: &str) -> (res: Option<String>)
    ensures
        portable_path(path@) ==> match res {
            Some(n) => final_component(path@) == Some(n@),
            None => final_component(path@) is None,
        },
        res matches Some(n) ==> n@.len() > 0 && is_infix(n@, path@),
        ends_in_name(path@) ==> res is Some,
        res matches Some(n) ==> (ends_in_name(path@) ==> ends_with_segment(n@, path@)),
{
    std::path::Path::new(path).file_name().map(|os| os.to_string_lossy().into_owned())
}

/// The project directory, if the payload has one.
pub open spec fn project_dir(input: Input) -> Option<String> {
    match input.workspace {
        Some(w) => w.project_dir,
        None => None,
    }
}

/// What `$project` renders: nothing without a project directory; with
/// one that every platform reads alike, its `final_component` or nothing
/// when it has none; with another, nothing or a run of its characters.
/// Whatever the platform, a directory that ends in a plain name renders a
/// final part of it that holds that name.
pub open spec fn project_outcome(input: Input, text: Seq<char>) -> bool {
    match project_dir(input) {
        Some(d) => (if portable_path(d@) {
            text == match final_component(d@) {
                Some(c) => c,
                None => Seq::empty(),
            }
        } else {
            text.len() == 0 || is_infix(text, d@)
        }) && (ends_in_name(d@) ==> ends_with_segment(text, d@)),
        None => text.len() == 0,
    }
}

/// Law: a project directory whose text after its last separator (`/` or
/// `\`) is a plain name never renders empty, whichever separator the
/// platform uses: `$project` ends the directory and holds that name.
pub proof fn law_project_keeps_last_name(input: Input, text: Seq<char>)
    requires
        project_outcome(input, text),
        project_dir(input) matches Some(d) && ends_in_name(d@),
    ensures
        text.len() > 0,
        is_suffix(last_segment(project_dir(input)->0@), text),
        is_suffix(text, project_dir(input)->0@),
{
}

/// Renders `$project`: the directory's final component, or nothing when
/// the payload lacks the directory or the directory has no final name.
pub fn render(input: &Input) -> (res: String)
    ensures
        project_outcome(*input, res@),
{
    let dir: Option<&String> = match &input.workspace {
        Some(w) => match &w.project_dir {
            Some(d) => Some(d),
            None => None,
        },
        None => None,
    };
    match dir {
        Some(d) => match path_file_name(d.as_str()) {
            Some(n) => n,
            None => String::new(),
        },
        None => String::new(),
    }
}

} // verus!
