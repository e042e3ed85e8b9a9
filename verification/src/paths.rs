//! Joining filesystem paths, as `std::path::Path` does.
//!
//! The library names files by joining text with `Path::join`. Where the
//! platforms agree on how two paths join, the result is stated exactly but
//! for the separator that goes between them: `/`, or `\` on Windows.
use vstd::prelude::*;

verus! {

/// Whether `c` separates path components on some platform.
pub open spec fn is_separator(c: char) -> bool {
    c == '/' || c == '\\'
}

/// `part` joined onto `base` with `sep`: a part that starts at the root
/// replaces the base; otherwise `sep` goes between the two unless the base
/// is empty or already ends in `/`.
pub open spec fn join_with(base: Seq<char>, part: Seq<char>, sep: char) -> Seq<char> {
    if part.len() > 0 && part[0] == '/' {
        part
    } else if base.len() == 0 || base.last() == '/' {
        base + part
    } else {
        base + seq![sep] + part
    }
}

/// Whether `out` is `part` joined onto `base` with a separator of some
/// platform.
pub open spec fn joined(base: Seq<char>, part: Seq<char>, out: Seq<char>) -> bool {
    exists|sep: char| is_separator(sep) && #[trigger] join_with(base, part, sep) == out
}

/// Whether every platform joins `part` onto `base` alike but for the
/// separator: neither holds a `:` (a drive prefix on Windows), the base
/// neither opens with two separators (a network share or verbatim prefix)
/// nor ends in `\`, and the part does not open with `\`.
pub open spec fn joins_alike(base: Seq<char>, part: Seq<char>) -> bool {
    &&& !base.contains(':')
    &&& !part.contains(':')
    &&& !(base.len() >= 2 && is_separator(base[0]) && is_separator(base[1]))
    &&& !(base.len() > 0 && base.last() == '\\')
    &&& !(part.len() > 0 && part[0] == '\\')
}

/// Whether `path` has the form of an absolute path on some platform: it
/// holds a `:` (a drive prefix) or opens with a separator.
pub open spec fn may_be_absolute(path: Seq<char>) -> bool {
    path.contains(':') || (path.len() > 0 && is_separator(path[0]))
}

/// Whether joining `next` onto `part` joined onto `base` stays alike on
/// every platform: `part` is a plain name that neither starts at the root
/// nor ends in `\`, and `next` holds no `:` and does not open with `\`.
pub open spec fn chain_alike(base: Seq<char>, part: Seq<char>, next: Seq<char>) -> bool {
    &&& joins_alike(base, part)
    &&& part.len() > 0
    &&& part[0] != '/'
    &&& part.last() != '\\'
    &&& !next.contains(':')
    &&& !(next.len() > 0 && next[0] == '\\')
}

/// A base and a part that join alike on every platform still do so, with
/// any separator, as the base of a `next` that opens neither with `\` nor
/// holds a `:`.
pub proof fn lemma_join_chain(base: Seq<char>, part: Seq<char>, sep: char, next: Seq<char>)
    requires
        chain_alike(base, part, next),
        is_separator(sep),
    ensures
        joins_alike(join_with(base, part, sep), next),
{
    let out = join_with(base, part, sep);
    assert(part[0] != '\\');
    if base.len() == 0 || base.last() == '/' {
        assert(out == base + part);
    } else {
        assert(out == base + seq![sep] + part);
    }
    assert forall|i: int| 0 <= i < out.len() implies out[i] != ':' by {
        if i < base.len() {
            assert(out[i] == base[i]);
            assert(!base.contains(':'));
        } else if out == base + part {
            assert(out[i] == part[i - base.len()]);
            assert(!part.contains(':'));
        } else if i == base.len() {
            assert(out[i] == sep);
        } else {
            assert(out[i] == part[i - base.len() - 1]);
            assert(!part.contains(':'));
        }
    }
    assert(out.last() == part.last());
    if out.len() >= 2 && is_separator(out[0]) && is_separator(out[1]) {
        if base.len() >= 2 {
            assert(out[0] == base[0] && out[1] == base[1]);
        } else if base.len() == 1 {
            assert(out[0] == base[0]);
            if base.last() == '/' {
                assert(out[1] == part[0]);
            } else {
                assert(base.last() == base[0]);
            }
        } else {
            assert(out[0] == part[0]);
        }
    }
}

/// `part` joined onto `base`.
///
/// Wraps `std::path::Path::join` (through `PathBuf::push`), whose
/// documentation says that an absolute part replaces the base, a part with
/// a root but no prefix (Windows) replaces all but the base's prefix, and a
/// relative part follows the base after the platform's separator unless
/// the base is empty or ends in a separator. The contract claims
/// `join_with` with `/` or `\` wherever `joins_alike` holds; which of the
/// two separators, and what other paths give, is left unsaid.
#[verifier::external_body]
pub(crate) fn path_join(base: &str, part: &str) -> (res: String)
    ensures
        joins_alike(base@, part@) ==> joined(base@, part@, res@),
{
    std::path::Path::new(base).join(part).to_string_lossy().into_owned()
}

/// Whether `path` is absolute.
///
/// Wraps `std::path::Path::is_absolute`: on Unix a path that starts at the
/// root, on Windows one with both a prefix and a root. A prefix without a
/// `:` (a network share, a verbatim or device path) opens with two
/// separators, so an absolute path without a `:` opens with a separator.
/// That is all the contract claims.
#[verifier::external_body]
pub(crate) fn path_is_absolute(path: &str) -> (res: bool)
    ensures
        res ==> may_be_absolute(path@),
{
    std::path::Path::new(path).is_absolute()
}

} // verus!
