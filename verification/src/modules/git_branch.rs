//! `$git_branch`: the current branch, read from `.git/HEAD`.
//!
//! Finding the repository and reading its files happens at the program's
//! edge; this module reads the contents of those files. `HEAD` holds
//! `ref: refs/heads/<branch>` on a branch and a raw SHA on a detached HEAD
//! (no branch); a `.git` file of a worktree or submodule holds a
//! `gitdir: <path>` line that points at the real git directory.
//!
//! The repository is found by walking up from the working directory to the
//! first `.git` entry: a directory is the git directory itself; a file
//! points at it, relative to the directory that holds the file unless the
//! pointer is absolute. `git_dir_step` decides each step of that walk.
use vstd::prelude::*;

use crate::paths::{joined, joins_alike, path_is_absolute, path_join};
use crate::text::{chars_of, is_whitespace, lemma_trim_end, string_of_range, trim, trim_end, trim_start};

verus! {

/// The prefix of `HEAD` on a local branch.
pub const HEAD_PREFIX: &'static str = "ref: refs/heads/";

/// The prefix of the pointer line in a `.git` file.
pub const GITDIR_PREFIX: &'static str = "gitdir: ";

/// What `$git_branch_sep` puts before the branch name.
pub const SEP_PREFIX: &'static str = " | 🌿 ";

/// Whether `s` begins with `p`.
pub open spec fn starts_with(s: Seq<char>, p: Seq<char>) -> bool {
    p.len() <= s.len() && s.take(p.len() as int) == p
}

/// The branch named by the contents of `HEAD`: the text after
/// `ref: refs/heads/` once surrounding whitespace is trimmed, when that
/// prefix is there and something follows it.
pub open spec fn head_branch(contents: Seq<char>) -> Option<Seq<char>> {
    let t = trim(contents);
    if starts_with(t, HEAD_PREFIX@) && t.len() > HEAD_PREFIX@.len() {
        Some(t.skip(HEAD_PREFIX@.len() as int))
    } else {
        None
    }
}

/// How many characters come before the first line feed of `s` (all of
/// them when there is none).
pub open spec fn line_len(s: Seq<char>) -> nat
    decreases s.len(),
{
    if s.len() > 0 && s[0] != '\n' {
        1 + line_len(s.drop_first())
    } else {
        0
    }
}

/// The lines of `s`, as `str::lines` splits them: at each line feed, which
/// is not part of the line, nor is a carriage return right before it. The
/// last line feed is optional: text after it forms a last line, nothing
/// after it forms none.
pub open spec fn lines(s: Seq<char>) -> Seq<Seq<char>>
    decreases s.len(),
{
    if s.len() == 0 {
        Seq::empty()
    } else {
        let n = line_len(s) as int;
        if n < s.len() {
            let raw = s.take(n);
            let line = if n > 0 && raw.last() == '\r' {
                raw.drop_last()
            } else {
                raw
            };
            proof {
                lemma_line_len(s);
            }
            seq![line] + lines(s.skip(n + 1))
        } else {
            seq![s]
        }
    }
}

pub proof fn lemma_line_len(s: Seq<char>)
    ensures
        line_len(s) <= s.len(),
        forall|i: int| 0 <= i < line_len(s) ==> #[trigger] s[i] != '\n',
        line_len(s) < s.len() ==> s[line_len(s) as int] == '\n',
    decreases s.len(),
{
    if s.len() > 0 && s[0] != '\n' {
        lemma_line_len(s.drop_first());
        assert forall|i: int| 0 <= i < line_len(s) implies #[trigger] s[i] != '\n' by {
            if i > 0 {
                assert(s[i] == s.drop_first()[i - 1]);
            }
        }
    }
}

/// The git directory named by the first line of `ls` that starts with
/// `gitdir: `, with that prefix cut and whitespace trimmed.
pub open spec fn first_pointer(ls: Seq<Seq<char>>) -> Option<Seq<char>>
    decreases ls.len(),
{
    if ls.len() == 0 {
        None
    } else if starts_with(ls[0], GITDIR_PREFIX@) {
        Some(trim(ls[0].skip(GITDIR_PREFIX@.len() as int)))
    } else {
        first_pointer(ls.drop_first())
    }
}

/// The git directory that the contents of a `.git` file point at.
pub open spec fn gitdir_pointer(contents: Seq<char>) -> Option<Seq<char>> {
    first_pointer(lines(contents))
}

/// Whether `v[at..]` begins with `p`.
fn has_prefix_at(v: &Vec<char>, at: usize, end: usize, p: &Vec<char>) -> (res: bool)
    requires
        at <= end <= v@.len(),
    ensures
        res == starts_with(v@.subrange(at as int, end as int), p@),
{
    if p.len() > end - at {
        return false;
    }
    let mut i: usize = 0;
    while i < p.len()
        invariant
            p@.len() <= end - at,
            at <= end <= v@.len(),
            i <= p@.len(),
            forall|j: int| 0 <= j < i ==> v@[at + j] == p@[j],
        decreases p@.len() - i,
    {
        if v[at + i] != p[i] {
            assert(v@.subrange(at as int, end as int).take(p@.len() as int)[i as int] != p@[i as int]);
            return false;
        }
        i = i + 1;
    }
    assert(v@.subrange(at as int, end as int).take(p@.len() as int) =~= p@);
    true
}

/// The bounds of `v[lo..hi]` with surrounding whitespace cut.
fn trim_bounds(v: &Vec<char>, lo: usize, hi: usize) -> (res: (usize, usize))
    requires
        lo <= hi <= v@.len(),
    ensures
        lo <= res.0 <= res.1 <= hi,
        v@.subrange(res.0 as int, res.1 as int) == trim(v@.subrange(lo as int, hi as int)),
{
    let ghost s = v@.subrange(lo as int, hi as int);
    let mut end = hi;
    assert(v@.subrange(lo as int, end as int) == s);
    proof {
        lemma_trim_end(s);
    }
    while end > lo && is_whitespace(v[end - 1])
        invariant
            lo <= end <= hi <= v@.len(),
            s == v@.subrange(lo as int, hi as int),
            trim_end(v@.subrange(lo as int, end as int)) == trim_end(s),
        decreases end - lo,
    {
        assert(v@.subrange(lo as int, end as int).drop_last() == v@.subrange(lo as int, end - 1));
        end = end - 1;
    }
    assert(trim_end(v@.subrange(lo as int, end as int)) == v@.subrange(lo as int, end as int));
    let ghost t = v@.subrange(lo as int, end as int);
    let mut start = lo;
    assert(v@.subrange(start as int, end as int) == t);
    while start < end && is_whitespace(v[start])
        invariant
            lo <= start <= end <= hi <= v@.len(),
            t == v@.subrange(lo as int, end as int),
            trim_start(v@.subrange(start as int, end as int)) == trim_start(t),
        decreases end - start,
    {
        assert(v@.subrange(start as int, end as int).drop_first() == v@.subrange(
            start + 1,
            end as int,
        ));
        start = start + 1;
    }
    assert(trim_start(v@.subrange(start as int, end as int)) == v@.subrange(
        start as int,
        end as int,
    ));
    (start, end)
}

/// The branch named by the contents of `HEAD`; `None` on a detached HEAD,
/// for refs outside `refs/heads/` and for empty contents.
pub fn parse_head_ref(contents: &str) -> (res: Option<String>)
    ensures
        res matches Some(b) ==> head_branch(contents@) == Some(b@),
        res is None ==> head_branch(contents@) is None,
{
    let v = chars_of(contents);
    let (lo, hi) = trim_bounds(&v, 0, v.len());
    assert(v@.subrange(0, v@.len() as int) == contents@);
    let prefix = chars_of(HEAD_PREFIX);
    if has_prefix_at(&v, lo, hi, &prefix) && hi - lo > prefix.len() {
        let b = string_of_range(&v, lo + prefix.len(), hi);
        assert(v@.subrange(lo as int, hi as int).skip(prefix@.len() as int) =~= v@.subrange(
            lo + prefix@.len(),
            hi as int,
        ));
        Some(b)
    } else {
        None
    }
}

/// The git directory named by the contents of a `.git` file: the first
/// line that starts with `gitdir: `, with that prefix cut and whitespace
/// trimmed.
pub fn parse_gitdir_pointer(contents: &str) -> (res: Option<&str>)
    ensures
        res matches Some(p) ==> gitdir_pointer(contents@) == Some(p@),
        res is None ==> gitdir_pointer(contents@) is None,
{
    let v = chars_of(contents);
    let prefix = chars_of(GITDIR_PREFIX);
    let n = v.len();
    let mut i: usize = 0;
    assert(v@.skip(0) == v@);
    while i < n
        invariant
            n == v@.len(),
            v@ == contents@,
            prefix@ == GITDIR_PREFIX@,
            i <= n,
            first_pointer(lines(v@.skip(i as int))) == gitdir_pointer(contents@),
        decreases n - i,
    {
        let ghost s = v@.skip(i as int);
        let mut j = i;
        while j < n && v[j] != '\n'
            invariant
                i <= j <= n,
                n == v@.len(),
                s == v@.skip(i as int),
                line_len(s) == (j - i) + line_len(v@.skip(j as int)),
            decreases n - j,
        {
            assert(v@.skip(j as int).drop_first() == v@.skip(j + 1));
            j = j + 1;
        }
        proof {
            assert(line_len(v@.skip(j as int)) == 0);
            lemma_line_len(s);
        }
        let line_end = if j < n && j > i && v[j - 1] == '\r' {
            j - 1
        } else {
            j
        };
        proof {
            let raw = s.take((j - i) as int);
            assert(raw == v@.subrange(i as int, j as int));
            if j < n {
                let line = if j > i && raw.last() == '\r' {
                    raw.drop_last()
                } else {
                    raw
                };
                assert(line == v@.subrange(i as int, line_end as int));
                assert(s.skip(j - i + 1) == v@.skip(j + 1));
                assert(lines(s) == seq![line] + lines(v@.skip(j + 1)));
                assert((seq![line] + lines(v@.skip(j + 1))).drop_first() == lines(
                    v@.skip(j + 1),
                ));
                assert(lines(s)[0] == v@.subrange(i as int, line_end as int));
                assert(lines(s).drop_first() == lines(v@.skip(j + 1)));
            } else {
                assert(raw == s);
                assert(s == v@.subrange(i as int, line_end as int));
                assert(lines(s) == seq![s]);
                assert(lines(s)[0] == v@.subrange(i as int, line_end as int));
                assert(lines(s).drop_first() =~= Seq::<Seq<char>>::empty());
            }
            assert(lines(s).len() > 0);
        }
        if has_prefix_at(&v, i, line_end, &prefix) {
            let (lo, hi) = trim_bounds(&v, i + prefix.len(), line_end);
            assert(v@.subrange(i as int, line_end as int).skip(prefix@.len() as int)
                =~= v@.subrange(i + prefix@.len(), line_end as int));
            assert(first_pointer(lines(s)) == Some(
                trim(lines(s)[0].skip(GITDIR_PREFIX@.len() as int)),
            ));
            return Some(contents.substring_char(lo, hi));
        }
        assert(!starts_with(lines(s)[0], GITDIR_PREFIX@));
        assert(first_pointer(lines(s)) == first_pointer(lines(s).drop_first()));
        if j == n {
            proof {
                assert(first_pointer(Seq::<Seq<char>>::empty()) is None);
            }
            return None;
        }
        i = j + 1;
    }
    assert(v@.skip(i as int) =~= Seq::<char>::empty());
    None
}

/// The text of `$git_branch`: the branch name, or nothing.
pub fn render_name_str(branch: Option<&str>) -> (res: String)
    ensures
        res@ == match branch {
            Some(b) => b@,
            None => Seq::empty(),
        },
{
    match branch {
        Some(b) => String::from_str(b),
        None => String::new(),
    }
}

/// The text of the legacy `$git_branch_sep`: the separator and the branch
/// name, or nothing when there is no branch or its name is empty.
pub fn render_sep_str(branch: Option<&str>) -> (res: String)
    ensures
        res@ == match branch {
            Some(b) => if b@.len() > 0 {
                SEP_PREFIX@ + b@
            } else {
                Seq::empty()
            },
            None => Seq::empty(),
        },
{
    match branch {
        Some(b) => if b.unicode_len() > 0 {
            let mut s = String::from_str(SEP_PREFIX);
            s.append(b);
            s
        } else {
            String::new()
        },
        None => String::new(),
    }
}

/// What the walk finds at one directory's `.git` entry.
pub enum DotGit {
    /// No entry, or one that is neither a directory nor a file.
    Missing,
    /// A directory: a plain repository.
    Dir,
    /// A file (a worktree or submodule), with its contents when they could
    /// be read.
    File(Option<String>),
}

/// What the walk does after looking at one directory.
pub enum GitDirStep {
    /// Go on to the parent directory.
    Next,
    /// The git directory is here.
    Found(String),
    /// Give up: there is no git directory to be had.
    Stop,
}

/// Whether `step` found `part` joined onto `base` (exactly so, but for the
/// separator, where every platform joins the two alike).
pub open spec fn found_joined(step: GitDirStep, base: Seq<char>, part: Seq<char>) -> bool {
    step matches GitDirStep::Found(g) && (joins_alike(base, part) ==> joined(base, part, g@))
}

/// One step of the walk up to the git directory, at the directory
/// `ancestor` whose `.git` entry is `entry`: a missing entry sends the walk
/// to the parent; a directory is the git directory; a file whose contents
/// hold a `gitdir:` pointer names it, relative to `ancestor` unless the
/// pointer is absolute; an unreadable file or one without a pointer ends
/// the walk with nothing.
pub fn git_dir_step(ancestor: &str, entry: DotGit) -> (res: GitDirStep)
    ensures
        entry is Missing ==> res is Next,
        entry is Dir ==> found_joined(res, ancestor@, ".git"@),
        entry matches DotGit::File(c) ==> match c {
            None => res is Stop,
            Some(c) => match gitdir_pointer(c@) {
                None => res is Stop,
                Some(p) => found_joined(res, ancestor@, p),
            },
        },
{
    match entry {
        DotGit::Missing => GitDirStep::Next,
        DotGit::Dir => GitDirStep::Found(path_join(ancestor, ".git")),
        DotGit::File(None) => GitDirStep::Stop,
        DotGit::File(Some(c)) => match parse_gitdir_pointer(c.as_str()) {
            None => GitDirStep::Stop,
            Some(p) => {
                if path_is_absolute(p) {
                    proof {
                        if joins_alike(ancestor@, p@) {
                            assert(!p@.contains(':'));
                            assert(p@[0] == '/');
                            assert(crate::paths::join_with(ancestor@, p@, '/') == p@);
                        }
                    }
                    GitDirStep::Found(String::from_str(p))
                } else {
                    GitDirStep::Found(path_join(ancestor, p))
                }
            },
        },
    }
}

} // verus!
