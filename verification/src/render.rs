//! Format string parser and module dispatch.
//!
//! A format string holds Starship-style `$module_name` references; every
//! other character is literal text emitted verbatim. A `$` that is not
//! followed by an identifier character stays literal. `(...)` encloses a
//! conditional group, which disappears as a whole when one of its direct
//! `$module` children renders empty; nested groups decide for themselves.
//! An unmatched `(` extends to the end of the string and a stray `)` is
//! literal text. Whitespace right before `(` belongs to the group, and
//! whitespace right inside `(` or `)` is cosmetic padding.
//! `$git_branch_sep` is an alias for the group `( | 🌿 $git_branch)`.
use vstd::prelude::*;

use jiff::tz::TimeZone;

use crate::input::Input;
use crate::modules::cache::{cache_fits, cache_text};
use crate::modules::context::{bar_fits, bar_text};
use crate::modules::cost::cost_text;
use crate::modules::duration::{duration_ms, duration_text};
use crate::modules::group_thousands;
use crate::modules::model::model_text;
use crate::modules::project::{is_infix, project_outcome};
use crate::modules::rate_limits::{
    five_hour, session_reset_fits, session_reset_text, weekly_fits, weekly_reset_outcome,
    weekly_text,
};
use crate::modules::tokens::{input_tokens, output_tokens};
use crate::modules::version::version_text;
use crate::modules::{
    cache, context, cost, duration, git_branch, model, project, rate_limits, tokens, version,
};
use crate::text::{
    chars_of, decimal, is_space, leading_space_len, lemma_trim_end, same_text,
    string_of, string_of_range, trim_end, trim_end_len, trim_start,
};

verus! {

/// One piece of a parsed format string.
#[derive(Debug, PartialEq, Eq)]
pub enum Token {
    /// Text emitted verbatim.
    Literal(String),
    /// A `$name` reference.
    Module(String),
    /// A conditional `(...)` group.
    Group(Vec<Token>),
}

/// The mathematical shape of a [`Token`].
pub enum SpecToken {
    Literal(Seq<char>),
    Module(Seq<char>),
    Group(Seq<SpecToken>),
}

/// The shape of a token.
pub open spec fn token_view(t: Token) -> SpecToken
    decreases t, 0int,
{
    match t {
        Token::Literal(s) => SpecToken::Literal(s@),
        Token::Module(s) => SpecToken::Module(s@),
        Token::Group(v) => SpecToken::Group(tokens_view(v@)),
    }
}

/// The shapes of a sequence of tokens, element by element.
pub open spec fn tokens_view(s: Seq<Token>) -> Seq<SpecToken>
    decreases s, 1int,
{
    if s.len() == 0 {
        Seq::empty()
    } else {
        tokens_view(s.subrange(0, s.len() - 1)).push(token_view(s[s.len() - 1]))
    }
}

pub proof fn lemma_tokens_view(s: Seq<Token>)
    ensures
        tokens_view(s).len() == s.len(),
        forall|i: int| 0 <= i < s.len() ==> #[trigger] tokens_view(s)[i] == token_view(s[i]),
    decreases s.len(),
{
    if s.len() > 0 {
        lemma_tokens_view(s.subrange(0, s.len() - 1));
    }
}

/// Two token sequences with equal elements have equal shapes.
proof fn lemma_tokens_view_ext(a: Seq<Token>, b: Seq<SpecToken>)
    requires
        a.len() == b.len(),
        forall|i: int| 0 <= i < a.len() ==> token_view(#[trigger] a[i]) == b[i],
    ensures
        tokens_view(a) == b,
{
    lemma_tokens_view(a);
    assert(tokens_view(a) =~= b);
}

/// Whether `c` may start a module name.
pub open spec fn ident_start(c: char) -> bool {
    ('a' <= c <= 'z') || ('A' <= c <= 'Z') || c == '_'
}

/// Whether `c` may continue a module name.
pub open spec fn ident_continue(c: char) -> bool {
    ident_start(c) || ('0' <= c <= '9')
}

/// How many characters at the start of `s` may continue a module name.
pub open spec fn ident_len(s: Seq<char>) -> nat
    decreases s.len(),
{
    if s.len() > 0 && ident_continue(s[0]) {
        1 + ident_len(s.drop_first())
    } else {
        0
    }
}

pub proof fn lemma_ident_len(s: Seq<char>)
    ensures
        ident_len(s) <= s.len(),
        forall|i: int| 0 <= i < ident_len(s) ==> ident_continue(#[trigger] s[i]),
        ident_len(s) < s.len() ==> !ident_continue(s[ident_len(s) as int]),
    decreases s.len(),
{
    if s.len() > 0 && ident_continue(s[0]) {
        lemma_ident_len(s.drop_first());
        assert forall|i: int| 0 <= i < ident_len(s) implies ident_continue(#[trigger] s[i]) by {
            if i > 0 {
                assert(s[i] == s.drop_first()[i - 1]);
            }
        }
    }
}

/// A group or the text being gathered at one nesting level of the parse.
pub struct SpecFrame {
    /// Tokens finished so far at this level.
    pub toks: Seq<SpecToken>,
    /// Literal text not yet turned into a token.
    pub lit: Seq<char>,
    /// Whitespace taken from just before the `(` that opened this level.
    pub absorbed: Seq<char>,
}

/// An empty level with nothing absorbed.
pub open spec fn empty_frame() -> SpecFrame {
    SpecFrame { toks: Seq::empty(), lit: Seq::empty(), absorbed: Seq::empty() }
}

/// `toks` followed by the literal `lit`, when `lit` is not empty.
pub open spec fn with_literal(toks: Seq<SpecToken>, lit: Seq<char>) -> Seq<SpecToken> {
    if lit.len() == 0 {
        toks
    } else {
        toks.push(SpecToken::Literal(lit))
    }
}

/// The level with its pending text turned into a literal token.
pub open spec fn flush(f: SpecFrame) -> SpecFrame {
    SpecFrame { toks: with_literal(f.toks, f.lit), lit: Seq::empty(), absorbed: f.absorbed }
}

/// What `$name` stands for: `$git_branch_sep` is the group
/// `( | 🌿 $git_branch)`, any other name a module reference.
pub open spec fn expansion(name: Seq<char>) -> SpecToken {
    if name == "git_branch_sep"@ {
        SpecToken::Group(seq![SpecToken::Literal(" | 🌿 "@), SpecToken::Module("git_branch"@)])
    } else {
        SpecToken::Module(name)
    }
}

/// The children of a group once its padding is settled: a trailing literal
/// loses its trailing whitespace (and disappears if nothing is left), then
/// the whitespace absorbed from before `(`, if any, replaces the leading
/// whitespace of a first literal, or becomes a literal of its own.
pub open spec fn finish_group(toks: Seq<SpecToken>, absorbed: Seq<char>) -> Seq<SpecToken> {
    let stripped = if toks.len() > 0 && toks.last() is Literal {
        let t = trim_end(toks.last()->Literal_0);
        if t.len() == 0 {
            toks.drop_last()
        } else {
            toks.update(toks.len() - 1, SpecToken::Literal(t))
        }
    } else {
        toks
    };
    if absorbed.len() == 0 {
        stripped
    } else if stripped.len() > 0 && stripped[0] is Literal {
        stripped.update(0, SpecToken::Literal(absorbed + trim_start(stripped[0]->Literal_0)))
    } else {
        seq![SpecToken::Literal(absorbed)] + stripped
    }
}

/// The stack with its innermost level replaced by `f`.
pub open spec fn set_top(stack: Seq<SpecFrame>, f: SpecFrame) -> Seq<SpecFrame> {
    stack.update(stack.len() - 1, f)
}

/// Reading a literal character.
pub open spec fn add_char(stack: Seq<SpecFrame>, c: char) -> Seq<SpecFrame> {
    let f = stack.last();
    set_top(stack, SpecFrame { lit: f.lit.push(c), ..f })
}

/// Reading `$name`.
pub open spec fn add_module(stack: Seq<SpecFrame>, name: Seq<char>) -> Seq<SpecFrame> {
    let f = flush(stack.last());
    set_top(stack, SpecFrame { toks: f.toks.push(expansion(name)), ..f })
}

/// Reading `(`: the whitespace that ends the pending text moves into the
/// new level.
pub open spec fn open_group(stack: Seq<SpecFrame>) -> Seq<SpecFrame> {
    let f = stack.last();
    let kept = trim_end(f.lit);
    let absorbed = f.lit.skip(kept.len() as int);
    set_top(stack, flush(SpecFrame { lit: kept, ..f })).push(
        SpecFrame { toks: Seq::empty(), lit: Seq::empty(), absorbed },
    )
}

/// Closing the innermost level: it becomes a group token of the level around it.
pub open spec fn close_group(stack: Seq<SpecFrame>) -> Seq<SpecFrame> {
    let f = flush(stack.last());
    let group = SpecToken::Group(finish_group(f.toks, f.absorbed));
    let rest = stack.drop_last();
    let p = rest.last();
    set_top(rest, SpecFrame { toks: p.toks.push(group), ..p })
}

/// The tokens read from `r` when the parse is in state `stack`
/// (innermost level last).
pub open spec fn run(r: Seq<char>, stack: Seq<SpecFrame>) -> Seq<SpecToken>
    decreases r.len(), stack.len(),
{
    if stack.len() == 0 {
        Seq::empty()
    } else if r.len() == 0 {
        if stack.len() == 1 {
            flush(stack[0]).toks
        } else {
            run(r, close_group(stack))
        }
    } else if r[0] == ')' && stack.len() >= 2 {
        run(r.drop_first(), close_group(stack))
    } else if r[0] == '(' {
        run(r.drop_first(), open_group(stack))
    } else if r[0] == '$' && r.len() >= 2 && ident_start(r[1]) {
        let n = ident_len(r.drop_first()) as int;
        proof {
            lemma_ident_len(r.drop_first());
        }
        run(r.skip(1 + n), add_module(stack, r.subrange(1, 1 + n)))
    } else {
        run(r.drop_first(), add_char(stack, r[0]))
    }
}

/// The tokens of a format string.
pub open spec fn parse(s: Seq<char>) -> Seq<SpecToken> {
    run(s, seq![empty_frame()])
}

/// One nesting level of the parse while it is under way.
struct Frame {
    toks: Vec<Token>,
    lit: Vec<char>,
    absorbed: Vec<char>,
}

spec fn frame_view(f: Frame) -> SpecFrame {
    SpecFrame { toks: tokens_view(f.toks@), lit: f.lit@, absorbed: f.absorbed@ }
}

spec fn stack_view(s: Seq<Frame>) -> Seq<SpecFrame> {
    Seq::new(s.len(), |i: int| frame_view(s[i]))
}

proof fn lemma_stack_push(s: Seq<Frame>, f: Frame)
    ensures
        stack_view(s.push(f)) == stack_view(s).push(frame_view(f)),
{
    assert(stack_view(s.push(f)) =~= stack_view(s).push(frame_view(f)));
}

proof fn lemma_stack_drop_last(s: Seq<Frame>)
    requires
        s.len() > 0,
    ensures
        stack_view(s.drop_last()) == stack_view(s).drop_last(),
        stack_view(s).last() == frame_view(s.last()),
{
    assert(stack_view(s.drop_last()) =~= stack_view(s).drop_last());
}

/// Turns the pending literal text, if any, into a literal token.
fn flush_literal(tokens: &mut Vec<Token>, literal: &mut Vec<char>)
    ensures
        tokens_view(final(tokens)@) == with_literal(tokens_view(old(tokens)@), old(literal)@),
        final(literal)@ == Seq::<char>::empty(),
{
    if literal.len() > 0 {
        let s = string_of(literal);
        proof {
            lemma_tokens_view(tokens@);
        }
        tokens.push(Token::Literal(s));
        proof {
            lemma_tokens_view_ext(
                tokens@,
                with_literal(tokens_view(old(tokens)@), old(literal)@),
            );
        }
        literal.clear();
    }
}

/// Cuts the trailing whitespace off `literal` and returns it.
fn take_trailing_whitespace(literal: &mut Vec<char>) -> (absorbed: Vec<char>)
    ensures
        final(literal)@ == trim_end(old(literal)@),
        absorbed@ == old(literal)@.skip(trim_end(old(literal)@).len() as int),
{
    let n = trim_end_len(literal);
    literal.split_off(n)
}

/// Whether `c` may start a module name.
fn is_ident_start(c: char) -> (res: bool)
    ensures
        res == ident_start(c),
{
    ('a' <= c && c <= 'z') || ('A' <= c && c <= 'Z') || c == '_'
}

/// Whether `c` may continue a module name.
fn is_ident_continue(c: char) -> (res: bool)
    ensures
        res == ident_continue(c),
{
    is_ident_start(c) || ('0' <= c && c <= '9')
}

/// The end of the module name that starts at `start`.
fn consume_ident(chars: &Vec<char>, start: usize) -> (end: usize)
    requires
        start <= chars@.len(),
    ensures
        end == start + ident_len(chars@.skip(start as int)),
        end <= chars@.len(),
{
    let mut j = start;
    assert(chars@.skip(start as int).skip(0) == chars@.skip(start as int));
    while j < chars.len() && is_ident_continue(chars[j as usize])
        invariant
            start <= j <= chars@.len(),
            ident_len(chars@.skip(start as int)) == (j - start) + ident_len(chars@.skip(j as int)),
        decreases chars@.len() - j,
    {
        assert(chars@.skip(j as int).drop_first() == chars@.skip(j + 1));
        j = j + 1;
    }
    j
}

/// The token that `$name` stands for.
fn expand_module(name: String) -> (t: Token)
    ensures
        token_view(t) == expansion(name@),
{
    if same_text(name.as_str(), "git_branch_sep") {
        let children = vec![
            Token::Literal(String::from_str(" | 🌿 ")),
            Token::Module(String::from_str("git_branch")),
        ];
        proof {
            lemma_tokens_view_ext(
                children@,
                seq![SpecToken::Literal(" | 🌿 "@), SpecToken::Module("git_branch"@)],
            );
        }
        Token::Group(children)
    } else {
        Token::Module(name)
    }
}

/// Settles the padding of a group's children (see [`finish_group`]).
fn finish_children(children: Vec<Token>, absorbed: Vec<char>) -> (res: Vec<Token>)
    ensures
        tokens_view(res@) == finish_group(tokens_view(children@), absorbed@),
{
    let ghost toks = tokens_view(children@);
    let mut children = children;
    proof {
        lemma_tokens_view(children@);
    }
    let len = children.len();
    let last_chars: Option<Vec<char>> = if len > 0 {
        match &children[len - 1] {
            Token::Literal(s) => Some(chars_of(s.as_str())),
            _ => None,
        }
    } else {
        None
    };
    if let Some(v) = last_chars {
        let n = trim_end_len(&v);
        let _ = children.pop();
        if n > 0 {
            let t = string_of_range(&v, 0, n);
            children.push(Token::Literal(t));
        }
        proof {
            lemma_trim_end(v@);
            if n > 0 {
                lemma_tokens_view_ext(
                    children@,
                    toks.update(toks.len() - 1, SpecToken::Literal(trim_end(v@))),
                );
            } else {
                lemma_tokens_view_ext(children@, toks.drop_last());
            }
        }
    }
    let ghost stripped = tokens_view(children@);
    proof {
        lemma_tokens_view(children@);
    }
    if absorbed.len() > 0 {
        let first_chars: Option<Vec<char>> = if children.len() > 0 {
            match &children[0] {
                Token::Literal(s) => Some(chars_of(s.as_str())),
                _ => None,
            }
        } else {
            None
        };
        match first_chars {
            Some(f) => {
                let k = leading_space_len(&f);
                let mut merged = absorbed;
                let mut i = k;
                while i < f.len()
                    invariant
                        k <= i <= f@.len(),
                        merged@ == absorbed@ + f@.subrange(k as int, i as int),
                    decreases f@.len() - i,
                {
                    merged.push(f[i]);
                    assert(f@.subrange(k as int, i + 1) == f@.subrange(k as int, i as int).push(
                        f@[i as int],
                    ));
                    i = i + 1;
                }
                assert(f@.subrange(k as int, f@.len() as int) == f@.skip(k as int));
                let s = string_of(&merged);
                let _ = children.remove(0);
                children.insert(0, Token::Literal(s));
                proof {
                    lemma_tokens_view_ext(
                        children@,
                        stripped.update(0, SpecToken::Literal(absorbed@ + trim_start(f@))),
                    );
                }
            },
            None => {
                let s = string_of(&absorbed);
                children.insert(0, Token::Literal(s));
                proof {
                    lemma_tokens_view_ext(
                        children@,
                        seq![SpecToken::Literal(absorbed@)] + stripped,
                    );
                }
            },
        }
    }
    children
}

/// Reads a `(`.
fn push_open_group(stack: &mut Vec<Frame>)
    requires
        old(stack)@.len() >= 1,
    ensures
        stack_view(final(stack)@) == open_group(stack_view(old(stack)@)),
        final(stack)@.len() == old(stack)@.len() + 1,
{
    let ghost st = stack_view(stack@);
    proof {
        lemma_stack_drop_last(stack@);
    }
    let mut top = stack.pop().unwrap();
    let absorbed = take_trailing_whitespace(&mut top.lit);
    flush_literal(&mut top.toks, &mut top.lit);
    let ghost mid = stack@;
    stack.push(top);
    proof {
        lemma_stack_push(mid, top);
        assert(stack_view(stack@) =~= set_top(
            st,
            flush(SpecFrame { lit: trim_end(st.last().lit), ..st.last() }),
        ));
    }
    let ghost mid2 = stack@;
    let fresh = Frame { toks: Vec::new(), lit: Vec::new(), absorbed };
    proof {
        lemma_tokens_view(fresh.toks@);
        assert(tokens_view(fresh.toks@) =~= Seq::<SpecToken>::empty());
    }
    stack.push(fresh);
    proof {
        lemma_stack_push(mid2, fresh);
    }
}

/// Reads a `)` that closes a group, or the end of the input inside one.
fn push_close_group(stack: &mut Vec<Frame>)
    requires
        old(stack)@.len() >= 2,
    ensures
        stack_view(final(stack)@) == close_group(stack_view(old(stack)@)),
        final(stack)@.len() == old(stack)@.len() - 1,
{
    let ghost st = stack_view(stack@);
    proof {
        lemma_stack_drop_last(stack@);
    }
    let mut top = stack.pop().unwrap();
    flush_literal(&mut top.toks, &mut top.lit);
    let children = finish_children(top.toks, top.absorbed);
    proof {
        lemma_stack_drop_last(stack@);
    }
    let mut parent = stack.pop().unwrap();
    let ghost ptoks = parent.toks@;
    proof {
        lemma_tokens_view(ptoks);
    }
    parent.toks.push(Token::Group(children));
    proof {
        let f = flush(st.last());
        lemma_tokens_view_ext(
            parent.toks@,
            tokens_view(ptoks).push(SpecToken::Group(finish_group(f.toks, f.absorbed))),
        );
    }
    let ghost mid = stack@;
    stack.push(parent);
    proof {
        lemma_stack_push(mid, parent);
        let rest = st.drop_last();
        assert(stack_view(stack@) =~= close_group(st));
    }
}

/// Reads `$name`.
fn push_module(stack: &mut Vec<Frame>, name: String)
    requires
        old(stack)@.len() >= 1,
    ensures
        stack_view(final(stack)@) == add_module(stack_view(old(stack)@), name@),
        final(stack)@.len() == old(stack)@.len(),
{
    let ghost st = stack_view(stack@);
    proof {
        lemma_stack_drop_last(stack@);
    }
    let mut top = stack.pop().unwrap();
    flush_literal(&mut top.toks, &mut top.lit);
    let ghost t0 = top.toks@;
    proof {
        lemma_tokens_view(t0);
    }
    top.toks.push(expand_module(name));
    proof {
        lemma_tokens_view_ext(top.toks@, tokens_view(t0).push(expansion(name@)));
    }
    let ghost mid = stack@;
    stack.push(top);
    proof {
        lemma_stack_push(mid, top);
        assert(stack_view(stack@) =~= add_module(st, name@));
    }
}

/// Reads a literal character.
fn push_literal_char(stack: &mut Vec<Frame>, c: char)
    requires
        old(stack)@.len() >= 1,
    ensures
        stack_view(final(stack)@) == add_char(stack_view(old(stack)@), c),
        final(stack)@.len() == old(stack)@.len(),
{
    let ghost st = stack_view(stack@);
    proof {
        lemma_stack_drop_last(stack@);
    }
    let mut top = stack.pop().unwrap();
    top.lit.push(c);
    let ghost mid = stack@;
    stack.push(top);
    proof {
        lemma_stack_push(mid, top);
        assert(stack_view(stack@) =~= add_char(st, c));
    }
}

/// Parses the characters of a format string into tokens.
fn parse_tokens(chars: &Vec<char>) -> (res: Vec<Token>)
    ensures
        tokens_view(res@) == parse(chars@),
{
    let mut stack: Vec<Frame> = Vec::new();
    let first = Frame { toks: Vec::new(), lit: Vec::new(), absorbed: Vec::new() };
    proof {
        lemma_tokens_view(first.toks@);
        assert(tokens_view(first.toks@) =~= Seq::<SpecToken>::empty());
    }
    stack.push(first);
    proof {
        lemma_stack_push(Seq::empty(), first);
        assert(stack_view(stack@) =~= seq![empty_frame()]);
        assert(chars@.skip(0) == chars@);
    }
    let n = chars.len();
    let mut i: usize = 0;
    while i < n
        invariant
            n == chars@.len(),
            i <= n,
            stack@.len() >= 1,
            run(chars@.skip(i as int), stack_view(stack@)) == parse(chars@),
        decreases n - i,
    {
        let ghost r = chars@.skip(i as int);
        let c = chars[i];
        assert(r[0] == c);
        assert(r.drop_first() == chars@.skip(i + 1));
        if c == ')' && stack.len() >= 2 {
            push_close_group(&mut stack);
            i = i + 1;
        } else if c == '(' {
            push_open_group(&mut stack);
            i = i + 1;
        } else if c == '$' && i + 1 < n && is_ident_start(chars[i + 1]) {
            let end = consume_ident(chars, i + 1);
            let name = string_of_range(chars, i + 1, end);
            proof {
                assert(r.drop_first() == chars@.skip(i + 1));
                assert(r[1] == chars@[i + 1]);
                assert(r.skip(1 + ident_len(r.drop_first()) as int) == chars@.skip(end as int));
                assert(r.subrange(1, 1 + ident_len(r.drop_first()) as int) == chars@.subrange(
                    i + 1,
                    end as int,
                ));
            }
            push_module(&mut stack, name);
            i = end;
        } else {
            proof {
                if c == '$' && r.len() >= 2 {
                    assert(r[1] == chars@[i + 1]);
                }
            }
            push_literal_char(&mut stack, c);
            i = i + 1;
        }
    }
    assert(chars@.skip(i as int) =~= Seq::<char>::empty());
    while stack.len() >= 2
        invariant
            stack@.len() >= 1,
            run(Seq::<char>::empty(), stack_view(stack@)) == parse(chars@),
        decreases stack@.len(),
    {
        push_close_group(&mut stack);
    }
    proof {
        lemma_stack_drop_last(stack@);
    }
    let mut top = stack.pop().unwrap();
    flush_literal(&mut top.toks, &mut top.lit);
    top.toks
}

/// Parses a format string into tokens.
pub fn parse_format(fmt: &str) -> (res: Vec<Token>)
    ensures
        tokens_view(res@) == parse(fmt@),
{
    let chars = chars_of(fmt);
    parse_tokens(&chars)
}

/// What the rendering reads besides the payload: the current Unix time,
/// the current git branch (if any) and the local time zone.
pub struct RenderContext {
    pub now: i64,
    pub git_branch: Option<String>,
    pub time_zone: TimeZone,
}

/// The texts of the modules whose output rests on what the contracts
/// cannot pin down: `$project` (the platform's path syntax, for paths that
/// platforms read differently) and `$weekly_reset` (the time zone's offset
/// at the reset instant).
pub struct OutsideTexts {
    pub project: Seq<char>,
    pub weekly_reset: Seq<char>,
}

/// What holds of those texts, whatever the outside calls return.
pub open spec fn outside_texts_ok(input: Input, o: OutsideTexts) -> bool {
    project_outcome(input, o.project) && weekly_reset_outcome(input, o.weekly_reset)
}

/// The text of `$name`; unknown names render nothing.
pub open spec fn module_text(
    name: Seq<char>,
    input: Input,
    ctx: RenderContext,
    o: OutsideTexts,
) -> Seq<char> {
    if name == "model"@ {
        model_text(input)
    } else if name == "cost"@ {
        cost_text(input)
    } else if name == "project"@ {
        o.project
    } else if name == "version"@ {
        version_text(input)
    } else if name == "duration"@ {
        duration_text(duration_ms(input))
    } else if name == "tokens_in"@ {
        group_thousands(decimal(input_tokens(input)))
    } else if name == "tokens_out"@ {
        group_thousands(decimal(output_tokens(input)))
    } else if name == "cache"@ {
        cache_text(input)
    } else if name == "context"@ {
        context::percent_text(input)
    } else if name == "context_bar"@ {
        bar_text(input)
    } else if name == "session"@ {
        rate_limits::percent_text(five_hour(input))
    } else if name == "session_reset"@ {
        session_reset_text(input, ctx.now)
    } else if name == "weekly"@ {
        weekly_text(input, ctx.now)
    } else if name == "weekly_reset"@ {
        o.weekly_reset
    } else if name == "git_branch"@ {
        match ctx.git_branch {
            Some(b) => b@,
            None => Seq::empty(),
        }
    } else {
        Seq::empty()
    }
}

/// Whether rendering `$name` keeps its arithmetic within the integer
/// types it is computed in.
pub open spec fn module_fits(name: Seq<char>, input: Input, ctx: RenderContext) -> bool {
    if name == "model"@ || name == "cost"@ || name == "project"@ || name == "version"@ || name
        == "duration"@ || name == "tokens_in"@ || name == "tokens_out"@ {
        true
    } else if name == "cache"@ {
        cache_fits(input)
    } else if name == "context"@ {
        true
    } else if name == "context_bar"@ {
        bar_fits(input)
    } else if name == "session"@ {
        true
    } else if name == "session_reset"@ {
        session_reset_fits(input, ctx.now)
    } else if name == "weekly"@ {
        weekly_fits(input, ctx.now)
    } else {
        true
    }
}

/// Whether a group's direct children include a module that renders empty.
pub open spec fn group_suppressed(
    ch: Seq<SpecToken>,
    input: Input,
    ctx: RenderContext,
    o: OutsideTexts,
) -> bool {
    exists|i: int|
        0 <= i < ch.len() && #[trigger] ch[i] is Module && module_text(
            ch[i]->Module_0,
            input,
            ctx,
            o,
        ).len() == 0
}

/// The text of a sequence of tokens: their texts one after another.
pub open spec fn tokens_text(
    toks: Seq<SpecToken>,
    input: Input,
    ctx: RenderContext,
    o: OutsideTexts,
) -> Seq<char>
    decreases toks, 1int,
{
    if toks.len() == 0 {
        Seq::empty()
    } else {
        tokens_text(toks.subrange(0, toks.len() - 1), input, ctx, o) + token_text(
            toks[toks.len() - 1],
            input,
            ctx,
            o,
        )
    }
}

/// The text of one token: a literal is itself, a module its rendering, and
/// a group nothing when suppressed, else the text of its children.
pub open spec fn token_text(t: SpecToken, input: Input, ctx: RenderContext, o: OutsideTexts) -> Seq<
    char,
>
    decreases t, 0int,
{
    match t {
        SpecToken::Literal(s) => s,
        SpecToken::Module(n) => module_text(n, input, ctx, o),
        SpecToken::Group(ch) => if group_suppressed(ch, input, ctx, o) {
            Seq::empty()
        } else {
            tokens_text(ch, input, ctx, o)
        },
    }
}

/// Whether rendering the tokens, each in turn, stays within the integer
/// types.
pub open spec fn tokens_fit(
    toks: Seq<SpecToken>,
    input: Input,
    ctx: RenderContext,
    o: OutsideTexts,
) -> bool
    decreases toks, 1int,
{
    if toks.len() == 0 {
        true
    } else {
        tokens_fit(toks.subrange(0, toks.len() - 1), input, ctx, o) && token_fits(
            toks[toks.len() - 1],
            input,
            ctx,
            o,
        )
    }
}

/// Whether rendering one token stays within the integer types.
pub open spec fn token_fits(t: SpecToken, input: Input, ctx: RenderContext, o: OutsideTexts) -> bool
    decreases t, 0int,
{
    match t {
        SpecToken::Literal(_) => true,
        SpecToken::Module(n) => module_fits(n, input, ctx),
        SpecToken::Group(ch) => group_fits(ch, input, ctx, o),
    }
}

/// Whether rendering a group's children stays within the integer types. A
/// group stops at its first module that renders empty, so what follows
/// that module is never computed.
pub open spec fn group_fits(
    ch: Seq<SpecToken>,
    input: Input,
    ctx: RenderContext,
    o: OutsideTexts,
) -> bool
    decreases ch, 1int,
{
    if ch.len() == 0 {
        true
    } else {
        token_fits(ch[0], input, ctx, o) && ((ch[0] is Module && module_text(
            ch[0]->Module_0,
            input,
            ctx,
            o,
        ).len() == 0) || group_fits(ch.subrange(1, ch.len() as int), input, ctx, o))
    }
}

proof fn lemma_tokens_text_step(
    toks: Seq<SpecToken>,
    i: int,
    input: Input,
    ctx: RenderContext,
    o: OutsideTexts,
)
    requires
        0 <= i < toks.len(),
    ensures
        tokens_text(toks.take(i + 1), input, ctx, o) == tokens_text(toks.take(i), input, ctx, o)
            + token_text(toks[i], input, ctx, o),
        tokens_fit(toks.take(i + 1), input, ctx, o) == (tokens_fit(toks.take(i), input, ctx, o)
            && token_fits(toks[i], input, ctx, o)),
{
    assert(toks.take(i + 1).subrange(0, i) == toks.take(i));
}

/// The tokens fit only if every one of them does.
proof fn lemma_tokens_fit_each(toks: Seq<SpecToken>, i: int, input: Input, ctx: RenderContext, o: OutsideTexts)
    requires
        0 <= i < toks.len(),
        tokens_fit(toks, input, ctx, o),
    ensures
        token_fits(toks[i], input, ctx, o),
    decreases toks.len(),
{
    if i < toks.len() - 1 {
        lemma_tokens_fit_each(toks.subrange(0, toks.len() - 1), i, input, ctx, o);
    }
}

/// Renders `$name`, or `None` where its arithmetic leaves the integer types.
fn dispatch(
    name: &str,
    input: &Input,
    ctx: &RenderContext,
    project_text: &String,
    weekly_reset_text: &String,
) -> (res: Option<String>)
    ensures
        res is Some <==> module_fits(name@, *input, *ctx),
        res matches Some(s) ==> s@ == module_text(
            name@,
            *input,
            *ctx,
            OutsideTexts { project: project_text@, weekly_reset: weekly_reset_text@ },
        ),
{
    if same_text(name, "model") {
        Some(model::render(input))
    } else if same_text(name, "cost") {
        Some(cost::render(input))
    } else if same_text(name, "project") {
        Some(project_text.clone())
    } else if same_text(name, "version") {
        Some(version::render(input))
    } else if same_text(name, "duration") {
        Some(duration::render(input))
    } else if same_text(name, "tokens_in") {
        Some(tokens::render_in(input))
    } else if same_text(name, "tokens_out") {
        Some(tokens::render_out(input))
    } else if same_text(name, "cache") {
        cache::render_checked(input)
    } else if same_text(name, "context") {
        Some(context::render_percent(input))
    } else if same_text(name, "context_bar") {
        context::render_bar_checked(input)
    } else if same_text(name, "session") {
        Some(rate_limits::render_session(input))
    } else if same_text(name, "session_reset") {
        if rate_limits::session_reset_fits_check(input, ctx.now) {
            Some(rate_limits::session_reset_with_now(input, ctx.now))
        } else {
            None
        }
    } else if same_text(name, "weekly") {
        if rate_limits::weekly_fits_check(input, ctx.now) {
            Some(rate_limits::weekly_with_now(input, ctx.now))
        } else {
            None
        }
    } else if same_text(name, "weekly_reset") {
        Some(weekly_reset_text.clone())
    } else if same_text(name, "git_branch") {
        Some(
            git_branch::render_name_str(
                match &ctx.git_branch {
                    Some(b) => Some(b.as_str()),
                    None => None,
                },
            ),
        )
    } else {
        Some(String::new())
    }
}

/// Renders a sequence of tokens, or `None` where some arithmetic leaves
/// the integer types.
fn render_tokens(
    tokens: &Vec<Token>,
    input: &Input,
    ctx: &RenderContext,
    project_text: &String,
    weekly_reset_text: &String,
) -> (res: Option<String>)
    ensures
        ({
            let o = OutsideTexts { project: project_text@, weekly_reset: weekly_reset_text@ };
            &&& res is Some <==> tokens_fit(tokens_view(tokens@), *input, *ctx, o)
            &&& res matches Some(s) ==> s@ == tokens_text(tokens_view(tokens@), *input, *ctx, o)
        }),
    decreases tokens@, 2int,
{
    let ghost o = OutsideTexts { project: project_text@, weekly_reset: weekly_reset_text@ };
    let ghost tv = tokens_view(tokens@);
    proof {
        lemma_tokens_view(tokens@);
        assert(tv.take(0) =~= Seq::<SpecToken>::empty());
    }
    let mut out = String::new();
    let mut i: usize = 0;
    while i < tokens.len()
        invariant
            i <= tokens@.len(),
            tv == tokens_view(tokens@),
            tv.len() == tokens@.len(),
            forall|j: int| 0 <= j < tokens@.len() ==> #[trigger] tv[j] == token_view(tokens@[j]),
            o == (OutsideTexts { project: project_text@, weekly_reset: weekly_reset_text@ }),
            tokens_fit(tv.take(i as int), *input, *ctx, o),
            out@ == tokens_text(tv.take(i as int), *input, *ctx, o),
        decreases tokens@.len() - i,
    {
        proof {
            lemma_tokens_text_step(tv, i as int, *input, *ctx, o);
        }
        let piece = match &tokens[i] {
            Token::Literal(s) => Some(s.clone()),
            Token::Module(name) => dispatch(name.as_str(), input, ctx, project_text, weekly_reset_text),
            Token::Group(children) => render_group(children, input, ctx, project_text, weekly_reset_text),
        };
        match piece {
            Some(p) => out.append(p.as_str()),
            None => {
                proof {
                    if tokens_fit(tv, *input, *ctx, o) {
                        lemma_tokens_fit_each(tv, i as int, *input, *ctx, o);
                    }
                }
                return None;
            },
        }
        i = i + 1;
    }
    assert(tv.take(tokens@.len() as int) == tv);
    Some(out)
}

/// Renders a conditional group: nothing as soon as a direct-child module
/// renders empty, otherwise its children one after another. A nested group
/// decides for itself; its emptiness does not suppress this one.
fn render_group(
    children: &Vec<Token>,
    input: &Input,
    ctx: &RenderContext,
    project_text: &String,
    weekly_reset_text: &String,
) -> (res: Option<String>)
    ensures
        ({
            let o = OutsideTexts { project: project_text@, weekly_reset: weekly_reset_text@ };
            let ch = tokens_view(children@);
            &&& res is Some <==> group_fits(ch, *input, *ctx, o)
            &&& res matches Some(s) ==> s@ == token_text(SpecToken::Group(ch), *input, *ctx, o)
        }),
    decreases children@, 1int,
{
    let ghost o = OutsideTexts { project: project_text@, weekly_reset: weekly_reset_text@ };
    let ghost tv = tokens_view(children@);
    proof {
        lemma_tokens_view(children@);
        assert(tv.take(0) =~= Seq::<SpecToken>::empty());
        assert(tv.skip(0) == tv);
    }
    let mut out = String::new();
    let mut i: usize = 0;
    while i < children.len()
        invariant
            i <= children@.len(),
            tv == tokens_view(children@),
            tv.len() == children@.len(),
            forall|j: int| 0 <= j < children@.len() ==> #[trigger] tv[j] == token_view(children@[j]),
            o == (OutsideTexts { project: project_text@, weekly_reset: weekly_reset_text@ }),
            group_fits(tv, *input, *ctx, o) == group_fits(tv.skip(i as int), *input, *ctx, o),
            forall|j: int|
                0 <= j < i ==> !(#[trigger] tv[j] is Module && module_text(
                    tv[j]->Module_0,
                    *input,
                    *ctx,
                    o,
                ).len() == 0),
            out@ == tokens_text(tv.take(i as int), *input, *ctx, o),
        decreases children@.len() - i,
    {
        proof {
            lemma_tokens_text_step(tv, i as int, *input, *ctx, o);
            assert(tv.skip(i as int)[0] == tv[i as int]);
            assert(tv.skip(i as int).subrange(1, tv.skip(i as int).len() as int) == tv.skip(
                i + 1,
            ));
            assert(group_fits(tv.skip(i as int), *input, *ctx, o) == (token_fits(
                tv[i as int],
                *input,
                *ctx,
                o,
            ) && ((tv[i as int] is Module && module_text(tv[i as int]->Module_0, *input, *ctx, o).len()
                == 0) || group_fits(tv.skip(i + 1), *input, *ctx, o))));
        }
        match &children[i] {
            Token::Literal(s) => {
                assert(tv[i as int] == SpecToken::Literal(s@));
                out.append(s.as_str());
            },
            Token::Module(name) => {
                assert(tv[i as int] == SpecToken::Module(name@));
                match dispatch(name.as_str(), input, ctx, project_text, weekly_reset_text) {
                    Some(r) => {
                        if r.as_str().unicode_len() == 0 {
                            proof {
                                assert(tv[i as int] is Module);
                                assert(group_suppressed(tv, *input, *ctx, o));
                            }
                            return Some(String::new());
                        }
                        out.append(r.as_str());
                    },
                    None => {
                        return None;
                    },
                }
            },
            Token::Group(nested) => {
                assert(tv[i as int] == SpecToken::Group(tokens_view(nested@)));
                match render_group(nested, input, ctx, project_text, weekly_reset_text) {
                    Some(r) => out.append(r.as_str()),
                    None => {
                        return None;
                    },
                }
            },
        }
        i = i + 1;
    }
    proof {
        assert(tv.take(children@.len() as int) == tv);
        assert(tv.skip(children@.len() as int) =~= Seq::<SpecToken>::empty());
        assert(!group_suppressed(tv, *input, *ctx, o));
    }
    Some(out)
}

/// Renders a format string for the payload, or returns `None` where the
/// rendering's arithmetic would leave its integer types (which the
/// statusline treats as a fatal overflow).
pub fn try_render(fmt: &str, input: &Input, ctx: &RenderContext) -> (res: Option<String>)
    ensures
        exists|o: OutsideTexts|
            #[trigger] outside_texts_ok(*input, o) && (res is Some <==> tokens_fit(
                parse(fmt@),
                *input,
                *ctx,
                o,
            )) && (res matches Some(s) ==> s@ == tokens_text(parse(fmt@), *input, *ctx, o)),
{
    let project_text = project::render(input);
    let weekly_reset_text = rate_limits::weekly_reset_in_tz(input, &ctx.time_zone);
    let tokens = parse_format(fmt);
    let res = render_tokens(&tokens, input, ctx, &project_text, &weekly_reset_text);
    proof {
        let o = OutsideTexts { project: project_text@, weekly_reset: weekly_reset_text@ };
        assert(outside_texts_ok(*input, o));
    }
    res
}

/// Renders a format string for the payload: literal text verbatim, each
/// `$module` by its renderer, each group as [`token_text`] says.
pub fn render(fmt: &str, input: &Input, ctx: &RenderContext) -> (res: String)
    requires
        forall|o: OutsideTexts|
            #[trigger] outside_texts_ok(*input, o) ==> tokens_fit(parse(fmt@), *input, *ctx, o),
    ensures
        exists|o: OutsideTexts|
            #[trigger] outside_texts_ok(*input, o) && res@ == tokens_text(
                parse(fmt@),
                *input,
                *ctx,
                o,
            ),
{
    match try_render(fmt, input, ctx) {
        Some(s) => s,
        None => String::new(),
    }
}

/// Whether `s` holds no `(` and no `$` that starts a module reference.
pub open spec fn plain_text(s: Seq<char>) -> bool {
    forall|i: int|
        0 <= i < s.len() ==> #[trigger] s[i] != '(' && !(s[i] == '$' && i + 1 < s.len()
            && ident_start(s[i + 1]))
}

proof fn lemma_run_plain(r: Seq<char>, f: SpecFrame)
    requires
        plain_text(r),
    ensures
        run(r, seq![f]) == with_literal(f.toks, f.lit + r),
    decreases r.len(),
{
    if r.len() == 0 {
        assert(f.lit + r == f.lit);
    } else {
        let g = SpecFrame { lit: f.lit.push(r[0]), ..f };
        assert(r[0] != '(');
        if r.len() >= 2 {
            assert(!(r[0] == '$' && ident_start(r[1])));
        }
        assert(add_char(seq![f], r[0]) == seq![g]);
        assert forall|i: int| 0 <= i < r.drop_first().len() implies #[trigger] r.drop_first()[i]
            != '(' && !(r.drop_first()[i] == '$' && i + 1 < r.drop_first().len() && ident_start(
            r.drop_first()[i + 1],
        )) by {
            assert(r.drop_first()[i] == r[i + 1]);
        }
        lemma_run_plain(r.drop_first(), g);
        assert(g.lit + r.drop_first() == f.lit + r);
    }
}

/// Law: text without `(` and without a `$` that starts a name is emitted
/// verbatim. This covers a `$` before a digit, space or punctuation, which
/// stays literal, and a stray `)`, which is literal too.
pub proof fn law_plain_text_renders_verbatim(
    s: Seq<char>,
    input: Input,
    ctx: RenderContext,
    o: OutsideTexts,
)
    requires
        plain_text(s),
    ensures
        parse(s) == (if s.len() == 0 {
            Seq::<SpecToken>::empty()
        } else {
            seq![SpecToken::Literal(s)]
        }),
        tokens_text(parse(s), input, ctx, o) == s,
{
    lemma_run_plain(s, empty_frame());
    assert(Seq::<char>::empty() + s == s);
    if s.len() > 0 {
        let t = seq![SpecToken::Literal(s)];
        assert(t.subrange(0, 0) =~= Seq::<SpecToken>::empty());
        assert(tokens_text(Seq::<SpecToken>::empty(), input, ctx, o) == Seq::<char>::empty());
        assert(token_text(t[0], input, ctx, o) == s);
        assert(tokens_text(t, input, ctx, o) == Seq::<char>::empty() + s);
    }
}

/// The text a literal or a module reference is read from: the literal
/// itself, or `$` and the name. Groups are not covered: their padding is
/// rearranged by the parse.
pub open spec fn token_source(t: SpecToken) -> Seq<char> {
    match t {
        SpecToken::Literal(l) => l,
        SpecToken::Module(n) => "$"@ + n,
        SpecToken::Group(_) => Seq::empty(),
    }
}

/// The texts of the tokens, one after the other.
pub open spec fn tokens_source(s: Seq<SpecToken>) -> Seq<char>
    decreases s.len(),
{
    if s.len() == 0 {
        Seq::empty()
    } else {
        tokens_source(s.drop_last()) + token_source(s.last())
    }
}

/// Whether `s` opens no group: it holds no `(` and no `$git_branch_sep`.
pub open spec fn groupless(s: Seq<char>) -> bool {
    &&& forall|i: int| 0 <= i < s.len() ==> #[trigger] s[i] != '('
    &&& !is_infix("$git_branch_sep"@, s)
}

/// Whether none of the tokens is a group.
pub open spec fn no_groups(s: Seq<SpecToken>) -> bool {
    forall|i: int| 0 <= i < s.len() ==> !(#[trigger] s[i] is Group)
}

proof fn lemma_groupless_skip(r: Seq<char>, k: int)
    requires
        groupless(r),
        0 <= k <= r.len(),
    ensures
        groupless(r.skip(k)),
{
    let q = r.skip(k);
    assert forall|i: int| 0 <= i < q.len() implies #[trigger] q[i] != '(' by {
        assert(q[i] == r[i + k]);
    }
    let x = "$git_branch_sep"@;
    if is_infix(x, q) {
        let i = choose|i: int| 0 <= i && i + x.len() <= q.len() && #[trigger] q.subrange(i, i + x.len()) == x;
        assert(r.subrange(i + k, i + k + x.len()) =~= q.subrange(i, i + x.len()));
        assert(is_infix(x, r));
    }
}

proof fn lemma_source_push(s: Seq<SpecToken>, t: SpecToken)
    ensures
        tokens_source(s.push(t)) == tokens_source(s) + token_source(t),
{
    assert(s.push(t).drop_last() == s);
}

proof fn lemma_run_groupless(r: Seq<char>, f: SpecFrame)
    requires
        groupless(r),
        no_groups(f.toks),
    ensures
        tokens_source(run(r, seq![f])) == tokens_source(f.toks) + f.lit + r,
        no_groups(run(r, seq![f])),
    decreases r.len(),
{
    if r.len() == 0 {
        assert(f.lit + r == f.lit);
        if f.lit.len() > 0 {
            lemma_source_push(f.toks, SpecToken::Literal(f.lit));
            assert(no_groups(f.toks.push(SpecToken::Literal(f.lit)))) by {
                let q = f.toks.push(SpecToken::Literal(f.lit));
                assert forall|i: int| 0 <= i < q.len() implies !(#[trigger] q[i] is Group) by {
                    if i < f.toks.len() {
                        assert(q[i] == f.toks[i]);
                    }
                }
            }
        } else {
            assert(tokens_source(f.toks) + f.lit =~= tokens_source(f.toks));
        }
    } else {
        assert(r[0] != '(');
        if r[0] == '$' && r.len() >= 2 && ident_start(r[1]) {
            let n = ident_len(r.drop_first()) as int;
            lemma_ident_len(r.drop_first());
            let name = r.subrange(1, 1 + n);
            reveal_strlit("$git_branch_sep");
            reveal_strlit("git_branch_sep");
            reveal_strlit("$");
            if name == "git_branch_sep"@ {
                let x = "$git_branch_sep"@;
                assert(name.len() == n);
                assert("git_branch_sep"@.len() == 14);
                assert(n == 14);
                assert(x =~= seq!['$'] + "git_branch_sep"@);
                assert(r.subrange(0int, 0int + x.len()) =~= x);
                assert(is_infix(x, r));
            }
            assert(expansion(name) == SpecToken::Module(name));
            let ff = flush(f);
            let g = SpecFrame { toks: ff.toks.push(SpecToken::Module(name)), ..ff };
            assert(add_module(seq![f], name) == seq![g]);
            assert(tokens_source(ff.toks) == tokens_source(f.toks) + f.lit) by {
                if f.lit.len() > 0 {
                    lemma_source_push(f.toks, SpecToken::Literal(f.lit));
                } else {
                    assert(tokens_source(f.toks) + f.lit =~= tokens_source(f.toks));
                }
            }
            lemma_source_push(ff.toks, SpecToken::Module(name));
            assert forall|i: int| 0 <= i < g.toks.len() implies !(#[trigger] g.toks[i] is Group) by {
                if i < f.toks.len() {
                    assert(g.toks[i] == f.toks[i]);
                }
            }
            lemma_groupless_skip(r, 1 + n);
            lemma_run_groupless(r.skip(1 + n), g);
            assert(g.lit.len() == 0);
            assert(r =~= seq!['$'] + name + r.skip(1 + n));
            assert("$"@ =~= seq!['$']);
            assert(tokens_source(g.toks) + g.lit + r.skip(1 + n) =~= tokens_source(f.toks) + f.lit + r);
        } else {
            let g = SpecFrame { lit: f.lit.push(r[0]), ..f };
            assert(add_char(seq![f], r[0]) == seq![g]);
            lemma_groupless_skip(r, 1);
            assert(r.skip(1) == r.drop_first());
            lemma_run_groupless(r.drop_first(), g);
            assert(g.lit + r.drop_first() =~= f.lit + r);
            assert(tokens_source(g.toks) + g.lit + r.drop_first() =~= tokens_source(f.toks) + f.lit + r);
        }
    }
}

/// Law: text that opens no group reads back from its tokens: each literal
/// is the text between module references, verbatim (a stray `)` and a `$`
/// not followed by a name stay literal), and each module is `$` and its
/// name. No group appears, and only the empty string parses to nothing.
pub proof fn law_parse_round_trip(s: Seq<char>)
    requires
        groupless(s),
    ensures
        tokens_source(parse(s)) == s,
        no_groups(parse(s)),
        parse(s).len() == 0 <==> s.len() == 0,
{
    lemma_run_groupless(s, empty_frame());
    assert(tokens_source(empty_frame().toks) + empty_frame().lit + s =~= s);
    if s.len() == 0 {
        assert(parse(s) == flush(empty_frame()).toks);
    }
}

/// Whether `$name` names one of the modules.
pub open spec fn known_module(name: Seq<char>) -> bool {
    ||| name == "model"@
    ||| name == "cost"@
    ||| name == "project"@
    ||| name == "version"@
    ||| name == "duration"@
    ||| name == "tokens_in"@
    ||| name == "tokens_out"@
    ||| name == "cache"@
    ||| name == "context"@
    ||| name == "context_bar"@
    ||| name == "session"@
    ||| name == "session_reset"@
    ||| name == "weekly"@
    ||| name == "weekly_reset"@
    ||| name == "git_branch"@
}

/// The names of the unknown modules a token refers to, at any depth.
pub open spec fn token_unknown(t: SpecToken) -> Seq<Seq<char>>
    decreases t, 0int,
{
    match t {
        SpecToken::Literal(_) => Seq::empty(),
        SpecToken::Module(n) => if known_module(n) {
            Seq::empty()
        } else {
            seq![n]
        },
        SpecToken::Group(ch) => tokens_unknown(ch),
    }
}

/// The names of the unknown modules the tokens refer to, in order.
pub open spec fn tokens_unknown(s: Seq<SpecToken>) -> Seq<Seq<char>>
    decreases s, 1int,
{
    if s.len() == 0 {
        Seq::empty()
    } else {
        tokens_unknown(s.subrange(0, s.len() - 1)) + token_unknown(s[s.len() - 1])
    }
}

/// The texts of a sequence of strings.
pub open spec fn texts_view(v: Seq<String>) -> Seq<Seq<char>> {
    Seq::new(v.len(), |i: int| v[i]@)
}

/// Whether `name` names one of the modules.
pub fn is_known_module(name: &str) -> (res: bool)
    ensures
        res == known_module(name@),
{
    same_text(name, "model") || same_text(name, "cost") || same_text(name, "project")
        || same_text(name, "version") || same_text(name, "duration") || same_text(
        name,
        "tokens_in",
    ) || same_text(name, "tokens_out") || same_text(name, "cache") || same_text(name, "context")
        || same_text(name, "context_bar") || same_text(name, "session") || same_text(
        name,
        "session_reset",
    ) || same_text(name, "weekly") || same_text(name, "weekly_reset") || same_text(
        name,
        "git_branch",
    )
}

/// The names of the `$name` references, at any depth and in order, that
/// name no module: each renders nothing, and the statusline warns of them.
pub fn unknown_modules(tokens: &Vec<Token>) -> (res: Vec<String>)
    ensures
        texts_view(res@) == tokens_unknown(tokens_view(tokens@)),
    decreases tokens@,
{
    let ghost tv = tokens_view(tokens@);
    proof {
        lemma_tokens_view(tokens@);
        assert(tv.take(0) =~= Seq::<SpecToken>::empty());
        assert(texts_view(Seq::<String>::empty()) =~= Seq::<Seq<char>>::empty());
    }
    let mut out: Vec<String> = Vec::new();
    let mut i: usize = 0;
    while i < tokens.len()
        invariant
            i <= tokens@.len(),
            tv == tokens_view(tokens@),
            tv.len() == tokens@.len(),
            forall|j: int| 0 <= j < tokens@.len() ==> #[trigger] tv[j] == token_view(tokens@[j]),
            texts_view(out@) == tokens_unknown(tv.take(i as int)),
        decreases tokens@.len() - i,
    {
        let ghost before = out@;
        proof {
            assert(tv.take(i + 1).subrange(0, i as int) =~= tv.take(i as int));
            assert(tv.take(i + 1)[i as int] == tv[i as int]);
        }
        match &tokens[i] {
            Token::Literal(s) => {
                assert(tv[i as int] == SpecToken::Literal(s@));
                assert(texts_view(out@) =~= texts_view(before) + token_unknown(tv[i as int]));
            },
            Token::Module(name) => {
                assert(tv[i as int] == SpecToken::Module(name@));
                if !is_known_module(name.as_str()) {
                    out.push(name.clone());
                    assert(texts_view(out@) =~= texts_view(before) + seq![name@]);
                } else {
                    assert(texts_view(out@) =~= texts_view(before) + token_unknown(tv[i as int]));
                }
            },
            Token::Group(children) => {
                assert(tv[i as int] == SpecToken::Group(tokens_view(children@)));
                let mut inner = unknown_modules(children);
                let ghost inner_view = inner@;
                out.append(&mut inner);
                assert(texts_view(out@) =~= texts_view(before) + texts_view(inner_view));
            },
        }
        proof {
            let t1 = tv.take(i + 1);
            assert(tokens_unknown(t1) == tokens_unknown(t1.subrange(0, i as int)) + token_unknown(
                t1[i as int],
            ));
            assert(texts_view(out@) == tokens_unknown(tv.take(i as int)) + token_unknown(tv[i as int]));
        }
        i = i + 1;
    }
    assert(tv.take(tokens@.len() as int) == tv);
    out
}

/// The parse state `st` with the tokens `t` placed before those of its
/// outermost level.
spec fn with_outer_prefix(st: Seq<SpecFrame>, t: Seq<SpecToken>) -> Seq<SpecFrame> {
    st.update(0, SpecFrame { toks: t + st[0].toks, ..st[0] })
}

proof fn lemma_with_literal_prefix(t: Seq<SpecToken>, a: Seq<SpecToken>, l: Seq<char>)
    ensures
        with_literal(t + a, l) == t + with_literal(a, l),
        forall|x: SpecToken| #[trigger] (t + a).push(x) == t + a.push(x),
{
    assert forall|x: SpecToken| #[trigger] (t + a).push(x) == t + a.push(x) by {
        assert((t + a).push(x) =~= t + a.push(x));
    }
    if l.len() > 0 {
        assert((t + a).push(SpecToken::Literal(l)) == t + a.push(SpecToken::Literal(l)));
    }
}

/// Tokens already before the outermost level ride along every step.
proof fn lemma_steps_keep_outer_prefix(
    st: Seq<SpecFrame>,
    t: Seq<SpecToken>,
    c: char,
    name: Seq<char>,
)
    requires
        st.len() >= 1,
    ensures
        add_char(with_outer_prefix(st, t), c) == with_outer_prefix(add_char(st, c), t),
        add_module(with_outer_prefix(st, t), name) == with_outer_prefix(add_module(st, name), t),
        open_group(with_outer_prefix(st, t)) == with_outer_prefix(open_group(st), t),
        st.len() >= 2 ==> close_group(with_outer_prefix(st, t)) == with_outer_prefix(
            close_group(st),
            t,
        ),
{
    let w = with_outer_prefix(st, t);
    let f = st.last();
    let n = st.len();
    if n == 1 {
        let fw = w.last();
        assert(fw == SpecFrame { toks: t + f.toks, ..f });
        assert(add_char(w, c) =~= with_outer_prefix(add_char(st, c), t));
        lemma_with_literal_prefix(t, f.toks, f.lit);
        let fl = flush(f);
        lemma_with_literal_prefix(t, fl.toks, Seq::empty());
        assert(flush(fw) == SpecFrame { toks: t + fl.toks, ..fl });
        assert(add_module(w, name) =~= with_outer_prefix(add_module(st, name), t));
        let kept = trim_end(f.lit);
        lemma_with_literal_prefix(t, f.toks, kept);
        assert(flush(SpecFrame { lit: kept, ..fw }) == SpecFrame {
            toks: t + flush(SpecFrame { lit: kept, ..f }).toks,
            ..flush(SpecFrame { lit: kept, ..f })
        });
        assert(open_group(w) =~= with_outer_prefix(open_group(st), t));
    } else {
        assert(w.last() == f);
        assert(add_char(w, c) =~= with_outer_prefix(add_char(st, c), t));
        assert(add_module(w, name) =~= with_outer_prefix(add_module(st, name), t));
        assert(open_group(w) =~= with_outer_prefix(open_group(st), t));
        let fl = flush(f);
        let grp = SpecToken::Group(finish_group(fl.toks, fl.absorbed));
        let rest = st.drop_last();
        let p = rest.last();
        assert(w.drop_last() =~= with_outer_prefix(rest, t));
        if n == 2 {
            lemma_with_literal_prefix(t, p.toks, Seq::empty());
            assert(with_outer_prefix(rest, t).last() == SpecFrame { toks: t + p.toks, ..p });
            assert(close_group(w) =~= with_outer_prefix(close_group(st), t));
        } else {
            assert(with_outer_prefix(rest, t).last() == p);
            assert(close_group(w) =~= with_outer_prefix(close_group(st), t));
        }
    }
}

/// Parsing on from a state whose outermost level already holds `t` gives
/// `t` followed by what parsing on without it gives.
proof fn lemma_run_outer_prefix(r: Seq<char>, st: Seq<SpecFrame>, t: Seq<SpecToken>)
    requires
        st.len() >= 1,
    ensures
        run(r, with_outer_prefix(st, t)) == t + run(r, st),
    decreases r.len(), st.len(),
{
    let w = with_outer_prefix(st, t);
    assert(w.len() == st.len());
    if r.len() == 0 {
        if st.len() == 1 {
            lemma_with_literal_prefix(t, st[0].toks, st[0].lit);
            assert(w[0] == SpecFrame { toks: t + st[0].toks, ..st[0] });
        } else {
            lemma_steps_keep_outer_prefix(st, t, ' ', Seq::empty());
            lemma_run_outer_prefix(r, close_group(st), t);
        }
    } else if r[0] == ')' && st.len() >= 2 {
        lemma_steps_keep_outer_prefix(st, t, ' ', Seq::empty());
        lemma_run_outer_prefix(r.drop_first(), close_group(st), t);
    } else if r[0] == '(' {
        lemma_steps_keep_outer_prefix(st, t, ' ', Seq::empty());
        lemma_run_outer_prefix(r.drop_first(), open_group(st), t);
    } else if r[0] == '$' && r.len() >= 2 && ident_start(r[1]) {
        let n = ident_len(r.drop_first()) as int;
        lemma_ident_len(r.drop_first());
        let name = r.subrange(1, 1 + n);
        lemma_steps_keep_outer_prefix(st, t, ' ', name);
        lemma_run_outer_prefix(r.skip(1 + n), add_module(st, name), t);
    } else {
        lemma_steps_keep_outer_prefix(st, t, r[0], Seq::empty());
        lemma_run_outer_prefix(r.drop_first(), add_char(st, r[0]), t);
    }
}

/// Whether `c` is an ASCII letter, digit or `_`.
pub open spec fn ascii_word_char(c: char) -> bool {
    ('a' <= c <= 'z') || ('A' <= c <= 'Z') || ('0' <= c <= '9') || c == '_'
}

/// Law: a module name is made of ASCII letters, digits and `_` only, so
/// it ends at the first other character. For a name `n` that starts with a
/// letter or `_` (and is not the `git_branch_sep` alias), `$n` followed by
/// any other character `c` parses as the module `n` and then `c` and the
/// rest as they parse on their own: punctuation after a name stays text.
pub proof fn law_module_name_ends_at_non_word_char(n: Seq<char>, c: char, rest: Seq<char>)
    requires
        n.len() > 0,
        ('a' <= n[0] <= 'z') || ('A' <= n[0] <= 'Z') || n[0] == '_',
        forall|i: int| 0 <= i < n.len() ==> ascii_word_char(#[trigger] n[i]),
        n != "git_branch_sep"@,
        !ascii_word_char(c),
    ensures
        parse(seq!['$'] + n + seq![c] + rest) == seq![SpecToken::Module(n)] + parse(
            seq![c] + rest,
        ),
{
    let tail = seq![c] + rest;
    let s = seq!['$'] + n + tail;
    assert(s =~= seq!['$'] + (n + tail));
    assert(s[0] == '$');
    assert(s[1] == n[0]);
    assert(s.drop_first() =~= n + tail);
    lemma_ident_len_append(n, tail);
    assert(ident_len(n) == n.len()) by {
        lemma_ident_len(n);
        if ident_len(n) < n.len() {
            assert(ident_continue(n[ident_len(n) as int]));
        }
    }
    assert(s.subrange(1, 1 + n.len() as int) =~= n);
    assert(s.skip(1 + n.len() as int) =~= tail);
    let e = empty_frame();
    let after = add_module(seq![e], n);
    assert(expansion(n) == SpecToken::Module(n));
    assert(after =~= with_outer_prefix(seq![e], seq![SpecToken::Module(n)]));
    lemma_run_outer_prefix(tail, seq![e], seq![SpecToken::Module(n)]);
    assert(!ident_continue(tail[0]));
    assert(ident_len(s.drop_first()) == n.len());
    assert(ident_start(s[1]));
    assert(parse(s) == run(s.skip(1 + n.len() as int), add_module(seq![e], s.subrange(1, 1 + n.len() as int))));
    assert(parse(s) == run(tail, after));
    assert(seq!['$'] + n + seq![c] + rest =~= s);
}

/// Law: each module name renders its own module's text on the payload,
/// and no other's. `$tokens_in` and `$tokens_out` read the window's total
/// input and output tokens (0 when either is missing), grouped by
/// thousands; `$git_branch` is the branch, or nothing off a branch; and
/// every other name renders what its module renders.
#[verifier::spinoff_prover]
#[verifier::rlimit(40)]
pub proof fn law_each_module_renders_its_own_text(
    input: Input,
    ctx: RenderContext,
    o: OutsideTexts,
)
    ensures
        module_text("tokens_in"@, input, ctx, o) == group_thousands(decimal(
            match input.context_window {
                Some(c) => match c.total_input_tokens {
                    Some(n) => n as nat,
                    None => 0,
                },
                None => 0,
            },
        )),
        module_text("tokens_out"@, input, ctx, o) == group_thousands(decimal(
            match input.context_window {
                Some(c) => match c.total_output_tokens {
                    Some(n) => n as nat,
                    None => 0,
                },
                None => 0,
            },
        )),
        module_text("git_branch"@, input, ctx, o) == match ctx.git_branch {
            Some(b) => b@,
            None => Seq::<char>::empty(),
        },
        module_text("model"@, input, ctx, o) == model_text(input),
        module_text("cost"@, input, ctx, o) == cost_text(input),
        module_text("project"@, input, ctx, o) == o.project,
        module_text("version"@, input, ctx, o) == version_text(input),
        module_text("duration"@, input, ctx, o) == duration_text(duration_ms(input)),
        module_text("cache"@, input, ctx, o) == cache_text(input),
        module_text("context"@, input, ctx, o) == context::percent_text(input),
        module_text("context_bar"@, input, ctx, o) == bar_text(input),
        module_text("session"@, input, ctx, o) == rate_limits::percent_text(five_hour(input)),
        module_text("session_reset"@, input, ctx, o) == session_reset_text(input, ctx.now),
        module_text("weekly"@, input, ctx, o) == weekly_text(input, ctx.now),
        module_text("weekly_reset"@, input, ctx, o) == o.weekly_reset,
{
    reveal_strlit("model");
    reveal_strlit("cost");
    reveal_strlit("project");
    reveal_strlit("version");
    reveal_strlit("duration");
    reveal_strlit("tokens_in");
    reveal_strlit("tokens_out");
    reveal_strlit("cache");
    reveal_strlit("context");
    reveal_strlit("context_bar");
    reveal_strlit("session");
    reveal_strlit("session_reset");
    reveal_strlit("weekly");
    reveal_strlit("weekly_reset");
    reveal_strlit("git_branch");
    assert("model"@.len() == 5 && "model"@[0] == 'm');
    assert("cost"@.len() == 4 && "cost"@[0] == 'c');
    assert("project"@.len() == 7 && "project"@[0] == 'p');
    assert("version"@.len() == 7 && "version"@[0] == 'v');
    assert("duration"@.len() == 8 && "duration"@[0] == 'd');
    assert("tokens_in"@.len() == 9 && "tokens_in"@[0] == 't');
    assert("tokens_out"@.len() == 10 && "tokens_out"@[0] == 't');
    assert("cache"@.len() == 5 && "cache"@[0] == 'c');
    assert("context"@.len() == 7 && "context"@[0] == 'c');
    assert("context_bar"@.len() == 11 && "context_bar"@[0] == 'c');
    assert("session"@.len() == 7 && "session"@[0] == 's');
    assert("session_reset"@.len() == 13 && "session_reset"@[0] == 's');
    assert("weekly"@.len() == 6 && "weekly"@[0] == 'w');
    assert("weekly_reset"@.len() == 12 && "weekly_reset"@[0] == 'w');
    assert("git_branch"@.len() == 10 && "git_branch"@[0] == 'g');
    assert(module_text("tokens_in"@, input, ctx, o) == group_thousands(decimal(input_tokens(input))));
    assert(module_text("tokens_out"@, input, ctx, o) == group_thousands(decimal(output_tokens(input))));
}

/// Law: a name that is none of the known modules renders nothing.
pub proof fn law_unknown_module_renders_empty(
    name: Seq<char>,
    input: Input,
    ctx: RenderContext,
    o: OutsideTexts,
)
    requires
        !known_module(name),
    ensures
        module_text(name, input, ctx, o) == Seq::<char>::empty(),
        module_fits(name, input, ctx),
{
}

/// Law: a group with a direct-child module that renders empty disappears
/// as a whole, its literal separators included.
pub proof fn law_group_vanishes_with_empty_module(
    ch: Seq<SpecToken>,
    i: int,
    input: Input,
    ctx: RenderContext,
    o: OutsideTexts,
)
    requires
        0 <= i < ch.len(),
        ch[i] is Module,
        module_text(ch[i]->Module_0, input, ctx, o).len() == 0,
    ensures
        token_text(SpecToken::Group(ch), input, ctx, o) == Seq::<char>::empty(),
{
    assert(group_suppressed(ch, input, ctx, o));
}

/// Law: a group all of whose direct-child modules render something shows
/// all its children; an empty nested group does not suppress it.
pub proof fn law_nested_group_does_not_bubble(
    name: Seq<char>,
    inner: Seq<SpecToken>,
    input: Input,
    ctx: RenderContext,
    o: OutsideTexts,
)
    requires
        module_text(name, input, ctx, o).len() > 0,
        group_suppressed(inner, input, ctx, o),
    ensures
        token_text(
            SpecToken::Group(seq![SpecToken::Module(name), SpecToken::Group(inner)]),
            input,
            ctx,
            o,
        ) == module_text(name, input, ctx, o),
{
    let ch = seq![SpecToken::Module(name), SpecToken::Group(inner)];
    assert forall|i: int|
        0 <= i < ch.len() && #[trigger] ch[i] is Module implies module_text(
        ch[i]->Module_0,
        input,
        ctx,
        o,
    ).len() != 0 by {
        assert(i == 0);
    }
    assert(!group_suppressed(ch, input, ctx, o));
    assert(ch.subrange(0, 1) =~= seq![SpecToken::Module(name)]);
    assert(ch.subrange(0, 1).subrange(0, 0) =~= Seq::<SpecToken>::empty());
    assert(tokens_text(Seq::<SpecToken>::empty(), input, ctx, o) == Seq::<char>::empty());
    let one = ch.subrange(0, 1);
    assert(one[0] == SpecToken::Module(name));
    assert(one.subrange(0, 0) =~= Seq::<SpecToken>::empty());
    assert(token_text(one[0], input, ctx, o) == module_text(name, input, ctx, o));
    assert(tokens_text(ch.subrange(0, 1), input, ctx, o) == Seq::<char>::empty() + module_text(
        name,
        input,
        ctx,
        o,
    ));
    assert(token_text(SpecToken::Group(inner), input, ctx, o) == Seq::<char>::empty());
}

/// Whether `n` can be the name of a `$name` reference after parsing: an
/// identifier (a letter or `_`, then letters, digits or `_`) other than
/// `git_branch_sep`, which the parse expands.
pub open spec fn module_name_ok(n: Seq<char>) -> bool {
    &&& n.len() > 0
    &&& ident_start(n[0])
    &&& forall|i: int| 0 <= i < n.len() ==> #[trigger] ident_continue(n[i])
    &&& n != "git_branch_sep"@
}

/// Whether no two neighbouring tokens of `s` are both literals.
pub open spec fn no_adjacent_literals(s: Seq<SpecToken>) -> bool {
    forall|i: int, j: int|
        #![trigger s[i], s[j]]
        0 <= i && j == i + 1 && j < s.len() ==> !(s[i] is Literal && s[j] is Literal)
}

/// The shape a parse gives a token: a literal holds some text, a module
/// has a [`module_name_ok`] name, and a group's children are shaped and
/// hold no two neighbouring literals.
pub open spec fn token_shaped(t: SpecToken) -> bool
    decreases t, 0int,
{
    match t {
        SpecToken::Literal(s) => s.len() > 0,
        SpecToken::Module(n) => module_name_ok(n),
        SpecToken::Group(ch) => all_shaped(ch) && no_adjacent_literals(ch),
    }
}

/// Whether [`token_shaped`] holds of each token.
pub open spec fn all_shaped(s: Seq<SpecToken>) -> bool
    decreases s, 1int,
{
    s.len() == 0 || (all_shaped(s.subrange(0, s.len() - 1)) && token_shaped(s[s.len() - 1]))
}

/// Whether a sequence of tokens has the shape a parse gives it, at every
/// depth.
pub open spec fn tokens_shaped(s: Seq<SpecToken>) -> bool {
    all_shaped(s) && no_adjacent_literals(s)
}

proof fn lemma_all_shaped(s: Seq<SpecToken>)
    ensures
        all_shaped(s) <==> forall|i: int| 0 <= i < s.len() ==> #[trigger] token_shaped(s[i]),
    decreases s.len(),
{
    if s.len() > 0 {
        let p = s.subrange(0, s.len() - 1);
        lemma_all_shaped(p);
        if forall|i: int| 0 <= i < s.len() ==> #[trigger] token_shaped(s[i]) {
            assert forall|i: int| 0 <= i < p.len() implies #[trigger] token_shaped(p[i]) by {
                assert(p[i] == s[i]);
            }
            assert(token_shaped(s[s.len() - 1]));
            assert(all_shaped(s));
        }
        if all_shaped(s) {
            assert forall|i: int| 0 <= i < s.len() implies #[trigger] token_shaped(s[i]) by {
                if i < s.len() - 1 {
                    assert(p[i] == s[i]);
                }
            }
        }
    }
}

/// Whether a token sequence is shaped and does not end in a literal, so
/// that a literal may follow it.
spec fn open_for_literal(toks: Seq<SpecToken>) -> bool {
    toks.len() == 0 || !(toks.last() is Literal)
}

/// The invariant of a parse state: every level holds shaped tokens with no
/// neighbouring literals; the outer levels have no pending text; and the
/// innermost level does not end in a literal.
spec fn stack_shaped(stack: Seq<SpecFrame>) -> bool {
    &&& forall|k: int| 0 <= k < stack.len() ==> #[trigger] tokens_shaped(stack[k].toks)
    &&& forall|k: int| 0 <= k < stack.len() - 1 ==> (#[trigger] stack[k].lit).len() == 0
    &&& stack.len() > 0 ==> open_for_literal(stack.last().toks)
}

proof fn lemma_push_shaped(toks: Seq<SpecToken>, t: SpecToken)
    requires
        tokens_shaped(toks),
        token_shaped(t),
        t is Literal ==> open_for_literal(toks),
    ensures
        tokens_shaped(toks.push(t)),
        !(t is Literal) ==> open_for_literal(toks.push(t)),
{
    assert(toks.push(t).subrange(0, toks.len() as int) == toks);
    let q = toks.push(t);
    assert forall|i: int, j: int| 0 <= i && j == i + 1 && j < q.len() implies !(
    #[trigger] q[i] is Literal && #[trigger] q[j] is Literal) by {
        if j < toks.len() {
            assert(q[i] == toks[i] && q[j] == toks[j]);
        } else {
            assert(q[i] == toks.last());
        }
    }
}

proof fn lemma_flush_shaped(f: SpecFrame)
    requires
        tokens_shaped(f.toks),
        open_for_literal(f.toks),
    ensures
        tokens_shaped(flush(f).toks),
{
    if f.lit.len() > 0 {
        lemma_push_shaped(f.toks, SpecToken::Literal(f.lit));
    }
}

proof fn lemma_finish_group_shaped(toks: Seq<SpecToken>, absorbed: Seq<char>)
    requires
        tokens_shaped(toks),
    ensures
        tokens_shaped(finish_group(toks, absorbed)),
{
    lemma_all_shaped(toks);
    let stripped = if toks.len() > 0 && toks.last() is Literal {
        let t = trim_end(toks.last()->Literal_0);
        if t.len() == 0 {
            toks.drop_last()
        } else {
            toks.update(toks.len() - 1, SpecToken::Literal(t))
        }
    } else {
        toks
    };
    assert forall|i: int| 0 <= i < stripped.len() implies #[trigger] token_shaped(stripped[i]) by {
        if i < toks.len() - 1 {
            assert(stripped[i] == toks[i]);
        }
    }
    assert forall|i: int| 0 <= i < stripped.len() implies (#[trigger] stripped[i] is Literal
        <==> toks[i] is Literal) by {
        if i < toks.len() - 1 {
            assert(stripped[i] == toks[i]);
        }
    }
    assert forall|i: int, j: int| 0 <= i && j == i + 1 && j < stripped.len() implies !(
    #[trigger] stripped[i] is Literal && #[trigger] stripped[j] is Literal) by {
        assert(toks[i] is Literal <==> stripped[i] is Literal);
        assert(toks[j] is Literal <==> stripped[j] is Literal);
    }
    let res = finish_group(toks, absorbed);
    if absorbed.len() > 0 {
        if stripped.len() > 0 && stripped[0] is Literal {
            assert forall|i: int| 0 <= i < res.len() implies #[trigger] token_shaped(res[i]) by {
                if i > 0 {
                    assert(res[i] == stripped[i]);
                }
            }
            assert forall|i: int, j: int| 0 <= i && j == i + 1 && j < res.len() implies !(
            #[trigger] res[i] is Literal && #[trigger] res[j] is Literal) by {
                assert(res[j] == stripped[j]);
                if i > 0 {
                    assert(res[i] == stripped[i]);
                }
            }
        } else {
            assert forall|i: int| 0 <= i < res.len() implies #[trigger] token_shaped(res[i]) by {
                if i > 0 {
                    assert(res[i] == stripped[i - 1]);
                }
            }
            assert forall|i: int, j: int| 0 <= i && j == i + 1 && j < res.len() implies !(
            #[trigger] res[i] is Literal && #[trigger] res[j] is Literal) by {
                assert(res[j] == stripped[j - 1]);
                if i > 0 {
                    assert(res[i] == stripped[i - 1]);
                }
            }
        }
    }
    lemma_all_shaped(stripped);
    lemma_all_shaped(res);
}

proof fn lemma_expansion_shaped(name: Seq<char>)
    requires
        name.len() > 0,
        ident_start(name[0]),
        forall|i: int| 0 <= i < name.len() ==> #[trigger] ident_continue(name[i]),
    ensures
        token_shaped(expansion(name)),
{
    if name == "git_branch_sep"@ {
        reveal_strlit(" | 🌿 ");
        reveal_strlit("git_branch");
        reveal_strlit("git_branch_sep");
        let m = "git_branch"@;
        assert(m.len() == 10);
        assert(m != "git_branch_sep"@);
        assert forall|i: int| 0 <= i < m.len() implies #[trigger] ident_continue(m[i]) by {}
        assert(module_name_ok(m));
        let ch = seq![SpecToken::Literal(" | 🌿 "@), SpecToken::Module(m)];
        lemma_all_shaped(ch);
        assert(all_shaped(ch));
        assert(no_adjacent_literals(ch));
    }
}

proof fn lemma_run_shaped(r: Seq<char>, stack: Seq<SpecFrame>)
    requires
        stack_shaped(stack),
    ensures
        tokens_shaped(run(r, stack)),
    decreases r.len(), stack.len(),
{
    if stack.len() == 0 {
    } else if r.len() == 0 {
        if stack.len() == 1 {
            assert(tokens_shaped(stack[0].toks));
            lemma_flush_shaped(stack[0]);
        } else {
            lemma_close_shaped(stack);
            lemma_run_shaped(r, close_group(stack));
        }
    } else if r[0] == ')' && stack.len() >= 2 {
        lemma_close_shaped(stack);
        lemma_run_shaped(r.drop_first(), close_group(stack));
    } else if r[0] == '(' {
        let f = stack.last();
        let kept = trim_end(f.lit);
        assert(tokens_shaped(stack[stack.len() - 1].toks));
        lemma_flush_shaped(SpecFrame { lit: kept, ..f });
        let st = open_group(stack);
        assert forall|k: int| 0 <= k < st.len() implies #[trigger] tokens_shaped(st[k].toks) by {
            if k == st.len() - 1 {
                assert(st[k].toks =~= Seq::<SpecToken>::empty());
            } else if k < stack.len() - 1 {
                assert(st[k] == stack[k]);
            }
        }
        assert forall|k: int| 0 <= k < st.len() - 1 implies (#[trigger] st[k].lit).len() == 0 by {
            if k < stack.len() - 1 {
                assert(st[k] == stack[k]);
            }
        }
        lemma_run_shaped(r.drop_first(), st);
    } else if r[0] == '$' && r.len() >= 2 && ident_start(r[1]) {
        let n = ident_len(r.drop_first()) as int;
        lemma_ident_len(r.drop_first());
        let name = r.subrange(1, 1 + n);
        assert(ident_continue(r.drop_first()[0]));
        assert forall|i: int| 0 <= i < name.len() implies #[trigger] ident_continue(name[i]) by {
            assert(name[i] == r.drop_first()[i]);
        }
        let f = flush(stack.last());
        assert(tokens_shaped(stack[stack.len() - 1].toks));
        lemma_flush_shaped(stack.last());
        let e = expansion(name);
        lemma_expansion_shaped(name);
        lemma_push_shaped(f.toks, e);
        let st = add_module(stack, name);
        assert forall|k: int| 0 <= k < st.len() implies #[trigger] tokens_shaped(st[k].toks) by {
            if k < stack.len() - 1 {
                assert(st[k] == stack[k]);
            }
        }
        assert forall|k: int| 0 <= k < st.len() - 1 implies (#[trigger] st[k].lit).len() == 0 by {
            assert(st[k] == stack[k]);
        }
        lemma_run_shaped(r.skip(1 + n), st);
    } else {
        let st = add_char(stack, r[0]);
        assert forall|k: int| 0 <= k < st.len() implies #[trigger] tokens_shaped(st[k].toks) by {
            if k < stack.len() - 1 {
                assert(st[k] == stack[k]);
            }
        }
        assert forall|k: int| 0 <= k < st.len() - 1 implies (#[trigger] st[k].lit).len() == 0 by {
            assert(st[k] == stack[k]);
        }
        lemma_run_shaped(r.drop_first(), st);
    }
}

proof fn lemma_close_shaped(stack: Seq<SpecFrame>)
    requires
        stack.len() >= 2,
        stack_shaped(stack),
    ensures
        stack_shaped(close_group(stack)),
{
    let f = flush(stack.last());
    assert(tokens_shaped(stack[stack.len() - 1].toks));
    lemma_flush_shaped(stack.last());
    lemma_finish_group_shaped(f.toks, f.absorbed);
    let g = SpecToken::Group(finish_group(f.toks, f.absorbed));
    let p = stack[stack.len() - 2];
    assert(tokens_shaped(p.toks));
    lemma_push_shaped(p.toks, g);
    let st = close_group(stack);
    assert forall|k: int| 0 <= k < st.len() implies #[trigger] tokens_shaped(st[k].toks) by {
        if k < stack.len() - 2 {
            assert(st[k] == stack[k]);
        }
    }
    assert forall|k: int| 0 <= k < st.len() - 1 implies (#[trigger] st[k].lit).len() == 0 by {
        assert(st[k] == stack[k]);
    }
}

/// Law: the shape of a parse, at every depth: no literal is empty (text
/// becomes a literal only when there is some, and trimming a group's
/// padding drops a literal that it empties), no two literals are
/// neighbours (text runs until a module or group cuts it), and every
/// module name is an identifier other than `git_branch_sep` (which
/// becomes its group).
pub proof fn law_parse_shape(s: Seq<char>)
    ensures
        tokens_shaped(parse(s)),
{
    let st = seq![empty_frame()];
    assert(tokens_shaped(empty_frame().toks));
    assert forall|k: int| 0 <= k < st.len() implies #[trigger] tokens_shaped(st[k].toks) by {
        assert(st[k] == empty_frame());
    }
    lemma_run_shaped(s, st);
}

/// Whether `s` holds none of `(`, `)` and `$`.
pub open spec fn bare_text(s: Seq<char>) -> bool {
    forall|i: int| 0 <= i < s.len() ==> #[trigger] s[i] != '(' && s[i] != ')' && s[i] != '$'
}

proof fn lemma_run_bare(a: Seq<char>, b: Seq<char>, stack: Seq<SpecFrame>)
    requires
        stack.len() >= 1,
        bare_text(a),
    ensures
        run(a + b, stack) == run(
            b,
            set_top(stack, SpecFrame { lit: stack.last().lit + a, ..stack.last() }),
        ),
    decreases a.len(),
{
    if a.len() == 0 {
        assert(a + b =~= b);
        assert(stack.last().lit + a == stack.last().lit);
        assert(set_top(stack, SpecFrame { lit: stack.last().lit + a, ..stack.last() }) =~= stack);
    } else {
        let r = a + b;
        assert(r[0] == a[0]);
        assert(a[0] != '(' && a[0] != ')' && a[0] != '$');
        let st = add_char(stack, a[0]);
        assert(r.drop_first() =~= a.drop_first() + b);
        assert(run(r, stack) == run(r.drop_first(), st));
        assert forall|i: int| 0 <= i < a.drop_first().len() implies #[trigger] a.drop_first()[i]
            != '(' && a.drop_first()[i] != ')' && a.drop_first()[i] != '$' by {
            assert(a.drop_first()[i] == a[i + 1]);
        }
        lemma_run_bare(a.drop_first(), b, st);
        assert(st.last().lit + a.drop_first() =~= stack.last().lit + a);
        assert(set_top(st, SpecFrame { lit: st.last().lit + a.drop_first(), ..st.last() })
            =~= set_top(stack, SpecFrame { lit: stack.last().lit + a, ..stack.last() }));
    }
}

/// Whether `s` holds no `)`.
pub open spec fn no_close(s: Seq<char>) -> bool {
    forall|i: int| 0 <= i < s.len() ==> #[trigger] s[i] != ')'
}

/// Whether `s` holds neither `(` nor `)`.
pub open spec fn no_parens(s: Seq<char>) -> bool {
    forall|i: int| 0 <= i < s.len() ==> #[trigger] s[i] != '(' && s[i] != ')'
}

/// The steps of the parse touch only the innermost levels, so levels
/// below them are carried along unchanged.
proof fn lemma_steps_on_top(b: Seq<SpecFrame>, t: Seq<SpecFrame>, c: char, name: Seq<char>)
    requires
        t.len() >= 1,
    ensures
        add_char(b + t, c) == b + add_char(t, c),
        add_module(b + t, name) == b + add_module(t, name),
        open_group(b + t) == b + open_group(t),
        t.len() >= 2 ==> close_group(b + t) == b + close_group(t),
{
    let bt = b + t;
    assert(bt.last() == t.last());
    assert forall|f: SpecFrame| #[trigger] set_top(bt, f) == b + set_top(t, f) by {
        assert(set_top(bt, f) =~= b + set_top(t, f));
    }
    assert forall|u: Seq<SpecFrame>, f: SpecFrame| #[trigger] (b + u).push(f) == b + u.push(f) by {
        assert((b + u).push(f) =~= b + u.push(f));
    }
    assert(add_char(bt, c) == b + add_char(t, c));
    assert(add_module(bt, name) == b + add_module(t, name));
    let f = t.last();
    let kept = trim_end(f.lit);
    let g = SpecFrame { toks: Seq::empty(), lit: Seq::empty(), absorbed: f.lit.skip(kept.len() as int) };
    assert(open_group(bt) == set_top(bt, flush(SpecFrame { lit: kept, ..f })).push(g));
    assert(open_group(bt) == b + open_group(t));
    if t.len() >= 2 {
        assert(bt.drop_last() =~= b + t.drop_last());
        assert(t.drop_last().len() >= 1);
        assert((b + t.drop_last()).last() == t.drop_last().last());
        let fl = flush(t.last());
        let grp = SpecToken::Group(finish_group(fl.toks, fl.absorbed));
        let p = t.drop_last().last();
        assert(close_group(bt) == set_top(b + t.drop_last(), SpecFrame { toks: p.toks.push(grp), ..p }));
        assert(set_top(b + t.drop_last(), SpecFrame { toks: p.toks.push(grp), ..p }) =~= b + set_top(
            t.drop_last(),
            SpecFrame { toks: p.toks.push(grp), ..p },
        ));
    }
}

/// Text without `)` read inside levels above `b` ends up, once the input
/// ends, as one level over `b` holding what the text gives on its own.
proof fn lemma_run_nested(r: Seq<char>, b: Seq<SpecFrame>, t: Seq<SpecFrame>)
    requires
        b.len() >= 1,
        t.len() >= 1,
        no_close(r),
    ensures
        run(r, b + t) == run(
            Seq::empty(),
            b.push(SpecFrame { toks: run(r, t), lit: Seq::empty(), absorbed: t[0].absorbed }),
        ),
    decreases r.len(), t.len(),
{
    let bt = b + t;
    assert(bt.len() >= 2);
    let g = SpecFrame { toks: run(r, t), lit: Seq::empty(), absorbed: t[0].absorbed };
    if r.len() == 0 {
        assert(r =~= Seq::<char>::empty());
        if t.len() == 1 {
            assert(bt.last() == t[0]);
            assert(bt.drop_last() =~= b);
            assert(b.push(g).last() == g);
            assert(b.push(g).drop_last() =~= b);
            assert(flush(g) == SpecFrame { toks: g.toks, lit: Seq::empty(), absorbed: g.absorbed });
            assert(run(r, t) == flush(t[0]).toks);
            assert(close_group(bt) == close_group(b.push(g)));
            assert(run(r, bt) == run(r, close_group(bt)));
            assert(b.push(g).len() >= 2);
            assert(run(r, b.push(g)) == run(r, close_group(b.push(g))));
        } else {
            lemma_steps_on_top(b, t, ' ', Seq::empty());
            let t2 = close_group(t);
            assert(t2[0].absorbed == t[0].absorbed);
            lemma_run_nested(r, b, t2);
            assert(run(r, bt) == run(r, b + t2));
            assert(run(r, t) == run(r, t2));
        }
    } else {
        assert(r[0] != ')');
        if r[0] == '(' {
            lemma_steps_on_top(b, t, ' ', Seq::empty());
            let t2 = open_group(t);
            assert(t2[0].absorbed == t[0].absorbed);
            assert forall|i: int| 0 <= i < r.drop_first().len() implies #[trigger] r.drop_first()[i] != ')' by {
                assert(r.drop_first()[i] == r[i + 1]);
            }
            lemma_run_nested(r.drop_first(), b, t2);
            assert(run(r, bt) == run(r.drop_first(), b + t2));
            assert(run(r, t) == run(r.drop_first(), t2));
        } else if r[0] == '$' && r.len() >= 2 && ident_start(r[1]) {
            let n = ident_len(r.drop_first()) as int;
            lemma_ident_len(r.drop_first());
            let name = r.subrange(1, 1 + n);
            lemma_steps_on_top(b, t, ' ', name);
            let t2 = add_module(t, name);
            assert(t2[0].absorbed == t[0].absorbed);
            assert forall|i: int| 0 <= i < r.skip(1 + n).len() implies #[trigger] r.skip(1 + n)[i] != ')' by {
                assert(r.skip(1 + n)[i] == r[i + 1 + n]);
            }
            lemma_run_nested(r.skip(1 + n), b, t2);
            assert(run(r, bt) == run(r.skip(1 + n), b + t2));
            assert(run(r, t) == run(r.skip(1 + n), t2));
        } else {
            lemma_steps_on_top(b, t, r[0], Seq::empty());
            let t2 = add_char(t, r[0]);
            assert(t2[0].absorbed == t[0].absorbed);
            assert forall|i: int| 0 <= i < r.drop_first().len() implies #[trigger] r.drop_first()[i] != ')' by {
                assert(r.drop_first()[i] == r[i + 1]);
            }
            lemma_run_nested(r.drop_first(), b, t2);
            assert(run(r, bt) == run(r.drop_first(), b + t2));
            assert(run(r, t) == run(r.drop_first(), t2));
        }
    }
}

/// Law: an unmatched `(` extends to the end of the string: everything after
/// it, whatever it holds (text, module references, further unmatched
/// groups), is parsed as on its own and becomes that group's content.
pub proof fn law_unclosed_group_extends_to_end(s: Seq<char>)
    requires
        no_close(s),
    ensures
        parse(seq!['('] + s) == seq![SpecToken::Group(finish_group(parse(s), Seq::empty()))],
{
    let r = seq!['('] + s;
    let e = empty_frame();
    assert(r[0] == '(');
    assert(r.drop_first() == s);
    assert(trim_end(Seq::<char>::empty()) == Seq::<char>::empty());
    assert(Seq::<char>::empty().skip(0) =~= Seq::<char>::empty());
    let opened = open_group(seq![e]);
    assert(opened =~= seq![e] + seq![e]);
    lemma_run_nested(s, seq![e], seq![e]);
    let g = SpecFrame { toks: parse(s), lit: Seq::empty(), absorbed: Seq::empty() };
    let two = seq![e].push(g);
    assert(two.last() == g);
    assert(two.drop_last() =~= seq![e]);
    assert(flush(g) == g);
    let grp = SpecToken::Group(finish_group(parse(s), Seq::empty()));
    let closed = close_group(two);
    assert(closed =~= seq![SpecFrame { toks: seq![grp], lit: Seq::empty(), absorbed: Seq::empty() }]);
    assert(run(Seq::<char>::empty(), two) == run(Seq::<char>::empty(), closed));
    assert(flush(closed[0]).toks =~= seq![grp]);
}

/// How many name characters open `a + b` when `b` does not go on with one.
proof fn lemma_ident_len_append(a: Seq<char>, b: Seq<char>)
    requires
        b.len() == 0 || !ident_continue(b[0]),
    ensures
        ident_len(a + b) == ident_len(a),
    decreases a.len(),
{
    if a.len() == 0 {
        assert(a + b =~= b);
    } else {
        assert((a + b)[0] == a[0]);
        assert((a + b).drop_first() =~= a.drop_first() + b);
        lemma_ident_len_append(a.drop_first(), b);
    }
}

/// Text without parentheses, followed by something that does not go on
/// with a name, only works on the innermost level: it leaves that level
/// holding what the text gives on its own.
proof fn lemma_run_flat(q: Seq<char>, r: Seq<char>, st: Seq<SpecFrame>) -> (x: SpecFrame)
    requires
        no_parens(q),
        r.len() == 0 || !ident_continue(r[0]),
        st.len() >= 1,
    ensures
        run(q + r, st) == run(r, set_top(st, x)),
        flush(x).toks == run(q, seq![st.last()]),
        x.absorbed == st.last().absorbed,
    decreases q.len(),
{
    if q.len() == 0 {
        assert(q + r =~= r);
        assert(set_top(st, st.last()) =~= st);
        st.last()
    } else {
        let qr = q + r;
        assert(qr[0] == q[0]);
        assert(q[0] != '(' && q[0] != ')');
        let one = seq![st.last()];
        if q[0] == '$' && q.len() >= 2 && ident_start(q[1]) {
            assert(qr[1] == q[1]);
            assert(qr.drop_first() =~= q.drop_first() + r);
            lemma_ident_len_append(q.drop_first(), r);
            let n = ident_len(q.drop_first()) as int;
            lemma_ident_len(q.drop_first());
            let name = q.subrange(1, 1 + n);
            assert(qr.subrange(1, 1 + n) =~= name);
            let st1 = add_module(st, name);
            assert(qr.skip(1 + n) =~= q.skip(1 + n) + r);
            assert forall|i: int| 0 <= i < q.skip(1 + n).len() implies #[trigger] q.skip(1 + n)[i]
                != '(' && q.skip(1 + n)[i] != ')' by {
                assert(q.skip(1 + n)[i] == q[i + 1 + n]);
            }
            let x = lemma_run_flat(q.skip(1 + n), r, st1);
            assert(add_module(one, name) =~= seq![st1.last()]);
            assert(set_top(st1, x) =~= set_top(st, x));
            x
        } else {
            if q[0] == '$' && qr.len() >= 2 {
                if q.len() >= 2 {
                    assert(qr[1] == q[1]);
                } else {
                    assert(qr[1] == r[0]);
                }
            }
            let st1 = add_char(st, q[0]);
            assert(qr.drop_first() =~= q.drop_first() + r);
            assert forall|i: int| 0 <= i < q.drop_first().len() implies #[trigger] q.drop_first()[i]
                != '(' && q.drop_first()[i] != ')' by {
                assert(q.drop_first()[i] == q[i + 1]);
            }
            let x = lemma_run_flat(q.drop_first(), r, st1);
            assert(add_char(one, q[0]) =~= seq![st1.last()]);
            assert(set_top(st1, x) =~= set_top(st, x));
            x
        }
    }
}

/// Law: a closed group over its parts: the content between `(` and `)`,
/// whatever text and module references it holds, is parsed as on its own,
/// and its padding settled, to give the group's children.
pub proof fn law_closed_group_over_parts(q: Seq<char>)
    requires
        no_parens(q),
    ensures
        parse(seq!['('] + q + seq![')']) == seq![
            SpecToken::Group(finish_group(parse(q), Seq::empty())),
        ],
{
    let close = seq![')'];
    let r = seq!['('] + q + close;
    let e = empty_frame();
    assert(r[0] == '(');
    assert(r.drop_first() =~= q + close);
    assert(trim_end(Seq::<char>::empty()) == Seq::<char>::empty());
    assert(Seq::<char>::empty().skip(0) =~= Seq::<char>::empty());
    let opened = open_group(seq![e]);
    assert(opened =~= seq![e, e]);
    assert(!ident_continue(close[0]));
    let x = lemma_run_flat(q, close, opened);
    let filled = set_top(opened, x);
    assert(filled =~= seq![e, x]);
    assert(close.drop_first() =~= Seq::<char>::empty());
    assert(run(close, filled) == run(Seq::<char>::empty(), close_group(filled)));
    let grp = SpecToken::Group(finish_group(parse(q), Seq::empty()));
    assert(filled.last() == x);
    assert(filled.drop_last() =~= seq![e]);
    let closed = close_group(filled);
    assert(closed =~= seq![SpecFrame { toks: seq![grp], lit: Seq::empty(), absorbed: Seq::empty() }]);
    assert(flush(closed[0]).toks =~= seq![grp]);
}

proof fn lemma_trim_end_spaces(p: Seq<char>, w: Seq<char>)
    requires
        p.len() == 0 || !is_space(p.last()),
        forall|i: int| 0 <= i < w.len() ==> is_space(#[trigger] w[i]),
    ensures
        trim_end(p + w) == p,
        (p + w).skip(p.len() as int) == w,
    decreases w.len(),
{
    if w.len() == 0 {
        assert(p + w =~= p);
        if p.len() > 0 {
            assert(trim_end(p) == p);
        }
    } else {
        assert((p + w).drop_last() =~= p + w.drop_last());
        assert((p + w).last() == w.last());
        lemma_trim_end_spaces(p, w.drop_last());
    }
    assert((p + w).skip(p.len() as int) =~= w);
}

/// Law: whitespace right before `(` moves into the group, and the
/// whitespace right inside `(` and `)` is dropped. The text before the
/// group keeps no trailing space, so when the group disappears the space
/// disappears with it; the group's text starts with the absorbed space
/// and then its trimmed content.
pub proof fn law_space_before_group_is_absorbed(p: Seq<char>, w: Seq<char>, q: Seq<char>)
    requires
        bare_text(p),
        p.len() > 0,
        !is_space(p.last()),
        w.len() > 0,
        forall|i: int| 0 <= i < w.len() ==> is_space(#[trigger] w[i]),
        bare_text(q),
    ensures
        parse(p + w + seq!['('] + q + seq![')']) == seq![
            SpecToken::Literal(p),
            SpecToken::Group(
                if trim_end(q).len() == 0 {
                    seq![SpecToken::Literal(w)]
                } else {
                    seq![SpecToken::Literal(w + trim_start(trim_end(q)))]
                },
            ),
        ],
{
    let e = empty_frame();
    let pw = p + w;
    assert forall|i: int| 0 <= i < pw.len() implies #[trigger] pw[i] != '(' && pw[i] != ')'
        && pw[i] != '$' by {
        if i >= p.len() {
            assert(pw[i] == w[i - p.len()]);
            assert(is_space(w[i - p.len()]));
        }
    }
    let rest = seq!['('] + q + seq![')'];
    assert(p + w + seq!['('] + q + seq![')'] =~= pw + rest);
    lemma_run_bare(pw, rest, seq![e]);
    let s1 = set_top(seq![e], SpecFrame { lit: e.lit + pw, ..e });
    assert(e.lit + pw == pw);
    lemma_trim_end_spaces(p, w);
    assert(rest[0] == '(');
    assert(rest.drop_first() =~= q + seq![')']);
    let opened = open_group(s1);
    let f0 = SpecFrame { toks: Seq::empty(), lit: Seq::empty(), absorbed: w };
    let top = SpecFrame { toks: seq![SpecToken::Literal(p)], lit: Seq::empty(), absorbed: Seq::empty() };
    assert(opened =~= seq![top, f0]);
    assert(run(rest, s1) == run(q + seq![')'], opened));
    lemma_run_bare(q, seq![')'], opened);
    let filled = set_top(opened, SpecFrame { lit: f0.lit + q, ..f0 });
    assert(f0.lit + q == q);
    let close = seq![')'];
    assert(close[0] == ')');
    assert(close.drop_first() =~= Seq::<char>::empty());
    let closed = close_group(filled);
    assert(run(close, filled) == run(Seq::<char>::empty(), closed));
    let children = finish_group(with_literal(Seq::empty(), q), w);
    lemma_padded_children(q, w);
    let lastf = SpecFrame { toks: Seq::empty(), lit: q, absorbed: w };
    assert(filled =~= seq![top, lastf]);
    assert(filled.last() == lastf);
    assert(filled.drop_last() =~= seq![top]);
    assert(flush(lastf).toks == with_literal(Seq::<SpecToken>::empty(), q));
    assert(top.toks.push(SpecToken::Group(children)) =~= seq![
        SpecToken::Literal(p),
        SpecToken::Group(children),
    ]);
    assert(closed =~= seq![
        SpecFrame {
            toks: seq![SpecToken::Literal(p), SpecToken::Group(children)],
            lit: Seq::empty(),
            absorbed: Seq::empty(),
        },
    ]);
    assert(run(Seq::<char>::empty(), closed) == flush(closed[0]).toks);
    assert(flush(closed[0]).toks =~= seq![SpecToken::Literal(p), SpecToken::Group(children)]);
}

proof fn lemma_padded_children(q: Seq<char>, w: Seq<char>)
    requires
        w.len() > 0,
    ensures
        finish_group(with_literal(Seq::empty(), q), w) == (if trim_end(q).len() == 0 {
            seq![SpecToken::Literal(w)]
        } else {
            seq![SpecToken::Literal(w + trim_start(trim_end(q)))]
        }),
{
    let toks = with_literal(Seq::<SpecToken>::empty(), q);
    if q.len() == 0 {
        assert(toks =~= Seq::<SpecToken>::empty());
        assert(trim_end(q) == q);
        assert(finish_group(toks, w) =~= seq![SpecToken::Literal(w)] + Seq::<SpecToken>::empty());
    } else {
        assert(toks =~= seq![SpecToken::Literal(q)]);
        assert(toks.last() == SpecToken::Literal(q));
        if trim_end(q).len() == 0 {
            assert(toks.drop_last() =~= Seq::<SpecToken>::empty());
            assert(finish_group(toks, w) =~= seq![SpecToken::Literal(w)]
                + Seq::<SpecToken>::empty());
        } else {
            let stripped = toks.update(0, SpecToken::Literal(trim_end(q)));
            assert(stripped =~= seq![SpecToken::Literal(trim_end(q))]);
            assert(finish_group(toks, w) =~= seq![
                SpecToken::Literal(w + trim_start(trim_end(q))),
            ]);
        }
    }
}

} // verus!
