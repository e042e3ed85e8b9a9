//! The renderers behind each `$module` placeholder, and the thousands
//! grouping that the token counts share.
use vstd::prelude::*;

use crate::text::{chars_of, decimal, decimal_string, lemma_decimal_digits, push_char};

pub mod cache;
pub mod context;
pub mod cost;
pub mod duration;
pub mod git_branch;
pub mod model;
pub mod project;
pub mod rate_limits;
pub mod tokens;
pub mod version;

verus! {

/// `d` with a comma before every group of three characters counted from
/// the right, except at the very start: `1234567` becomes `1,234,567`.
pub open spec fn group_thousands(d: Seq<char>) -> Seq<char>
    decreases d.len(),
{
    if d.len() <= 3 {
        d
    } else {
        group_thousands(d.take(d.len() - 3)) + seq![','] + d.skip(d.len() - 3)
    }
}

/// What a left-to-right walk over the first `i` characters of `d` has
/// written, when a comma goes before each position whose distance from the
/// end (`len`) is a positive multiple of three.
spec fn comma_walk(d: Seq<char>, len: int, i: nat) -> Seq<char>
    decreases i,
{
    if i == 0 {
        Seq::empty()
    } else {
        let j = (i - 1) as nat;
        comma_walk(d, len, j) + (if j > 0 && (len - j) % 3 == 0 {
            seq![',']
        } else {
            Seq::empty()
        }) + seq![d[j as int]]
    }
}

proof fn lemma_walk_short(d: Seq<char>, i: nat)
    requires
        i <= d.len() <= 3,
    ensures
        comma_walk(d, d.len() as int, i) == d.take(i as int),
    decreases i,
{
    if i > 0 {
        lemma_walk_short(d, (i - 1) as nat);
        assert(d.take(i as int) == d.take(i - 1).push(d[i - 1]));
    }
}

proof fn lemma_walk_prefix(d: Seq<char>, i: nat)
    requires
        d.len() > 3,
        i <= d.len() - 3,
    ensures
        comma_walk(d, d.len() as int, i) == comma_walk(
            d.take(d.len() - 3),
            d.len() - 3,
            i,
        ),
    decreases i,
{
    if i > 0 {
        let j = (i - 1) as nat;
        lemma_walk_prefix(d, j);
        assert((d.len() - j) % 3 == (d.len() - 3 - j) % 3);
    }
}

proof fn lemma_walk_groups(d: Seq<char>)
    ensures
        comma_walk(d, d.len() as int, d.len()) == group_thousands(d),
    decreases d.len(),
{
    let len = d.len();
    if len <= 3 {
        lemma_walk_short(d, len);
        assert(d.take(len as int) == d);
    } else {
        let p = d.take(len - 3);
        lemma_walk_prefix(d, (len - 3) as nat);
        lemma_walk_groups(p);
        assert(p.len() == len - 3);
        let w = comma_walk(d, len as int, (len - 3) as nat);
        assert(comma_walk(d, len as int, (len - 2) as nat) == w + seq![','] + seq![d[len - 3]]);
        assert(comma_walk(d, len as int, (len - 1) as nat) == w + seq![','] + seq![d[len - 3]]
            + seq![d[len - 2]]);
        assert(d.skip(len - 3) =~= seq![d[len - 3], d[len - 2], d[len - 1]]);
        assert(comma_walk(d, len as int, len) =~= group_thousands(d));
    }
}

/// The decimal numeral of `n` with comma thousands separators, as
/// `printf "%'d"` prints it: `1234567` becomes `1,234,567`.
pub fn format_with_commas(n: u64) -> (res: String)
    ensures
        res@ == group_thousands(decimal(n as nat)),
{
    let s = decimal_string(n);
    let digits = chars_of(s.as_str());
    let len = digits.len();
    let mut out = String::new();
    for i in 0..len
        invariant
            len == digits@.len(),
            out@ == comma_walk(digits@, len as int, i as nat),
    {
        if i > 0 && (len - i) % 3 == 0 {
            push_char(&mut out, ',');
        }
        push_char(&mut out, digits[i]);
    }
    proof {
        lemma_walk_groups(digits@);
    }
    out
}

/// `s` with every comma taken out.
pub open spec fn without_commas(s: Seq<char>) -> Seq<char>
    decreases s.len(),
{
    if s.len() == 0 {
        s
    } else {
        without_commas(s.drop_last()) + if s.last() == ',' {
            Seq::empty()
        } else {
            seq![s.last()]
        }
    }
}

proof fn lemma_without_commas_add(a: Seq<char>, b: Seq<char>)
    ensures
        without_commas(a + b) == without_commas(a) + without_commas(b),
    decreases b.len(),
{
    if b.len() == 0 {
        assert(a + b == a);
    } else {
        lemma_without_commas_add(a, b.drop_last());
        assert((a + b).drop_last() == a + b.drop_last());
    }
}

proof fn lemma_without_commas_digits(d: Seq<char>)
    requires
        forall|i: int| 0 <= i < d.len() ==> #[trigger] d[i] != ',',
    ensures
        without_commas(d) == d,
    decreases d.len(),
{
    if d.len() > 0 {
        lemma_without_commas_digits(d.drop_last());
    }
}

/// How many groups of thousands a grouped numeral has, less one.
proof fn lemma_group_digits(d: Seq<char>)
    requires
        forall|i: int| 0 <= i < d.len() ==> #[trigger] d[i] != ',',
    ensures
        without_commas(group_thousands(d)) == d,
        group_thousands(d).len() == d.len() + (if d.len() == 0 { 0 } else { (d.len() - 1) / 3 }),
    decreases d.len(),
{
    if d.len() > 3 {
        let p = d.take(d.len() - 3);
        let q = d.skip(d.len() - 3);
        lemma_group_digits(p);
        lemma_without_commas_add(group_thousands(p) + seq![','], q);
        lemma_without_commas_add(group_thousands(p), seq![',']);
        lemma_without_commas_digits(q);
        assert(without_commas(seq![',']) == Seq::<char>::empty()) by {
            let e = Seq::<char>::empty();
            assert(seq![','].drop_last() =~= e);
            assert(without_commas(e) == e);
            assert(seq![','].last() == ',');
        }
        assert(p + q == d);
    } else {
        lemma_without_commas_digits(d);
    }
}

/// Law: the thousands separators are the only thing `format_with_commas`
/// adds. Taking the commas out gives back the decimal numeral, and there
/// is one comma per full group of three digits left of the first.
pub proof fn law_commas_only_separate(n: u64)
    ensures
        without_commas(group_thousands(decimal(n as nat))) == decimal(n as nat),
        group_thousands(decimal(n as nat)).len() == decimal(n as nat).len() + (decimal(
            n as nat,
        ).len() - 1) / 3,
{
    lemma_decimal_digits(n as nat);
    lemma_group_digits(decimal(n as nat));
}

} // verus!
