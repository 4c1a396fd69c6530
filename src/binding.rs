//! The values bound to the query parameters: the substring pattern of a
//! search and the identifier list of the role filter.
use vstd::prelude::*;
use vstd::string::StringExecFns;

use crate::decimal::{decimal_of, digit_char};

verus! {

/// The `LIKE` pattern that matches every text holding `term`. `%` and `_`
/// inside `term` keep their pattern meaning.
pub open spec fn spec_like_pattern(term: Seq<char>) -> Seq<char> {
    seq!['%'] + term + seq!['%']
}

pub open spec fn is_ascii_upper(c: char) -> bool {
    'A' <= c && c <= 'Z'
}

/// The character SQLite's UTF-8 reader sees: U+FFFE and U+FFFF read as
/// U+FFFD.
pub open spec fn like_char(c: char) -> char {
    if c == '\u{FFFE}' || c == '\u{FFFF}' {
        '\u{FFFD}'
    } else {
        c
    }
}

/// Two characters that `LIKE` takes as equal: the same once read, or the
/// same ASCII letter in either case.
pub open spec fn like_same_char(a: char, b: char) -> bool {
    like_char(a) == like_char(b) || (is_ascii_upper(a) && a as u32 + 32 == b as u32) || (
    is_ascii_upper(b) && b as u32 + 32 == a as u32)
}

/// Whether `t` matches the `LIKE` pattern `p` with no escape character: `%`
/// matches any run of characters, `_` any one character, and any other
/// character itself, ASCII letters in either case (see `like_same_char`).
pub open spec fn like_matches(p: Seq<char>, t: Seq<char>) -> bool
    decreases p.len() + t.len(),
{
    if p.len() == 0 {
        t.len() == 0
    } else if p[0] == '%' {
        like_matches(p.skip(1), t) || (t.len() > 0 && like_matches(p, t.skip(1)))
    } else if t.len() == 0 {
        false
    } else if p[0] == '_' {
        like_matches(p.skip(1), t.skip(1))
    } else {
        like_same_char(p[0], t[0]) && like_matches(p.skip(1), t.skip(1))
    }
}

pub fn like_pattern(term: &str) -> (r: String)
    ensures
        r@ == spec_like_pattern(term@),
{
    let mut r = String::from_str("%");
    r.append(term);
    r.append("%");
    proof {
        reveal_strlit("%");
    }
    r
}

fn digit_str(d: u64) -> (r: &'static str)
    requires
        d < 10,
    ensures
        r@ == seq![digit_char(d as nat)],
{
    proof {
        reveal_strlit("0");
        reveal_strlit("1");
        reveal_strlit("2");
        reveal_strlit("3");
        reveal_strlit("4");
        reveal_strlit("5");
        reveal_strlit("6");
        reveal_strlit("7");
        reveal_strlit("8");
        reveal_strlit("9");
    }
    if d == 0 {
        "0"
    } else if d == 1 {
        "1"
    } else if d == 2 {
        "2"
    } else if d == 3 {
        "3"
    } else if d == 4 {
        "4"
    } else if d == 5 {
        "5"
    } else if d == 6 {
        "6"
    } else if d == 7 {
        "7"
    } else if d == 8 {
        "8"
    } else {
        "9"
    }
}

/// The decimal text of `x`: no sign, no leading zero.
pub fn decimal_text(x: u64) -> (r: String)
    ensures
        r@ == decimal_of(x as nat),
    decreases x,
{
    if x < 10 {
        String::from_str(digit_str(x))
    } else {
        let mut r = decimal_text(x / 10);
        r.append(digit_str(x % 10));
        r
    }
}

/// The decimal text of each role identifier, in order: the form in which
/// the store keeps them.
pub fn role_texts(roles: &[u64]) -> (r: Vec<String>)
    ensures
        r@.len() == roles@.len(),
        forall|i: int| 0 <= i < roles@.len() ==> #[trigger] r@[i]@ == decimal_of(roles@[i] as nat),
{
    let mut out: Vec<String> = Vec::new();
    let mut i: usize = 0;
    while i < roles.len()
        invariant
            i <= roles@.len(),
            out@.len() == i,
            forall|j: int| 0 <= j < i ==> #[trigger] out@[j]@ == decimal_of(roles@[j] as nat),
        decreases roles@.len() - i,
    {
        out.push(decimal_text(roles[i]));
        i = i + 1;
    }
    out
}

} // verus!
