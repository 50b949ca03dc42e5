//! When a string scalar is wrapped in single quotes.

use vstd::prelude::*;
use vstd::string::*;

verus! {

/// A first character that makes a plain string read as something else.
pub open spec fn is_leading_indicator(c: char) -> bool {
    c == '{' || c == '[' || c == ' ' || c == '&' || c == '*' || c == '#' || c == ','
        || c == '>' || c == '!' || c == '%' || c == '@'
}

/// A last character that makes a plain string read as something else.
pub open spec fn is_trailing_indicator(c: char) -> bool {
    c == '}' || c == ']' || c == ' ' || c == ':'
}

/// A decimal digit or a colon: the characters of numbers and clock times.
pub open spec fn is_numeric(c: char) -> bool {
    ('0' as u32 <= c as u32 && c as u32 <= '9' as u32) || c == ':'
}

/// Whether a string is emitted in single quotes: it starts with a leading
/// indicator, ends with a trailing one, or holds nothing but digits and
/// colons. The empty string holds nothing else, so it is quoted.
pub open spec fn needs_quotes(s: Seq<char>) -> bool {
    ||| s.len() > 0 && is_leading_indicator(s.first())
    ||| s.len() > 0 && is_trailing_indicator(s.last())
    ||| forall|i: int| 0 <= i < s.len() ==> is_numeric(#[trigger] s[i])
}

/// The text of a string scalar. Quotes inside the string are not escaped.
pub open spec fn quoted(s: Seq<char>) -> Seq<char> {
    if needs_quotes(s) {
        seq!['\''] + s + seq!['\'']
    } else {
        s
    }
}

/// Tests a character for a leading indicator.
fn leading_indicator(c: char) -> (b: bool)
    ensures
        b == is_leading_indicator(c),
{
    c == '{' || c == '[' || c == ' ' || c == '&' || c == '*' || c == '#' || c == ','
        || c == '>' || c == '!' || c == '%' || c == '@'
}

/// Tests a character for a trailing indicator.
fn trailing_indicator(c: char) -> (b: bool)
    ensures
        b == is_trailing_indicator(c),
{
    c == '}' || c == ']' || c == ' ' || c == ':'
}

/// Tests a character for a digit or a colon.
fn numeric(c: char) -> (b: bool)
    ensures
        b == is_numeric(c),
{
    let code: u32 = c as u32;
    (code >= '0' as u32 && code <= '9' as u32) || c == ':'
}

/// Decides in one pass over `v` whether it is emitted in quotes.
pub fn quotes_needed(v: &str) -> (b: bool)
    ensures
        b == needs_quotes(v@),
{
    let mut leading: bool = false;
    let mut trailing: bool = false;
    let mut numeric_only: bool = true;
    let mut seen: bool = false;
    for c in it: v.chars()
        invariant
            it.seq() == v@,
            seen == (it.index() > 0),
            leading == (it.index() > 0 && is_leading_indicator(v@[0])),
            trailing == (it.index() > 0 && is_trailing_indicator(v@[it.index() - 1])),
            numeric_only == (forall|i: int| 0 <= i < it.index() ==> is_numeric(#[trigger] v@[i])),
    {
        if !seen {
            leading = leading_indicator(c);
            seen = true;
        }
        trailing = trailing_indicator(c);
        numeric_only = numeric_only && numeric(c);
    }
    leading || trailing || numeric_only
}

} // verus!
