use vstd::prelude::*;

use crate::parser_combinator::combinator::{Parser, ParserV};
use vstd::string::StrSliceExecFns;

verus! {

/// Matches an exact string and yields it.
pub fn literal(expected: String) -> (r: Parser)
    ensures
        r@ == ParserV::Literal(expected@),
{
    Parser::Literal(expected)
}

/// Matches one exact character and yields it as a string.
pub fn character(c: char) -> (r: Parser)
    ensures
        r@ == ParserV::Character(c),
{
    Parser::Character(c)
}

/// Matches one or more hex digits and yields them.
pub fn hexadecimal() -> (r: Parser)
    ensures
        r@ == ParserV::Hexadecimal,
{
    Parser::Hexadecimal
}

/// Matches one or more letters and yields them.
pub fn alphabetic() -> (r: Parser)
    ensures
        r@ == ParserV::Alphabetic,
{
    Parser::Alphabetic
}

/// Matches a word in its all-lowercase or all-uppercase spelling and
/// yields the word as given.
pub fn upper_or_lower(s: String) -> (r: Parser)
    ensures
        r@ == ParserV::UpperOrLower(s@),
{
    Parser::UpperOrLower(s)
}

/// Matches any run of spaces, possibly empty.
pub fn optional_whitespace() -> (r: Parser)
    ensures
        r@ == ParserV::OptionalWhitespace,
{
    Parser::OptionalWhitespace
}

/// Matches one or more spaces.
pub fn whitespace() -> (r: Parser)
    ensures
        r@ == ParserV::Whitespace,
{
    Parser::Whitespace
}

/// Character-for-character string comparison.
pub fn str_eq(a: &str, b: &str) -> (r: bool)
    ensures
        r == (a@ == b@),
{
    let la = a.unicode_len();
    let lb = b.unicode_len();
    if la != lb {
        return false;
    }
    let mut i: usize = 0;
    while i < la
        invariant
            i <= la,
            la == a@.len(),
            la == b@.len(),
            forall|j: int| 0 <= j < i ==> a@[j] == b@[j],
        decreases la - i,
    {
        if a.get_char(i) != b.get_char(i) {
            return false;
        }
        i = i + 1;
    }
    proof {
        assert(a@ =~= b@);
    }
    true
}

} // verus!
