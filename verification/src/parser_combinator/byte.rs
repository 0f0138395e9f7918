use vstd::prelude::*;

use crate::parser_combinator::combinator::{push_char, ParseError, ParseResult, ParserState};
use vstd::slice::slice_to_vec;
use vstd::string::StringExecFns;

verus! {

/// A parser over raw bytes that recognizes one exact byte string.
pub struct ByteLiteral {
    expected: Vec<u8>,
}

impl View for ByteLiteral {
    type V = Seq<u8>;

    closed spec fn view(&self) -> Seq<u8> {
        self.expected@
    }
}

/// The decimal spelling of a byte.
pub open spec fn dec_u8(b: u8) -> Seq<char> {
    let ones = (('0' as u8) + (b % 10) as u8) as char;
    let tens = (('0' as u8) + ((b / 10) % 10) as u8) as char;
    let hundreds = (('0' as u8) + (b / 100) as u8) as char;
    if b >= 100 {
        seq![hundreds, tens, ones]
    } else if b >= 10 {
        seq![tens, ones]
    } else {
        seq![ones]
    }
}

/// The bracketed, comma-separated decimal spelling of a byte string.
pub open spec fn bytes_listing(s: Seq<u8>) -> Seq<char>
    decreases s.len(),
{
    if s.len() == 0 {
        "["@ + "]"@
    } else if s.len() == 1 {
        "["@ + dec_u8(s[0]) + "]"@
    } else {
        let rest = bytes_listing(s.drop_last());
        rest.drop_last() + ", "@ + dec_u8(s.last()) + "]"@
    }
}

/// The error message of a failed byte-literal match.
pub open spec fn byte_literal_msg(expected: Seq<u8>) -> Seq<char> {
    "Could not match literal: "@ + bytes_listing(expected)
}

/// Appends a byte's decimal spelling to a string.
fn push_dec_u8(out: &mut String, b: u8)
    ensures
        final(out)@ == old(out)@ + dec_u8(b),
{
    if b >= 100 {
        push_char(out, (('0' as u8) + b / 100) as char);
    }
    if b >= 10 {
        push_char(out, (('0' as u8) + (b / 10) % 10) as char);
    }
    push_char(out, (('0' as u8) + b % 10) as char);
    proof {
        assert(final(out)@ =~= old(out)@ + dec_u8(b));
    }
}

impl ByteLiteral {
    pub fn parse(&self, input: &[u8]) -> (r: ParseResult<()>)
        ensures
            match r {
                Result::Ok(st) => {
                    &&& input@.len() >= self@.len()
                    &&& input@.subrange(0, self@.len() as int) == self@
                    &&& st.index == self@.len()
                    &&& st.result == ()
                },
                Result::Err(e) => {
                    &&& !(input@.len() >= self@.len() && input@.subrange(0, self@.len() as int)
                        == self@)
                    &&& e.index == 0
                    &&& e.message@ == byte_literal_msg(self@)
                },
            },
    {
        let n = self.expected.len();
        if n <= input.len() {
            let mut k: usize = 0;
            let mut matched = true;
            while k < n
                invariant
                    k <= n,
                    n == self@.len(),
                    n <= input@.len(),
                    matched == (input@.subrange(0, k as int) =~= self@.subrange(0, k as int)),
                decreases n - k,
            {
                let good = input[k] == self.expected[k];
                proof {
                    assert(input@.subrange(0, k as int + 1) =~= input@.subrange(0, k as int).push(
                        input@[k as int],
                    ));
                    assert(self@.subrange(0, k as int + 1) =~= self@.subrange(0, k as int).push(
                        self@[k as int],
                    ));
                    if !(matched && good) {
                        if input@.subrange(0, k as int + 1) =~= self@.subrange(0, k as int + 1) {
                            assert(input@.subrange(0, k as int + 1)[k as int] == input@[k as int]);
                            assert(forall|j: int| 0 <= j < k ==> input@.subrange(
                                0,
                                k as int + 1,
                            )[j] == input@.subrange(0, k as int)[j]);
                            assert(input@.subrange(0, k as int) =~= self@.subrange(0, k as int));
                        }
                    }
                }
                matched = matched && good;
                k = k + 1;
            }
            if matched {
                proof {
                    assert(input@.subrange(0, n as int) =~= self@.subrange(0, n as int));
                    assert(self@.subrange(0, n as int) =~= self@);
                }
                return Ok(ParserState { index: n, result: () });
            }
            proof {
                assert(self@.subrange(0, n as int) =~= self@);
            }
        }
        let mut m = String::from_str("Could not match literal: ");
        let listing = self.bytes_string();
        let msg = m.concat(listing.as_str());
        Err(ParseError { message: msg, index: 0 })
    }

    /// Builds the bracketed decimal listing of the expected bytes.
    fn bytes_string(&self) -> (r: String)
        ensures
            r@ == bytes_listing(self@),
    {
        let n = self.expected.len();
        let mut out = String::from_str("[");
        let mut k: usize = 0;
        while k < n
            invariant
                k <= n,
                n == self@.len(),
                k == 0 ==> out@ =~= "["@,
                k > 0 ==> out@.push(']') =~= bytes_listing(self@.subrange(0, k as int)),
            decreases n - k,
        {
            if k > 0 {
                push_char(&mut out, ',');
                push_char(&mut out, ' ');
            }
            push_dec_u8(&mut out, self.expected[k]);
            proof {
                reveal_strlit("[");
                reveal_strlit("]");
                reveal_strlit(", ");
                assert(self@.subrange(0, k as int + 1).drop_last() =~= self@.subrange(
                    0,
                    k as int,
                ));
                assert(self@.subrange(0, k as int + 1).last() == self@[k as int]);
                if k == 0 {
                    assert(out@.push(']') =~= bytes_listing(self@.subrange(0, 1)));
                } else {
                    assert(out@.push(']') =~= bytes_listing(self@.subrange(0, k as int + 1)));
                }
            }
            k = k + 1;
        }
        push_char(&mut out, ']');
        proof {
            reveal_strlit("[");
            reveal_strlit("]");
            if n == 0 {
                assert(out@ =~= bytes_listing(self@));
            } else {
                assert(self@.subrange(0, n as int) =~= self@);
            }
        }
        out
    }
}

/// A parser for one exact byte string.
pub fn match_literal(expected: &[u8]) -> (r: ByteLiteral)
    ensures
        r@ == expected@,
{
    ByteLiteral { expected: slice_to_vec(expected) }
}

} // verus!
