use vm16::parser_combinator::byte::match_literal;
use vm16::parser_combinator::combinator::{
    ChainFn, ErrFn, MapFn, ParseError, Parser, ParserState, Value,
};
use vm16::parser_combinator::string::{character, literal, upper_or_lower};

#[test]
fn parse() {
    assert_eq!(
        character('a').parse("aaa"),
        Ok(ParserState {
            index: 1,
            result: Value::Str(String::from("a")),
        })
    )
}

#[test]
fn parse_at() {
    assert_eq!(
        character('c').parse_at("aaac", 3),
        Ok(ParserState {
            index: 4,
            result: Value::Str(String::from("c")),
        })
    )
}

#[test]
fn map() {
    assert_eq!(
        character('a')
            .map(MapFn::ConstStr(String::from("bbb")))
            .parse("azzz"),
        Ok(ParserState {
            index: 1,
            result: Value::Str(String::from("bbb")),
        })
    )
}

#[test]
fn map_err() {
    assert_eq!(
        character('a')
            .map_err(ErrFn::Message(String::from("yupe")))
            .parse("zzz"),
        Err(ParseError::new("yupe".to_string()))
    )
}

#[test]
fn chain() {
    assert_eq!(
        character('a')
            .and_then(ChainFn::ConstStr(String::from("bbb")))
            .parse("azzz"),
        Ok(ParserState {
            index: 1,
            result: Value::Str(String::from("bbb")),
        })
    );
    assert_eq!(
        character('a')
            .and_then(ChainFn::ConstStr(String::from("bbb")))
            .parse("zzz"),
        Err(ParseError {
            message: String::from("Expected 'a' found 'z'"),
            index: 0,
        })
    );
    assert_eq!(
        character('a')
            .and_then(ChainFn::Fail(String::from("aaaaa")))
            .parse("azzz"),
        Err(ParseError::new(String::from("aaaaa")))
    );
}

#[test]
fn zero_or_more() {
    assert_eq!(
        character('a').zero_or_more().parse("aaabbb"),
        Ok(ParserState {
            index: 3,
            result: Value::List(vec![
                Value::Str(String::from("a")),
                Value::Str(String::from("a")),
                Value::Str(String::from("a")),
            ]),
        })
    );
    assert_eq!(
        character('a').zero_or_more().parse("bbb"),
        Ok(ParserState {
            index: 0,
            result: Value::List(vec![]),
        })
    );
}

#[test]
fn one_or_more() {
    assert_eq!(
        character('a').one_or_more().parse("aaabbb"),
        Ok(ParserState {
            index: 3,
            result: Value::List(vec![
                Value::Str(String::from("a")),
                Value::Str(String::from("a")),
                Value::Str(String::from("a")),
            ]),
        })
    );
    assert_eq!(
        character('a').one_or_more().parse("bbb"),
        Err(ParseError::new(String::from("Could not match one or more")))
    );
}

#[test]
fn sequence_of() {
    assert_eq!(
        Parser::sequence_of(vec![character('a'), character('b'), character('c')]).parse("abcd"),
        Ok(ParserState {
            index: 3,
            result: Value::List(vec![
                Value::Str(String::from("a")),
                Value::Str(String::from("b")),
                Value::Str(String::from("c")),
            ]),
        })
    )
}

#[test]
fn interspersed() {
    assert_eq!(
        Parser::interspersed(
            character(' '),
            vec![character('a'), character('b'), character('c')]
        )
        .parse("a b cd"),
        Ok(ParserState {
            index: 5,
            result: Value::List(vec![
                Value::Str(String::from("a")),
                Value::Str(String::from("b")),
                Value::Str(String::from("c")),
            ]),
        })
    )
}

#[test]
fn between() {
    assert_eq!(
        Parser::between(character(' '), character('a'), character(' ')).parse(" a "),
        Ok(ParserState {
            index: 3,
            result: Value::Str(String::from("a")),
        })
    )
}

#[test]
fn left() {
    assert_eq!(
        character('a').left(character('b')).parse("ab"),
        Ok(ParserState {
            index: 2,
            result: Value::Str(String::from("a")),
        })
    )
}

#[test]
fn right() {
    assert_eq!(
        character('a').right(character('b')).parse("ab"),
        Ok(ParserState {
            index: 2,
            result: Value::Str(String::from("b")),
        })
    )
}

#[test]
fn one_of() {
    let vec1 = vec![character('a'), character('b'), character('c')];
    assert_eq!(
        Parser::one_of(vec1).parse("bzz"),
        Ok(ParserState {
            index: 1,
            result: Value::Str(String::from("b")),
        })
    )
}

#[test]
fn string_literal_parser() {
    let parse_joe = literal(String::from("Hello Joe!"));
    assert_eq!(
        Ok(ParserState {
            index: 10,
            result: Value::Str(String::from("Hello Joe!")),
        }),
        parse_joe.parse("Hello Joe!")
    );
    assert_eq!(
        Ok(ParserState {
            index: 10,
            result: Value::Str(String::from("Hello Joe!")),
        }),
        parse_joe.parse("Hello Joe! Hello Robert!")
    );
    assert_eq!(
        Err(ParseError::new(String::from(
            "Could not match literal: \"Hello Joe!\""
        ))),
        parse_joe.parse("Hello Mike!")
    );
}

#[test]
fn upper_or_lower_test() {
    let parse_joe = upper_or_lower(String::from("joe!"));
    assert_eq!(
        Ok(ParserState {
            index: 4,
            result: Value::Str(String::from("joe!")),
        }),
        parse_joe.parse("JOE!")
    );
    assert_eq!(
        Ok(ParserState {
            index: 4,
            result: Value::Str(String::from("joe!")),
        }),
        parse_joe.parse("joe!")
    );
}

#[test]
fn hexadecimal() {
    assert_eq!(
        vm16::parser_combinator::string::hexadecimal().parse("16afx"),
        Ok(ParserState {
            index: 4,
            result: Value::Str(String::from("16af")),
        })
    );
    assert_eq!(
        vm16::parser_combinator::string::hexadecimal().parse("xxx"),
        Err(ParseError::new("Could not match one or more".to_string()))
    )
}

#[test]
fn byte_literal_parser() {
    let parse_joe = match_literal(b"Hello Joe!");
    assert_eq!(
        parse_joe.parse(b"Hello Joe!"),
        Ok(ParserState {
            index: 10,
            result: (),
        }),
    );
    assert_eq!(
        parse_joe.parse(b"Hello Joe! Hello Robert!"),
        Ok(ParserState {
            index: 10,
            result: (),
        }),
    );
    assert_eq!(
        parse_joe.parse(b"Hello Mike!"),
        Err(ParseError::new(String::from(
            "Could not match literal: [72, 101, 108, 108, 111, 32, 74, 111, 101, 33]"
        ),)),
    );
}

#[test]
fn interspersed_with_empty_matches() {
    assert_eq!(
        Parser::interspersed(
            vm16::parser_combinator::string::optional_whitespace(),
            vec![
                vm16::parser_combinator::string::optional_whitespace(),
                character('a'),
            ]
        )
        .parse("a"),
        Ok(ParserState {
            index: 1,
            result: Value::List(vec![
                Value::Str(String::from("")),
                Value::Str(String::from("a")),
            ]),
        })
    )
}

#[test]
fn one_of_reports_the_deepest_failure() {
    assert_eq!(
        Parser::one_of(vec![
            character('a').right(character('b')),
            character('x'),
        ])
        .parse("ac"),
        Err(ParseError {
            message: String::from(
                "Could not match any parsers:\n\tExpected 'b' found 'c'\n\tExpected 'x' found 'a'\n"
            ),
            index: 1,
        })
    )
}
