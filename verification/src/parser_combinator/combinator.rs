use vstd::prelude::*;

use crate::assembler::parser::{parse_expression, spec_expr, Type, TypeV};
use vstd::string::StrSliceExecFns;
use vstd::string::StringExecFns;

verus! {

/// A successful parse: the index just past the consumed text, and what the
/// consumed text meant.
#[derive(Debug, PartialEq, Eq, Clone)]
pub struct ParserState<T> {
    pub index: usize,
    pub result: T,
}

/// A failed parse: where in the whole input it failed, and why.
#[derive(Debug, PartialEq, Eq, Clone)]
pub struct ParseError {
    pub message: String,
    pub index: usize,
}

impl ParseError {
    pub fn new(message: String) -> (r: ParseError)
        ensures
            r.message@ == message@,
            r.index == 0,
    {
        ParseError { message, index: 0 }
    }
}

pub type ParseResult<Output> = Result<ParserState<Output>, ParseError>;

/// What a parser hands back: a token's text, an assembly-tree node, or a
/// list of results from a repeated or sequenced parser.
#[derive(Debug, PartialEq)]
pub enum Value {
    Str(String),
    Node(Type),
    List(Vec<Value>),
}

/// The mathematical shadow of `Value`.
pub enum ValueV {
    Str(Seq<char>),
    Node(TypeV),
    List(Seq<ValueV>),
}

/// The mathematical shadow of a `Value`, recursively.
pub open spec fn value_view(v: Value) -> ValueV
    decreases v,
{
    match v {
        Value::Str(s) => ValueV::Str(s@),
        Value::Node(t) => ValueV::Node(t@),
        Value::List(vs) => ValueV::List(value_views(vs@)),
    }
}

/// The shadows of a list of values.
pub open spec fn value_views(vs: Seq<Value>) -> Seq<ValueV>
    decreases vs,
{
    if vs.len() == 0 {
        Seq::empty()
    } else {
        value_views(vs.drop_last()).push(value_view(vs.last()))
    }
}

/// Each shadow in the list is the shadow of the value at its place.
pub broadcast proof fn lemma_value_views(vs: Seq<Value>)
    ensures
        (#[trigger] value_views(vs)).len() == vs.len(),
        forall|i: int| 0 <= i < vs.len() ==> value_views(vs)[i] == value_view(vs[i]),
    decreases vs,
{
    if vs.len() > 0 {
        lemma_value_views(vs.drop_last());
        assert forall|i: int| 0 <= i < vs.len() implies value_views(vs)[i] == value_view(
            vs[i],
        ) by {
            if i < vs.len() - 1 {
                assert(vs.drop_last()[i] == vs[i]);
            }
        }
    }
}

impl View for Value {
    type V = ValueV;

    open spec fn view(&self) -> ValueV {
        value_view(*self)
    }
}

/// The named transformations a `map` can apply to a parse result.
#[derive(Debug, PartialEq, Clone)]
pub enum MapFn {
    ToHexLiteral,
    ToHexLiteral8,
    ToAddress,
    ToVariable,
    ToRegister,
    ToLabel,
    ToOperator,
    ToIgnored,
    ToInstruction0(crate::cpu::instruction::Instruction),
    ToInstruction1(crate::cpu::instruction::Instruction),
    ToInstruction2(crate::cpu::instruction::Instruction),
    ToInstruction3(crate::cpu::instruction::Instruction),
    ConstStr(String),
}

/// The named transformations a `map_err` can apply to a parse error.
#[derive(Debug, PartialEq, Clone)]
pub enum ErrFn {
    Message(String),
}

/// The named continuations an `and_then` can run on a parse state.
#[derive(Debug, PartialEq, Clone)]
pub enum ChainFn {
    FailIfEmpty,
    ConstStr(String),
    Fail(String),
}

/// A parser over text: primitives recognize tokens, combinators build
/// bigger parsers out of smaller ones, and the bracketed arithmetic
/// expression of the assembly grammar is its own recursive parser.
#[derive(Debug, PartialEq)]
pub enum Parser {
    Literal(String),
    Character(char),
    Hexadecimal,
    Alphabetic,
    Whitespace,
    OptionalWhitespace,
    UpperOrLower(String),
    Mapped(Box<Parser>, MapFn),
    MapErr(Box<Parser>, ErrFn),
    AndThen(Box<Parser>, ChainFn),
    ZeroOrMore(Box<Parser>),
    Left(Box<Parser>, Box<Parser>),
    Right(Box<Parser>, Box<Parser>),
    Between(Box<Parser>, Box<Parser>, Box<Parser>),
    SequenceOf(Vec<Parser>),
    Interspersed(Box<Parser>, Vec<Parser>),
    OneOf(Vec<Parser>),
    Expression,
}

/// The mathematical shadow of a map transformation.
pub enum MapFnV {
    ToHexLiteral,
    ToHexLiteral8,
    ToAddress,
    ToVariable,
    ToRegister,
    ToLabel,
    ToOperator,
    ToIgnored,
    ToInstruction0(crate::cpu::instruction::Instruction),
    ToInstruction1(crate::cpu::instruction::Instruction),
    ToInstruction2(crate::cpu::instruction::Instruction),
    ToInstruction3(crate::cpu::instruction::Instruction),
    ConstStr(Seq<char>),
}

/// The mathematical shadow of an error transformation.
pub enum ErrFnV {
    Message(Seq<char>),
}

/// The mathematical shadow of a chained continuation.
pub enum ChainFnV {
    FailIfEmpty,
    ConstStr(Seq<char>),
    Fail(Seq<char>),
}

/// The mathematical shadow of a parser: the same shape, with every string
/// seen as its character sequence.
pub enum ParserV {
    Literal(Seq<char>),
    Character(char),
    Hexadecimal,
    Alphabetic,
    Whitespace,
    OptionalWhitespace,
    UpperOrLower(Seq<char>),
    Mapped(Box<ParserV>, MapFnV),
    MapErr(Box<ParserV>, ErrFnV),
    AndThen(Box<ParserV>, ChainFnV),
    ZeroOrMore(Box<ParserV>),
    Left(Box<ParserV>, Box<ParserV>),
    Right(Box<ParserV>, Box<ParserV>),
    Between(Box<ParserV>, Box<ParserV>, Box<ParserV>),
    SequenceOf(Seq<ParserV>),
    Interspersed(Box<ParserV>, Seq<ParserV>),
    OneOf(Seq<ParserV>),
    Expression,
}

pub open spec fn map_fn_view(f: MapFn) -> MapFnV {
    match f {
        MapFn::ToHexLiteral => MapFnV::ToHexLiteral,
        MapFn::ToHexLiteral8 => MapFnV::ToHexLiteral8,
        MapFn::ToAddress => MapFnV::ToAddress,
        MapFn::ToVariable => MapFnV::ToVariable,
        MapFn::ToRegister => MapFnV::ToRegister,
        MapFn::ToLabel => MapFnV::ToLabel,
        MapFn::ToOperator => MapFnV::ToOperator,
        MapFn::ToIgnored => MapFnV::ToIgnored,
        MapFn::ToInstruction0(ins) => MapFnV::ToInstruction0(ins),
        MapFn::ToInstruction1(ins) => MapFnV::ToInstruction1(ins),
        MapFn::ToInstruction2(ins) => MapFnV::ToInstruction2(ins),
        MapFn::ToInstruction3(ins) => MapFnV::ToInstruction3(ins),
        MapFn::ConstStr(w) => MapFnV::ConstStr(w@),
    }
}

impl View for MapFn {
    type V = MapFnV;

    open spec fn view(&self) -> MapFnV {
        map_fn_view(*self)
    }
}

impl View for ErrFn {
    type V = ErrFnV;

    open spec fn view(&self) -> ErrFnV {
        match *self {
            ErrFn::Message(m) => ErrFnV::Message(m@),
        }
    }
}

impl View for ChainFn {
    type V = ChainFnV;

    open spec fn view(&self) -> ChainFnV {
        match *self {
            ChainFn::FailIfEmpty => ChainFnV::FailIfEmpty,
            ChainFn::ConstStr(w) => ChainFnV::ConstStr(w@),
            ChainFn::Fail(m) => ChainFnV::Fail(m@),
        }
    }
}

pub open spec fn parser_view(p: Parser) -> ParserV
    decreases p,
{
    match p {
        Parser::Literal(w) => ParserV::Literal(w@),
        Parser::Character(c) => ParserV::Character(c),
        Parser::Hexadecimal => ParserV::Hexadecimal,
        Parser::Alphabetic => ParserV::Alphabetic,
        Parser::Whitespace => ParserV::Whitespace,
        Parser::OptionalWhitespace => ParserV::OptionalWhitespace,
        Parser::UpperOrLower(w) => ParserV::UpperOrLower(w@),
        Parser::Mapped(q, f) => ParserV::Mapped(Box::new(parser_view(*q)), f@),
        Parser::MapErr(q, f) => ParserV::MapErr(Box::new(parser_view(*q)), f@),
        Parser::AndThen(q, f) => ParserV::AndThen(Box::new(parser_view(*q)), f@),
        Parser::ZeroOrMore(q) => ParserV::ZeroOrMore(Box::new(parser_view(*q))),
        Parser::Left(a, b) => ParserV::Left(
            Box::new(parser_view(*a)),
            Box::new(parser_view(*b)),
        ),
        Parser::Right(a, b) => ParserV::Right(
            Box::new(parser_view(*a)),
            Box::new(parser_view(*b)),
        ),
        Parser::Between(a, q, b) => ParserV::Between(
            Box::new(parser_view(*a)),
            Box::new(parser_view(*q)),
            Box::new(parser_view(*b)),
        ),
        Parser::SequenceOf(ps) => ParserV::SequenceOf(parser_views(ps@)),
        Parser::Interspersed(sep, ps) => ParserV::Interspersed(
            Box::new(parser_view(*sep)),
            parser_views(ps@),
        ),
        Parser::OneOf(ps) => ParserV::OneOf(parser_views(ps@)),
        Parser::Expression => ParserV::Expression,
    }
}

/// The shadows of a list of parsers, in order.
pub open spec fn parser_views(ps: Seq<Parser>) -> Seq<ParserV>
    decreases ps,
{
    if ps.len() == 0 {
        Seq::empty()
    } else {
        parser_views(ps.drop_last()).push(parser_view(ps.last()))
    }
}

/// Each shadow in the list is the shadow of the parser at its place.
pub broadcast proof fn lemma_parser_views(ps: Seq<Parser>)
    ensures
        (#[trigger] parser_views(ps)).len() == ps.len(),
        forall|i: int| 0 <= i < ps.len() ==> parser_views(ps)[i] == parser_view(ps[i]),
    decreases ps,
{
    if ps.len() > 0 {
        lemma_parser_views(ps.drop_last());
        assert forall|i: int| 0 <= i < ps.len() implies parser_views(ps)[i] == parser_view(
            ps[i],
        ) by {
            if i < ps.len() - 1 {
                assert(ps.drop_last()[i] == ps[i]);
            }
        }
    }
}

impl View for Parser {
    type V = ParserV;

    open spec fn view(&self) -> ParserV {
        parser_view(*self)
    }
}

/// The shadows of a list of parsers.
pub open spec fn views_of(ps: Seq<Parser>) -> Seq<ParserV> {
    parser_views(ps)
}

/// What a parse means: either the text up to `index` was consumed and
/// produced `value`, or parsing failed at `index` with `message`.
pub enum Outcome {
    Parsed { index: int, value: ValueV },
    Failed { index: int, message: Seq<char> },
}

pub open spec fn msg_end_of_line() -> Seq<char> {
    "End of line"@
}

pub open spec fn msg_unexpected_eol() -> Seq<char> {
    "Unexpected end of line"@
}

pub open spec fn msg_one_or_more() -> Seq<char> {
    "Could not match one or more"@
}

pub open spec fn msg_literal(expected: Seq<char>) -> Seq<char> {
    "Could not match literal: \""@ + expected + "\""@
}

pub open spec fn msg_character(c: char, found: char) -> Seq<char> {
    "Expected '"@ + seq![c] + "' found '"@ + seq![found] + "'"@
}

/// The aggregate error of a choice: every alternative's message, tabbed.
pub open spec fn msg_one_of(msgs: Seq<Seq<char>>) -> Seq<char> {
    "Could not match any parsers:\n"@ + msg_tabbed(msgs)
}

pub open spec fn msg_tabbed(msgs: Seq<Seq<char>>) -> Seq<char>
    decreases msgs.len(),
{
    if msgs.len() == 0 {
        Seq::empty()
    } else {
        "\t"@ + msgs[0] + "\n"@ + msg_tabbed(msgs.drop_first())
    }
}

pub open spec fn is_hex_digit(c: char) -> bool {
    let u = c as u32;
    (48 <= u <= 57) || (97 <= u <= 102) || (65 <= u <= 70)
}

pub open spec fn is_alpha_char(c: char) -> bool {
    let u = c as u32;
    (65 <= u <= 90) || (97 <= u <= 122)
}

pub open spec fn hex_digit_val(c: char) -> int {
    let u = c as u32;
    if 48 <= u <= 57 {
        u - 48
    } else if 97 <= u <= 102 {
        u - 87
    } else if 65 <= u <= 70 {
        u - 55
    } else {
        0
    }
}

/// The 16-bit value of a hex-digit string, reduced modulo the parse width.
pub open spec fn hex_val(s: Seq<char>) -> int
    decreases s.len(),
{
    if s.len() == 0 {
        0
    } else {
        (hex_val(s.drop_last()) * 16 + hex_digit_val(s.last())) % 0x10000
    }
}

/// The first index at or after `i` where `pred` stops holding.
pub open spec fn span_hex(s: Seq<char>, i: int) -> int
    decreases s.len() - i,
    when 0 <= i <= s.len()
{
    if i < s.len() && is_hex_digit(s[i]) {
        span_hex(s, i + 1)
    } else {
        i
    }
}

pub open spec fn span_alpha(s: Seq<char>, i: int) -> int
    decreases s.len() - i,
    when 0 <= i <= s.len()
{
    if i < s.len() && is_alpha_char(s[i]) {
        span_alpha(s, i + 1)
    } else {
        i
    }
}

pub open spec fn span_space(s: Seq<char>, i: int) -> int
    decreases s.len() - i,
    when 0 <= i <= s.len()
{
    if i < s.len() && s[i] == ' ' {
        span_space(s, i + 1)
    } else {
        i
    }
}

/// The lowercase twin of an ASCII uppercase letter; other characters are
/// their own twin.
pub open spec fn lower_char(c: char) -> char {
    if 65 <= c as u32 <= 90 {
        ((c as u32) + 32) as char
    } else {
        c
    }
}

/// The uppercase twin of an ASCII lowercase letter.
pub open spec fn upper_char(c: char) -> char {
    if 97 <= c as u32 <= 122 {
        ((c as u32) - 32) as char
    } else {
        c
    }
}

pub open spec fn lower_seq(s: Seq<char>) -> Seq<char> {
    Seq::new(s.len(), |i: int| lower_char(s[i]))
}

pub open spec fn upper_seq(s: Seq<char>) -> Seq<char> {
    Seq::new(s.len(), |i: int| upper_char(s[i]))
}

/// What a map transformation means on a parse result.
pub open spec fn spec_apply_map(f: MapFnV, v: ValueV) -> ValueV {
    match f {
        MapFnV::ToHexLiteral => match v {
            ValueV::Str(h) => ValueV::Node(TypeV::HexLiteral(hex_val(h) as u16)),
            _ => v,
        },
        MapFnV::ToHexLiteral8 => match v {
            ValueV::Str(h) => ValueV::Node(TypeV::HexLiteral8((hex_val(h) % 0x100) as u8)),
            _ => v,
        },
        MapFnV::ToAddress => match v {
            ValueV::Str(h) => ValueV::Node(TypeV::Address(hex_val(h) as u16)),
            _ => v,
        },
        MapFnV::ToVariable => match v {
            ValueV::Str(name) => ValueV::Node(TypeV::Variable(name)),
            _ => v,
        },
        MapFnV::ToRegister => match v {
            ValueV::Str(name) => ValueV::Node(TypeV::Register(name)),
            _ => v,
        },
        MapFnV::ToLabel => match v {
            ValueV::Str(name) => ValueV::Node(TypeV::Label(name)),
            _ => v,
        },
        MapFnV::ToOperator => match v {
            ValueV::Str(op) => {
                if op == seq!['+'] {
                    ValueV::Node(TypeV::Operator(crate::assembler::parser::Operator::Plus))
                } else if op == seq!['-'] {
                    ValueV::Node(TypeV::Operator(crate::assembler::parser::Operator::Minus))
                } else if op == seq!['*'] {
                    ValueV::Node(TypeV::Operator(crate::assembler::parser::Operator::Star))
                } else {
                    v
                }
            },
            _ => v,
        },
        MapFnV::ToIgnored => ValueV::Node(TypeV::Ignored),
        MapFnV::ToInstruction0(ins) => ValueV::Node(TypeV::Instruction0 { instruction: ins }),
        MapFnV::ToInstruction1(ins) => match v {
            ValueV::List(vs) => {
                if vs.len() == 2 && vs[1] is Node {
                    ValueV::Node(
                        TypeV::Instruction1 {
                            instruction: ins,
                            arg0: Box::new(vs[1]->Node_0),
                        },
                    )
                } else {
                    v
                }
            },
            _ => v,
        },
        MapFnV::ToInstruction2(ins) => match v {
            ValueV::List(vs) => {
                if vs.len() == 3 && vs[1] is Node && vs[2] is Node {
                    ValueV::Node(
                        TypeV::Instruction2 {
                            instruction: ins,
                            arg0: Box::new(vs[1]->Node_0),
                            arg1: Box::new(vs[2]->Node_0),
                        },
                    )
                } else {
                    v
                }
            },
            _ => v,
        },
        MapFnV::ToInstruction3(ins) => match v {
            ValueV::List(vs) => {
                if vs.len() == 4 && vs[1] is Node && vs[2] is Node && vs[3] is Node {
                    ValueV::Node(
                        TypeV::Instruction3 {
                            instruction: ins,
                            arg0: Box::new(vs[1]->Node_0),
                            arg1: Box::new(vs[2]->Node_0),
                            arg2: Box::new(vs[3]->Node_0),
                        },
                    )
                } else {
                    v
                }
            },
            _ => v,
        },
        MapFnV::ConstStr(s) => ValueV::Str(s),
    }
}

/// What an error transformation means.
pub open spec fn spec_apply_err(f: ErrFnV, index: int, message: Seq<char>) -> Outcome {
    match f {
        ErrFnV::Message(m) => Outcome::Failed { index, message: m },
    }
}

/// What a chained continuation means on a successful state.
pub open spec fn spec_apply_chain(f: ChainFnV, start: int, index: int, v: ValueV) -> Outcome {
    match f {
        ChainFnV::FailIfEmpty => {
            if v is List && v->List_0.len() == 0 {
                Outcome::Failed { index: start, message: msg_one_or_more() }
            } else {
                Outcome::Parsed { index, value: v }
            }
        },
        ChainFnV::ConstStr(s) => Outcome::Parsed { index, value: ValueV::Str(s) },
        ChainFnV::Fail(m) => Outcome::Failed { index: start, message: m },
    }
}

/// The meaning of every parser: what it consumes and produces at each
/// position of the input, or where and why it fails.
pub open spec fn spec_parse(p: ParserV, s: Seq<char>, i: int) -> Outcome
    decreases s.len() - i, p, 2int,
{
    if !(0 <= i <= s.len()) {
        Outcome::Failed { index: i, message: msg_end_of_line() }
    } else {
        spec_parse_in(p, s, i)
    }
}

/// The meaning of a parser at an in-range position.
pub open spec fn spec_parse_in(p: ParserV, s: Seq<char>, i: int) -> Outcome
    decreases s.len() - i, p, 1int,
    when 0 <= i <= s.len()
{
    match p {
        ParserV::Literal(w) => {
            if i + w.len() <= s.len() && s.subrange(i, i + w.len() as int) == w {
                Outcome::Parsed { index: i + w.len(), value: ValueV::Str(w) }
            } else {
                Outcome::Failed { index: i, message: msg_literal(w) }
            }
        },
        ParserV::Character(c) => {
            if i < s.len() {
                if s[i] == c {
                    Outcome::Parsed { index: i + 1, value: ValueV::Str(seq![c]) }
                } else {
                    Outcome::Failed { index: i, message: msg_character(c, s[i]) }
                }
            } else {
                Outcome::Failed { index: i, message: msg_unexpected_eol() }
            }
        },
        ParserV::Hexadecimal => {
            let j = span_hex(s, i);
            if j == i {
                Outcome::Failed { index: i, message: msg_one_or_more() }
            } else {
                Outcome::Parsed { index: j, value: ValueV::Str(s.subrange(i, j)) }
            }
        },
        ParserV::Alphabetic => {
            let j = span_alpha(s, i);
            if j == i {
                Outcome::Failed { index: i, message: msg_one_or_more() }
            } else {
                Outcome::Parsed { index: j, value: ValueV::Str(s.subrange(i, j)) }
            }
        },
        ParserV::Whitespace => {
            let j = span_space(s, i);
            if j == i {
                Outcome::Failed { index: i, message: msg_one_or_more() }
            } else {
                Outcome::Parsed { index: j, value: ValueV::Str(s.subrange(i, j)) }
            }
        },
        ParserV::OptionalWhitespace => {
            let j = span_space(s, i);
            Outcome::Parsed { index: j, value: ValueV::Str(s.subrange(i, j)) }
        },
        ParserV::UpperOrLower(w) => {
            if i + w.len() <= s.len() && s.subrange(i, i + w.len() as int) == lower_seq(w) {
                Outcome::Parsed { index: i + w.len(), value: ValueV::Str(w) }
            } else if i + w.len() <= s.len() && s.subrange(i, i + w.len() as int) == upper_seq(w) {
                Outcome::Parsed { index: i + w.len(), value: ValueV::Str(w) }
            } else {
                Outcome::Failed {
                    index: i,
                    message: msg_one_of(seq![msg_literal(lower_seq(w)), msg_literal(upper_seq(w))]),
                }
            }
        },
        ParserV::Mapped(q, f) => match spec_parse(*q, s, i) {
            Outcome::Parsed { index, value } => Outcome::Parsed {
                index,
                value: spec_apply_map(f, value),
            },
            o => o,
        },
        ParserV::MapErr(q, f) => match spec_parse(*q, s, i) {
            Outcome::Failed { index, message } => spec_apply_err(f, index, message),
            o => o,
        },
        ParserV::AndThen(q, f) => match spec_parse(*q, s, i) {
            Outcome::Parsed { index, value } => spec_apply_chain(f, i, index, value),
            o => o,
        },
        ParserV::ZeroOrMore(q) => {
            let (j, vs) = spec_star(*q, s, i);
            Outcome::Parsed { index: j, value: ValueV::List(vs) }
        },
        ParserV::Left(a, b) => match spec_parse(*a, s, i) {
            Outcome::Parsed { index: ja, value: va } => {
                if i <= ja <= s.len() {
                    match spec_parse(*b, s, ja) {
                        Outcome::Parsed { index: jb, value: _ } => Outcome::Parsed {
                            index: jb,
                            value: va,
                        },
                        o => o,
                    }
                } else {
                    Outcome::Failed { index: ja, message: msg_end_of_line() }
                }
            },
            o => o,
        },
        ParserV::Right(a, b) => match spec_parse(*a, s, i) {
            Outcome::Parsed { index: ja, value: _ } => {
                if i <= ja <= s.len() {
                    spec_parse(*b, s, ja)
                } else {
                    Outcome::Failed { index: ja, message: msg_end_of_line() }
                }
            },
            o => o,
        },
        ParserV::Between(before, q, after) => match spec_parse(*before, s, i) {
            Outcome::Parsed { index: j1, value: _ } => {
                if i <= j1 <= s.len() {
                    match spec_parse(*q, s, j1) {
                        Outcome::Parsed { index: j2, value } => {
                            if j1 <= j2 <= s.len() {
                                match spec_parse(*after, s, j2) {
                                    Outcome::Parsed { index: j3, value: _ } => Outcome::Parsed {
                                        index: j3,
                                        value,
                                    },
                                    o => o,
                                }
                            } else {
                                Outcome::Failed { index: j2, message: msg_end_of_line() }
                            }
                        },
                        o => o,
                    }
                } else {
                    Outcome::Failed { index: j1, message: msg_end_of_line() }
                }
            },
            o => o,
        },
        ParserV::SequenceOf(ps) => spec_seq(ps, 0, s, i, Seq::empty()),
        ParserV::Interspersed(sep, ps) => {
            if ps.len() == 0 {
                Outcome::Parsed { index: i, value: ValueV::List(Seq::empty()) }
            } else {
                spec_inter(p, 0, s, i, Seq::empty())
            }
        },
        ParserV::OneOf(ps) => spec_choice(ps, 0, s, i),
        ParserV::Expression => spec_expr(s, i),
    }
}

/// Zero or more runs of a parser: collects results while the parser both
/// succeeds and advances.
pub open spec fn spec_star(q: ParserV, s: Seq<char>, i: int) -> (int, Seq<ValueV>)
    decreases s.len() - i, q, 3int,
    when 0 <= i <= s.len()
{
    match spec_parse(q, s, i) {
        Outcome::Parsed { index: j, value: v } => {
            if i < j <= s.len() {
                let (k, rest) = spec_star(q, s, j);
                (k, seq![v] + rest)
            } else {
                (i, Seq::empty())
            }
        },
        Outcome::Failed { .. } => (i, Seq::empty()),
    }
}

/// Each parser of a sequence in turn, each starting where the last ended.
pub open spec fn spec_seq(ps: Seq<ParserV>, k: int, s: Seq<char>, i: int, acc: Seq<ValueV>) -> Outcome
    decreases s.len() - i, ps, 1int, ps.len() - k,
    when 0 <= i <= s.len() && 0 <= k
{
    if k >= ps.len() {
        Outcome::Parsed { index: i, value: ValueV::List(acc) }
    } else {
        match spec_parse(ps[k], s, i) {
            Outcome::Parsed { index: j, value: v } => {
                if i <= j <= s.len() {
                    spec_seq(ps, k + 1, s, j, acc.push(v))
                } else {
                    Outcome::Failed { index: j, message: msg_end_of_line() }
                }
            },
            o => o,
        }
    }
}

/// A sequence with a separator between neighbours but not at the ends.
pub open spec fn spec_inter(
    w: ParserV,
    k: int,
    s: Seq<char>,
    i: int,
    acc: Seq<ValueV>,
) -> Outcome
    decreases s.len() - i, w, 1int, w->Interspersed_1.len() - k,
    when 0 <= i <= s.len() && 0 <= k && w is Interspersed && w->Interspersed_1.len() >= 1
{
    let sep = *w->Interspersed_0;
    let ps = w->Interspersed_1;
    if k >= ps.len() {
        Outcome::Parsed { index: i, value: ValueV::List(acc) }
    } else {
        match spec_parse(ps[k], s, i) {
            Outcome::Parsed { index: j, value: v } => {
                if i <= j <= s.len() {
                    if k == ps.len() - 1 {
                        Outcome::Parsed { index: j, value: ValueV::List(acc.push(v)) }
                    } else {
                        match spec_parse(sep, s, j) {
                            Outcome::Parsed { index: j2, value: _ } => {
                                if i <= j2 <= s.len() {
                                    spec_inter(w, k + 1, s, j2, acc.push(v))
                                } else {
                                    Outcome::Failed { index: j2, message: msg_end_of_line() }
                                }
                            },
                            o => o,
                        }
                    }
                } else {
                    Outcome::Failed { index: j, message: msg_end_of_line() }
                }
            },
            o => o,
        }
    }
}

/// The first alternative that succeeds; if none does, the aggregate error,
/// reported at the deepest position any alternative reached.
pub open spec fn spec_choice(ps: Seq<ParserV>, k: int, s: Seq<char>, i: int) -> Outcome
    decreases s.len() - i, ps, 1int, ps.len() - k,
    when 0 <= i <= s.len() && 0 <= k
{
    if k >= ps.len() {
        Outcome::Failed {
            index: choice_depth(ps, 0, s, i),
            message: msg_one_of(choice_msgs(ps, 0, s, i)),
        }
    } else {
        match spec_parse(ps[k], s, i) {
            Outcome::Parsed { index, value } => Outcome::Parsed { index, value },
            Outcome::Failed { .. } => spec_choice(ps, k + 1, s, i),
        }
    }
}

/// The deepest position the alternatives of a failed choice reached.
pub open spec fn choice_depth(ps: Seq<ParserV>, k: int, s: Seq<char>, i: int) -> int
    decreases s.len() - i, ps, 0int, ps.len() - k,
    when 0 <= i <= s.len() && 0 <= k
{
    if k >= ps.len() {
        i
    } else {
        let d = match spec_parse(ps[k], s, i) {
            Outcome::Failed { index, message: _ } => index,
            _ => i,
        };
        let rest = choice_depth(ps, k + 1, s, i);
        if d > rest {
            d
        } else {
            rest
        }
    }
}

/// The error message each alternative of a choice produced.
pub open spec fn choice_msgs(ps: Seq<ParserV>, k: int, s: Seq<char>, i: int) -> Seq<Seq<char>>
    decreases s.len() - i, ps, 0int, ps.len() - k,
    when 0 <= i <= s.len() && 0 <= k
{
    if k >= ps.len() {
        Seq::empty()
    } else {
        let m = match spec_parse(ps[k], s, i) {
            Outcome::Failed { index: _, message } => message,
            _ => Seq::empty(),
        };
        seq![m] + choice_msgs(ps, k + 1, s, i)
    }
}

/// The exec result agrees with the parse's meaning.
pub open spec fn outcome_matches(o: Outcome, r: ParseResult<Value>) -> bool {
    match r {
        Result::Ok(st) => o is Parsed && st.index == o->Parsed_index && st.result@
            == o->Parsed_value,
        Result::Err(e) => o is Failed && e.index == o->Failed_index && e.message@
            == o->Failed_message,
    }
}

/// Relies on String::push: appends exactly one character to the string.
#[verifier::external_body]
pub fn push_char(s: &mut String, c: char)
    ensures
        final(s)@ == old(s)@.push(c),
{
    s.push(c);
}

/// Builds the single-character string of `c`.
pub fn char_string(c: char) -> (r: String)
    ensures
        r@ == seq![c],
{
    let mut s = String::new();
    push_char(&mut s, c);
    proof {
        assert(s@ =~= seq![c]);
    }
    s
}

pub(crate) fn build_msg_literal(expected: &str) -> (r: String)
    ensures
        r@ == msg_literal(expected@),
{
    let mut m = String::from_str("Could not match literal: \"");
    m.append(expected);
    m.append("\"");
    m
}

pub(crate) fn build_msg_character(c: char, found: char) -> (r: String)
    ensures
        r@ == msg_character(c, found),
{
    let mut m = String::from_str("Expected '");
    push_char(&mut m, c);
    m.append("' found '");
    push_char(&mut m, found);
    m.append("'");
    proof {
        assert(m@ =~= msg_character(c, found));
    }
    m
}

/// Builds the tabbed list of alternative error messages.
pub(crate) fn build_tabbed(msgs: &Vec<String>, k: usize) -> (r: String)
    requires
        k <= msgs@.len(),
    ensures
        r@ == msg_tabbed(Seq::new(msgs@.len(), |i: int| msgs@[i]@).skip(k as int)),
    decreases msgs@.len() - k,
{
    let ghost views = Seq::new(msgs@.len(), |i: int| msgs@[i]@);
    if k == msgs.len() {
        let r = String::new();
        proof {
            assert(views.skip(k as int).len() == 0);
        }
        r
    } else {
        let mut m = String::from_str("\t");
        m.append(msgs[k].as_str());
        m.append("\n");
        let rest = build_tabbed(msgs, k + 1);
        let r = m.concat(rest.as_str());
        proof {
            assert(views.skip(k as int).drop_first() =~= views.skip(k as int + 1));
            assert(views.skip(k as int)[0] == msgs@[k as int]@);
            assert(r@ =~= msg_tabbed(views.skip(k as int)));
        }
        r
    }
}

pub(crate) fn build_msg_one_of(msgs: &Vec<String>) -> (r: String)
    ensures
        r@ == msg_one_of(Seq::new(msgs@.len(), |i: int| msgs@[i]@)),
    decreases msgs@.len(),
{
    let mut m = String::from_str("Could not match any parsers:\n");
    let rest = build_tabbed(msgs, 0);
    let r = m.concat(rest.as_str());
    proof {
        assert(Seq::new(msgs@.len(), |i: int| msgs@[i]@).skip(0) =~= Seq::new(
            msgs@.len(),
            |i: int| msgs@[i]@,
        ));
    }
    r
}

pub fn hex_digit_value(c: char) -> (r: u32)
    ensures
        r == hex_digit_val(c),
{
    let u = c as u32;
    if 48 <= u && u <= 57 {
        u - 48
    } else if 97 <= u && u <= 102 {
        u - 87
    } else if 65 <= u && u <= 70 {
        u - 55
    } else {
        0
    }
}

/// The value of a hex-digit string, reduced modulo 16 bits.
pub fn hex_value(h: &str) -> (r: u16)
    ensures
        r == hex_val(h@),
{
    let n = h.unicode_len();
    let mut acc: u32 = 0;
    let mut k: usize = 0;
    while k < n
        invariant
            k <= n,
            n == h@.len(),
            acc == hex_val(h@.take(k as int)),
            acc < 0x10000,
        decreases n - k,
    {
        let c = h.get_char(k);
        let d = hex_digit_value(c);
        acc = (acc * 16 + d) % 0x10000;
        proof {
            assert(h@.take(k as int + 1).drop_last() =~= h@.take(k as int));
            assert(h@.take(k as int + 1).last() == h@[k as int]);
        }
        k = k + 1;
    }
    proof {
        assert(h@.take(n as int) =~= h@);
    }
    acc as u16
}

/// The index where a run of hex digits starting at `i` ends.
pub fn scan_hex(input: &str, i: usize) -> (r: usize)
    requires
        i <= input@.len(),
    ensures
        r == span_hex(input@, i as int),
        i <= r <= input@.len(),
    decreases input@.len() - i,
{
    let n = input.unicode_len();
    if i < n {
        let c = input.get_char(i);
        let u = c as u32;
        if (48 <= u && u <= 57) || (97 <= u && u <= 102) || (65 <= u && u <= 70) {
            return scan_hex(input, i + 1);
        }
    }
    i
}

/// The index where a run of letters starting at `i` ends.
pub fn scan_alpha(input: &str, i: usize) -> (r: usize)
    requires
        i <= input@.len(),
    ensures
        r == span_alpha(input@, i as int),
        i <= r <= input@.len(),
    decreases input@.len() - i,
{
    let n = input.unicode_len();
    if i < n {
        let c = input.get_char(i);
        let u = c as u32;
        if (65 <= u && u <= 90) || (97 <= u && u <= 122) {
            return scan_alpha(input, i + 1);
        }
    }
    i
}

/// The index where a run of spaces starting at `i` ends.
pub fn scan_space(input: &str, i: usize) -> (r: usize)
    requires
        i <= input@.len(),
    ensures
        r == span_space(input@, i as int),
        i <= r <= input@.len(),
    decreases input@.len() - i,
{
    let n = input.unicode_len();
    if i < n {
        let c = input.get_char(i);
        if c == ' ' {
            return scan_space(input, i + 1);
        }
    }
    i
}

/// Applies a named map transformation to a parse result.
pub(crate) fn apply_map(f: &MapFn, v: Value) -> (r: Value)
    ensures
        r@ == spec_apply_map(f@, v@),
{
    match f {
        MapFn::ToHexLiteral => match v {
            Value::Str(h) => Value::Node(Type::HexLiteral(hex_value(h.as_str()))),
            other => other,
        },
        MapFn::ToHexLiteral8 => match v {
            Value::Str(h) => Value::Node(Type::HexLiteral8((hex_value(h.as_str()) % 0x100) as u8)),
            other => other,
        },
        MapFn::ToAddress => match v {
            Value::Str(h) => Value::Node(Type::Address(hex_value(h.as_str()))),
            other => other,
        },
        MapFn::ToVariable => match v {
            Value::Str(name) => Value::Node(Type::Variable(name)),
            other => other,
        },
        MapFn::ToRegister => match v {
            Value::Str(name) => Value::Node(Type::Register(name)),
            other => other,
        },
        MapFn::ToLabel => match v {
            Value::Str(name) => Value::Node(Type::Label(name)),
            other => other,
        },
        MapFn::ToOperator => match v {
            Value::Str(op) => {
                proof {
                    reveal_strlit("+");
                    reveal_strlit("-");
                    reveal_strlit("*");
                    assert("+"@ =~= seq!['+']);
                    assert("-"@ =~= seq!['-']);
                    assert("*"@ =~= seq!['*']);
                }
                if crate::parser_combinator::string::str_eq(op.as_str(), "+") {
                    Value::Node(Type::Operator(crate::assembler::parser::Operator::Plus))
                } else if crate::parser_combinator::string::str_eq(op.as_str(), "-") {
                    Value::Node(Type::Operator(crate::assembler::parser::Operator::Minus))
                } else if crate::parser_combinator::string::str_eq(op.as_str(), "*") {
                    Value::Node(Type::Operator(crate::assembler::parser::Operator::Star))
                } else {
                    Value::Str(op)
                }
            },
            other => other,
        },
        MapFn::ToIgnored => Value::Node(Type::Ignored),
        MapFn::ToInstruction0(ins) => Value::Node(Type::Instruction0 { instruction: *ins }),
        MapFn::ToInstruction1(ins) => match v {
            Value::List(mut vs) => {
                proof {
                    lemma_value_views(vs@);
                }
                let ghost origv = vs@;
                if vs.len() == 2 && matches!(&vs[1], Value::Node(_)) {
                    let a0 = vs.remove(1);
                    match a0 {
                        Value::Node(t) => Value::Node(
                            Type::Instruction1 { instruction: *ins, arg0: Box::new(t) },
                        ),
                        _ => Value::List(vs),
                    }
                } else {
                    Value::List(vs)
                }
            },
            other => other,
        },
        MapFn::ToInstruction2(ins) => match v {
            Value::List(mut vs) => {
                proof {
                    lemma_value_views(vs@);
                }
                let ghost origv = vs@;
                if vs.len() == 3 && matches!(&vs[1], Value::Node(_)) && matches!(
                    &vs[2],
                    Value::Node(_),
                ) {
                    let a1 = vs.remove(2);
                    let a0 = vs.remove(1);
                    match (a0, a1) {
                        (Value::Node(t0), Value::Node(t1)) => Value::Node(
                            Type::Instruction2 {
                                instruction: *ins,
                                arg0: Box::new(t0),
                                arg1: Box::new(t1),
                            },
                        ),
                        _ => Value::Node(Type::Ignored),
                    }
                } else {
                    Value::List(vs)
                }
            },
            other => other,
        },
        MapFn::ToInstruction3(ins) => match v {
            Value::List(mut vs) => {
                proof {
                    lemma_value_views(vs@);
                }
                let ghost origv = vs@;
                if vs.len() == 4 && matches!(&vs[1], Value::Node(_)) && matches!(
                    &vs[2],
                    Value::Node(_),
                ) && matches!(&vs[3], Value::Node(_)) {
                    let a2 = vs.remove(3);
                    let a1 = vs.remove(2);
                    let a0 = vs.remove(1);
                    match (a0, a1, a2) {
                        (Value::Node(t0), Value::Node(t1), Value::Node(t2)) => Value::Node(
                            Type::Instruction3 {
                                instruction: *ins,
                                arg0: Box::new(t0),
                                arg1: Box::new(t1),
                                arg2: Box::new(t2),
                            },
                        ),
                        _ => Value::Node(Type::Ignored),
                    }
                } else {
                    Value::List(vs)
                }
            },
            other => other,
        },
        MapFn::ConstStr(w) => Value::Str(w.clone()),
    }
}

/// Whether the text at `index` spells the lowercase twin of `w`.
fn match_lower(input: &str, index: usize, w: &str) -> (r: bool)
    requires
        index + w@.len() <= input@.len(),
    ensures
        r == (input@.subrange(index as int, index + w@.len() as int) == lower_seq(w@)),
{
    let n = input.unicode_len();
    let wn = w.unicode_len();
    let mut k: usize = 0;
    while k < wn
        invariant
            k <= wn,
            wn == w@.len(),
            n == input@.len(),
            index + wn <= n,
            forall|j: int| 0 <= j < k ==> input@[index + j] == lower_seq(w@)[j],
        decreases wn - k,
    {
        let c = input.get_char(index + k);
        let e = w.get_char(k);
        let eu = e as u32;
        let ok: bool = if 65 <= eu && eu <= 90 {
            c as u32 == eu + 32
        } else {
            c == e
        };
        proof {
            assert(ok == (input@[index + k as int] == lower_char(w@[k as int])));
        }
        if !ok {
            proof {
                assert(input@.subrange(index as int, index + w@.len() as int)[k as int]
                    == input@[index + k as int]);
            }
            return false;
        }
        k = k + 1;
    }
    proof {
        assert(input@.subrange(index as int, index + w@.len() as int) =~= lower_seq(w@));
    }
    true
}

/// Whether the text at `index` spells the uppercase twin of `w`.
fn match_upper(input: &str, index: usize, w: &str) -> (r: bool)
    requires
        index + w@.len() <= input@.len(),
    ensures
        r == (input@.subrange(index as int, index + w@.len() as int) == upper_seq(w@)),
{
    let n = input.unicode_len();
    let wn = w.unicode_len();
    let mut k: usize = 0;
    while k < wn
        invariant
            k <= wn,
            wn == w@.len(),
            n == input@.len(),
            index + wn <= n,
            forall|j: int| 0 <= j < k ==> input@[index + j] == upper_seq(w@)[j],
        decreases wn - k,
    {
        let c = input.get_char(index + k);
        let e = w.get_char(k);
        let eu = e as u32;
        let ok: bool = if 97 <= eu && eu <= 122 {
            c as u32 == eu - 32
        } else {
            c == e
        };
        proof {
            assert(ok == (input@[index + k as int] == upper_char(w@[k as int])));
        }
        if !ok {
            proof {
                assert(input@.subrange(index as int, index + w@.len() as int)[k as int]
                    == input@[index + k as int]);
            }
            return false;
        }
        k = k + 1;
    }
    proof {
        assert(input@.subrange(index as int, index + w@.len() as int) =~= upper_seq(w@));
    }
    true
}

/// Builds the lowercase twin of an ASCII word.
fn lower_string(w: &str) -> (r: String)
    ensures
        r@ == lower_seq(w@),
{
    let wn = w.unicode_len();
    let mut out = String::new();
    let mut k: usize = 0;
    while k < wn
        invariant
            k <= wn,
            wn == w@.len(),
            out@ =~= lower_seq(w@).take(k as int),
        decreases wn - k,
    {
        let e = w.get_char(k);
        let eu = e as u32;
        let lc: char = if 65 <= eu && eu <= 90 {
            (((e as u8) + 32) as char)
        } else {
            e
        };
        proof {
            if 65 <= eu && eu <= 90 {
                assert(e as u8 == eu);
            }
            assert(lc == lower_char(w@[k as int]));
            assert(lower_seq(w@).take(k as int + 1) =~= lower_seq(w@).take(k as int).push(
                lower_char(w@[k as int]),
            ));
        }
        push_char(&mut out, lc);
        k = k + 1;
    }
    proof {
        assert(lower_seq(w@).take(wn as int) =~= lower_seq(w@));
    }
    out
}

/// Builds the uppercase twin of an ASCII word.
fn upper_string(w: &str) -> (r: String)
    ensures
        r@ == upper_seq(w@),
{
    let wn = w.unicode_len();
    let mut out = String::new();
    let mut k: usize = 0;
    while k < wn
        invariant
            k <= wn,
            wn == w@.len(),
            out@ =~= upper_seq(w@).take(k as int),
        decreases wn - k,
    {
        let e = w.get_char(k);
        let eu = e as u32;
        let uc: char = if 97 <= eu && eu <= 122 {
            (((e as u8) - 32) as char)
        } else {
            e
        };
        proof {
            if 97 <= eu && eu <= 122 {
                assert(e as u8 == eu);
            }
            assert(uc == upper_char(w@[k as int]));
            assert(upper_seq(w@).take(k as int + 1) =~= upper_seq(w@).take(k as int).push(
                upper_char(w@[k as int]),
            ));
        }
        push_char(&mut out, uc);
        k = k + 1;
    }
    proof {
        assert(upper_seq(w@).take(wn as int) =~= upper_seq(w@));
    }
    out
}

impl Parser {
    /// Runs the parser at the start of the input.
    pub fn parse(&self, input: &str) -> (r: ParseResult<Value>)
        ensures
            outcome_matches(spec_parse(self@, input@, 0), r),
    {
        self.parse_at(input, 0)
    }

    /// Runs the parser at an absolute position of the input; indices in
    /// the result and in errors are absolute too.
    #[verifier::rlimit(100)]
    pub fn parse_at(&self, input: &str, index: usize) -> (r: ParseResult<Value>)
        ensures
            outcome_matches(spec_parse(self@, input@, index as int), r),
        decreases input@.len() - index, *self, 2int,
    {
        let n = input.unicode_len();
        if index > n {
            return Err(ParseError { message: String::from_str("End of line"), index });
        }
        match self {
            Parser::Literal(w) => {
                let wn = w.as_str().unicode_len();
                if wn <= n - index {
                    let sub = input.substring_char(index, index + wn);
                    if crate::parser_combinator::string::str_eq(sub, w.as_str()) {
                        return Ok(ParserState { index: index + wn, result: Value::Str(w.clone()) });
                    }
                }
                Err(ParseError { message: build_msg_literal(w.as_str()), index })
            }
            Parser::Character(c) => {
                if index < n {
                    let found = input.get_char(index);
                    if found == *c {
                        Ok(ParserState { index: index + 1, result: Value::Str(char_string(*c)) })
                    } else {
                        Err(ParseError { message: build_msg_character(*c, found), index })
                    }
                } else {
                    Err(ParseError { message: String::from_str("Unexpected end of line"), index })
                }
            }
            Parser::Hexadecimal => {
                let j = scan_hex(input, index);
                if j == index {
                    Err(ParseError { message: String::from_str("Could not match one or more"), index })
                } else {
                    Ok(
                        ParserState {
                            index: j,
                            result: Value::Str(String::from_str(input.substring_char(index, j))),
                        },
                    )
                }
            }
            Parser::Alphabetic => {
                let j = scan_alpha(input, index);
                if j == index {
                    Err(ParseError { message: String::from_str("Could not match one or more"), index })
                } else {
                    Ok(
                        ParserState {
                            index: j,
                            result: Value::Str(String::from_str(input.substring_char(index, j))),
                        },
                    )
                }
            }
            Parser::Whitespace => {
                let j = scan_space(input, index);
                if j == index {
                    Err(ParseError { message: String::from_str("Could not match one or more"), index })
                } else {
                    Ok(
                        ParserState {
                            index: j,
                            result: Value::Str(String::from_str(input.substring_char(index, j))),
                        },
                    )
                }
            }
            Parser::OptionalWhitespace => {
                let j = scan_space(input, index);
                Ok(
                    ParserState {
                        index: j,
                        result: Value::Str(String::from_str(input.substring_char(index, j))),
                    },
                )
            }
            Parser::UpperOrLower(w) => {
                let wn = w.as_str().unicode_len();
                if wn <= n - index {
                    if match_lower(input, index, w.as_str()) {
                        return Ok(ParserState { index: index + wn, result: Value::Str(w.clone()) });
                    }
                    if match_upper(input, index, w.as_str()) {
                        return Ok(ParserState { index: index + wn, result: Value::Str(w.clone()) });
                    }
                }
                let lowered = lower_string(w.as_str());
                let uppered = upper_string(w.as_str());
                let mut msgs: Vec<String> = Vec::new();
                msgs.push(build_msg_literal(lowered.as_str()));
                msgs.push(build_msg_literal(uppered.as_str()));
                let m = build_msg_one_of(&msgs);
                proof {
                    assert(Seq::new(msgs@.len(), |i: int| msgs@[i]@) =~= seq![
                        msg_literal(lower_seq(w@)),
                        msg_literal(upper_seq(w@)),
                    ]);
                }
                Err(ParseError { message: m, index })
            }
            Parser::Mapped(q, f) => {
                match q.parse_at(input, index) {
                    Ok(st) => Ok(
                        ParserState { index: st.index, result: apply_map(f, st.result) },
                    ),
                    Err(e) => Err(e),
                }
            }
            Parser::MapErr(q, f) => {
                match q.parse_at(input, index) {
                    Ok(st) => Ok(st),
                    Err(e) => match f {
                        ErrFn::Message(m) => Err(
                            ParseError { message: m.clone(), index: e.index },
                        ),
                    },
                }
            }
            Parser::AndThen(q, f) => {
                match q.parse_at(input, index) {
                    Ok(st) => match f {
                        ChainFn::FailIfEmpty => {
                            let empty = match &st.result {
                                Value::List(vs) => vs.len() == 0,
                                _ => false,
                            };
                            if empty {
                                Err(
                                    ParseError {
                                        message: String::from_str("Could not match one or more"),
                                        index,
                                    },
                                )
                            } else {
                                Ok(st)
                            }
                        },
                        ChainFn::ConstStr(w) => Ok(
                            ParserState { index: st.index, result: Value::Str(w.clone()) },
                        ),
                        ChainFn::Fail(m) => Err(ParseError { message: m.clone(), index }),
                    },
                    Err(e) => Err(e),
                }
            }
            Parser::ZeroOrMore(q) => {
                let (j, vs) = parse_star_rec(q, input, index);
                proof {
                    lemma_value_views(vs@);
                    assert(Seq::new(vs@.len(), |k: int| vs@[k]@) =~= value_views(vs@));
                }
                Ok(ParserState { index: j, result: Value::List(vs) })
            }
            Parser::Left(a, b) => {
                match a.parse_at(input, index) {
                    Ok(sta) => {
                        if sta.index < index || sta.index > n {
                            return Err(
                                ParseError {
                                    message: String::from_str("End of line"),
                                    index: sta.index,
                                },
                            );
                        }
                        match b.parse_at(input, sta.index) {
                            Ok(stb) => Ok(ParserState { index: stb.index, result: sta.result }),
                            Err(e) => Err(e),
                        }
                    },
                    Err(e) => Err(e),
                }
            }
            Parser::Right(a, b) => {
                match a.parse_at(input, index) {
                    Ok(sta) => {
                        if sta.index < index || sta.index > n {
                            return Err(
                                ParseError {
                                    message: String::from_str("End of line"),
                                    index: sta.index,
                                },
                            );
                        }
                        b.parse_at(input, sta.index)
                    },
                    Err(e) => Err(e),
                }
            }
            Parser::Between(before, q, after) => {
                match before.parse_at(input, index) {
                    Ok(st1) => {
                        if st1.index < index || st1.index > n {
                            return Err(
                                ParseError {
                                    message: String::from_str("End of line"),
                                    index: st1.index,
                                },
                            );
                        }
                        match q.parse_at(input, st1.index) {
                            Ok(st2) => {
                                if st2.index < st1.index || st2.index > n {
                                    return Err(
                                        ParseError {
                                            message: String::from_str("End of line"),
                                            index: st2.index,
                                        },
                                    );
                                }
                                match after.parse_at(input, st2.index) {
                                    Ok(st3) => Ok(
                                        ParserState { index: st3.index, result: st2.result },
                                    ),
                                    Err(e) => Err(e),
                                }
                            },
                            Err(e) => Err(e),
                        }
                    },
                    Err(e) => Err(e),
                }
            }
            Parser::SequenceOf(ps) => {
                let acc: Vec<Value> = Vec::new();
                proof {
                    assert(Seq::new(acc@.len(), |i: int| acc@[i]@) =~= Seq::<ValueV>::empty());
                }
                parse_seq_rec(ps, 0, input, index, acc)
            }
            Parser::Interspersed(sep, ps) => {
                if ps.len() == 0 {
                    let empty: Vec<Value> = Vec::new();
                    proof {
                        lemma_parser_views(ps@);
                        assert(value_views(empty@) =~= Seq::<ValueV>::empty());
                    }
                    Ok(ParserState { index, result: Value::List(empty) })
                } else {
                    let acc: Vec<Value> = Vec::new();
                    proof {
                        lemma_parser_views(ps@);
                        assert(Seq::new(acc@.len(), |i: int| acc@[i]@) =~= Seq::<ValueV>::empty());
                    }
                    parse_inter_rec(self, 0, input, index, acc)
                }
            }
            Parser::OneOf(ps) => {
                let msgs: Vec<String> = Vec::new();
                proof {
                    lemma_parser_views(ps@);
                    lemma_choice_depth_floor(views_of(ps@), 0, input@, index as int);
                    assert(Seq::new(msgs@.len(), |i: int| msgs@[i]@) =~= choice_msgs(
                        views_of(ps@),
                        0,
                        input@,
                        index as int,
                    ).take(0));
                }
                parse_choice_rec(ps, 0, input, index, msgs, index)
            }
            Parser::Expression => parse_expression(input, index),
        }
    }
}

/// Zero or more runs of a parser, collecting results while it advances.
fn parse_star_rec(q: &Parser, input: &str, index: usize) -> (r: (usize, Vec<Value>))
    requires
        index <= input@.len(),
    ensures
        ({
            let (j, vs) = spec_star(q@, input@, index as int);
            &&& r.0 == j
            &&& Seq::new(r.1@.len(), |k: int| r.1@[k]@) == vs
            &&& index <= r.0 <= input@.len()
        }),
    decreases input@.len() - index, *q, 3int,
{
    let n = input.unicode_len();
    match q.parse_at(input, index) {
        Err(_) => {
            let empty: Vec<Value> = Vec::new();
            proof {
                assert(Seq::new(empty@.len(), |k: int| empty@[k]@) =~= Seq::<ValueV>::empty());
            }
            (index, empty)
        },
        Ok(st) => {
            if st.index > index && st.index <= n {
                let (j, mut rest) = parse_star_rec(q, input, st.index);
                let ghost restpre = rest@;
                rest.insert(0, st.result);
                proof {
                    let (sj, svs) = spec_star(q@, input@, index as int);
                    lemma_value_views(restpre);
                    lemma_value_views(rest@);
                    assert(Seq::new(rest@.len(), |k: int| rest@[k]@) =~= svs);
                }
                (j, rest)
            } else {
                let empty: Vec<Value> = Vec::new();
                proof {
                    assert(Seq::new(empty@.len(), |k: int| empty@[k]@) =~= Seq::<ValueV>::empty());
                }
                (index, empty)
            }
        },
    }
}

/// Each parser of a sequence in turn.
fn parse_seq_rec(ps: &Vec<Parser>, k: usize, input: &str, index: usize, acc: Vec<Value>) -> (r:
    ParseResult<Value>)
    requires
        index <= input@.len(),
        k <= ps@.len(),
    ensures
        outcome_matches(
            spec_seq(
                views_of(ps@),
                k as int,
                input@,
                index as int,
                Seq::new(acc@.len(), |i: int| acc@[i]@),
            ),
            r,
        ),
    decreases input@.len() - index, *ps, 1int, ps@.len() - k,
{
    proof {
        lemma_parser_views(ps@);
    }
    let n = input.unicode_len();
    if k == ps.len() {
        proof {
            lemma_value_views(acc@);
            assert(Seq::new(acc@.len(), |i: int| acc@[i]@) =~= value_views(acc@));
        }
        return Ok(ParserState { index, result: Value::List(acc) });
    }
    match (&ps[k]).parse_at(input, index) {
        Err(e) => Err(e),
        Ok(st) => {
            if index <= st.index && st.index <= n {
                let mut acc2 = acc;
                let ghost oldviews = Seq::new(acc2@.len(), |i: int| acc2@[i]@);
                acc2.push(st.result);
                proof {
                    assert(Seq::new(acc2@.len(), |i: int| acc2@[i]@) =~= oldviews.push(
                        st.result@,
                    ));
                }
                parse_seq_rec(ps, k + 1, input, st.index, acc2)
            } else {
                Err(ParseError { message: String::from_str("End of line"), index: st.index })
            }
        },
    }
}

/// A sequence with a separator between neighbours.
fn parse_inter_rec(w: &Parser, k: usize, input: &str, index: usize, acc: Vec<Value>) -> (r:
    ParseResult<Value>)
    requires
        index <= input@.len(),
        w is Interspersed,
        w->Interspersed_1@.len() >= 1,
        k <= w->Interspersed_1@.len(),
    ensures
        outcome_matches(
            spec_inter(
                w@,
                k as int,
                input@,
                index as int,
                Seq::new(acc@.len(), |i: int| acc@[i]@),
            ),
            r,
        ),
    decreases input@.len() - index, *w, 1int, w->Interspersed_1@.len() - k,
{
    let n = input.unicode_len();
    match w {
        Parser::Interspersed(sep, ps) => {
            proof {
                lemma_parser_views(ps@);
            }
            if k == ps.len() {
                proof {
                    lemma_value_views(acc@);
                    assert(Seq::new(acc@.len(), |i: int| acc@[i]@) =~= value_views(acc@));
                }
                return Ok(ParserState { index, result: Value::List(acc) });
            }
            match (&ps[k]).parse_at(input, index) {
                Err(e) => Err(e),
                Ok(st) => {
                    if st.index < index || st.index > n {
                        return Err(
                            ParseError { message: String::from_str("End of line"), index: st.index },
                        );
                    }
                    let mut acc2 = acc;
                    let ghost oldviews = Seq::new(acc2@.len(), |i: int| acc2@[i]@);
                    acc2.push(st.result);
                    proof {
                        assert(Seq::new(acc2@.len(), |i: int| acc2@[i]@) =~= oldviews.push(
                            st.result@,
                        ));
                    }
                    if k == ps.len() - 1 {
                        proof {
                            lemma_value_views(acc2@);
                            assert(Seq::new(acc2@.len(), |i: int| acc2@[i]@) =~= value_views(
                                acc2@,
                            ));
                        }
                        return Ok(ParserState { index: st.index, result: Value::List(acc2) });
                    }
                    match sep.parse_at(input, st.index) {
                        Err(e) => Err(e),
                        Ok(stsep) => {
                            if index <= stsep.index && stsep.index <= n {
                                parse_inter_rec(w, k + 1, input, stsep.index, acc2)
                            } else {
                                Err(
                                    ParseError {
                                        message: String::from_str("End of line"),
                                        index: stsep.index,
                                    },
                                )
                            }
                        },
                    }
                },
            }
        },
        _ => Err(ParseError { message: String::from_str("End of line"), index }),
    }
}

/// The first alternative that succeeds, or every alternative's error.
fn parse_choice_rec(
    ps: &Vec<Parser>,
    k: usize,
    input: &str,
    index: usize,
    msgs: Vec<String>,
    deepest: usize,
) -> (r: ParseResult<Value>)
    requires
        index <= input@.len(),
        k <= ps@.len(),
        index <= deepest,
        Seq::new(msgs@.len(), |i: int| msgs@[i]@) == choice_msgs(
            views_of(ps@),
            0,
            input@,
            index as int,
        ).take(k as int),
        ({
            let rest = choice_depth(views_of(ps@), k as int, input@, index as int);
            (if deepest as int > rest {
                deepest as int
            } else {
                rest
            }) == choice_depth(views_of(ps@), 0, input@, index as int)
        }),
    ensures
        outcome_matches(spec_choice(views_of(ps@), k as int, input@, index as int), r),
    decreases input@.len() - index, *ps, 1int, ps@.len() - k,
{
    proof {
        lemma_parser_views(ps@);
        lemma_choice_msgs_len(views_of(ps@), 0, input@, index as int);
    }
    if k == ps.len() {
        proof {
            assert(choice_msgs(views_of(ps@), 0, input@, index as int).take(k as int)
                =~= choice_msgs(views_of(ps@), 0, input@, index as int));
        }
        let m = build_msg_one_of(&msgs);
        return Err(ParseError { message: m, index: deepest });
    }
    match (&ps[k]).parse_at(input, index) {
        Ok(st) => Ok(st),
        Err(e) => {
            let mut msgs2 = msgs;
            let ghost oldviews = Seq::new(msgs2@.len(), |i: int| msgs2@[i]@);
            let deepest2 = if e.index > deepest {
                e.index
            } else {
                deepest
            };
            msgs2.push(e.message);
            proof {
                lemma_choice_msgs_take(views_of(ps@), input@, index as int, k as int);
                assert(Seq::new(msgs2@.len(), |i: int| msgs2@[i]@) =~= choice_msgs(
                    views_of(ps@),
                    0,
                    input@,
                    index as int,
                ).take(k as int + 1));
            }
            parse_choice_rec(ps, k + 1, input, index, msgs2, deepest2)
        },
    }
}

/// Every alternative of a choice starts at its position, so the deepest
/// failure is never before it.
proof fn lemma_choice_depth_floor(ps: Seq<ParserV>, k: int, s: Seq<char>, i: int)
    requires
        0 <= i <= s.len(),
        0 <= k <= ps.len(),
    ensures
        choice_depth(ps, k, s, i) >= i,
    decreases ps.len() - k,
{
    if k < ps.len() {
        lemma_choice_depth_floor(ps, k + 1, s, i);
    }
}

/// Taking one more prefix element of the choice messages appends the k-th
/// alternative's message.
proof fn lemma_choice_msgs_take(ps: Seq<ParserV>, s: Seq<char>, i: int, k: int)
    requires
        0 <= i <= s.len(),
        0 <= k < ps.len(),
    ensures
        choice_msgs(ps, 0, s, i).take(k + 1) == choice_msgs(ps, 0, s, i).take(k).push(
            choice_msgs(ps, 0, s, i)[k],
        ),
        choice_msgs(ps, 0, s, i).len() == ps.len(),
        choice_msgs(ps, 0, s, i)[k] == match spec_parse(ps[k], s, i) {
            Outcome::Failed { index: _, message } => message,
            _ => Seq::<char>::empty(),
        },
{
    lemma_choice_msgs_index(ps, 0, s, i, k);
    assert(choice_msgs(ps, 0, s, i).take(k + 1) =~= choice_msgs(ps, 0, s, i).take(k).push(
        choice_msgs(ps, 0, s, i)[k],
    ));
}

/// The k-th choice message is the k-th alternative's failure message.
proof fn lemma_choice_msgs_index(ps: Seq<ParserV>, j: int, s: Seq<char>, i: int, k: int)
    requires
        0 <= i <= s.len(),
        0 <= j <= k < ps.len(),
    ensures
        choice_msgs(ps, j, s, i).len() == ps.len() - j,
        choice_msgs(ps, j, s, i)[k - j] == match spec_parse(ps[k], s, i) {
            Outcome::Failed { index: _, message } => message,
            _ => Seq::<char>::empty(),
        },
    decreases k - j,
{
    if j < k {
        lemma_choice_msgs_index(ps, j + 1, s, i, k);
    } else {
        lemma_choice_msgs_len(ps, j + 1, s, i);
    }
}

proof fn lemma_choice_msgs_len(ps: Seq<ParserV>, j: int, s: Seq<char>, i: int)
    requires
        0 <= i <= s.len(),
        0 <= j <= ps.len(),
    ensures
        choice_msgs(ps, j, s, i).len() == ps.len() - j,
    decreases ps.len() - j,
{
    if j < ps.len() {
        lemma_choice_msgs_len(ps, j + 1, s, i);
    }
}


impl Parser {
    /// Applies a named transformation to this parser's result.
    pub fn map(self, map_fn: MapFn) -> (r: Parser)
        ensures
            r@ == ParserV::Mapped(Box::new(self@), map_fn@),
    {
        Parser::Mapped(Box::new(self), map_fn)
    }

    /// Applies a named transformation to this parser's error.
    pub fn map_err(self, err_map_fn: ErrFn) -> (r: Parser)
        ensures
            r@ == ParserV::MapErr(Box::new(self@), err_map_fn@),
    {
        Parser::MapErr(Box::new(self), err_map_fn)
    }

    /// Runs a named continuation on this parser's state.
    pub fn and_then(self, chain_fn: ChainFn) -> (r: Parser)
        ensures
            r@ == ParserV::AndThen(Box::new(self@), chain_fn@),
    {
        Parser::AndThen(Box::new(self), chain_fn)
    }

    /// Repeats this parser while it advances, collecting the results.
    pub fn zero_or_more(self) -> (r: Parser)
        ensures
            r@ == ParserV::ZeroOrMore(Box::new(self@)),
    {
        Parser::ZeroOrMore(Box::new(self))
    }

    /// Like `zero_or_more`, but fails when nothing matched.
    pub fn one_or_more(self) -> (r: Parser)
        ensures
            r@ == ParserV::AndThen(
                Box::new(ParserV::ZeroOrMore(Box::new(self@))),
                ChainFnV::FailIfEmpty,
            ),
    {
        self.zero_or_more().and_then(ChainFn::FailIfEmpty)
    }

    /// Runs both parsers in order and keeps the first result.
    pub fn left(self, b: Parser) -> (r: Parser)
        ensures
            r@ == ParserV::Left(Box::new(self@), Box::new(b@)),
    {
        Parser::Left(Box::new(self), Box::new(b))
    }

    /// Runs both parsers in order and keeps the second result.
    pub fn right(self, b: Parser) -> (r: Parser)
        ensures
            r@ == ParserV::Right(Box::new(self@), Box::new(b@)),
    {
        Parser::Right(Box::new(self), Box::new(b))
    }

    /// Runs each parser in order and collects every result.
    pub fn sequence_of(parsers: Vec<Parser>) -> (r: Parser)
        ensures
            r@ == ParserV::SequenceOf(views_of(parsers@)),
    {
        Parser::SequenceOf(parsers)
    }

    /// Runs each parser in order with the separator between neighbours.
    pub fn interspersed(separator: Parser, parsers: Vec<Parser>) -> (r: Parser)
        ensures
            r@ == ParserV::Interspersed(Box::new(separator@), views_of(parsers@)),
    {
        Parser::Interspersed(Box::new(separator), parsers)
    }

    /// Runs the bracketing parsers around the middle one and keeps the
    /// middle result.
    pub fn between(before: Parser, parser: Parser, after: Parser) -> (r: Parser)
        ensures
            r@ == ParserV::Between(Box::new(before@), Box::new(parser@), Box::new(after@)),
    {
        Parser::Between(Box::new(before), Box::new(parser), Box::new(after))
    }

    /// Tries each parser in order and keeps the first success.
    pub fn one_of(parsers: Vec<Parser>) -> (r: Parser)
        ensures
            r@ == ParserV::OneOf(views_of(parsers@)),
    {
        Parser::OneOf(parsers)
    }
}

} // verus!
