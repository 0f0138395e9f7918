use vstd::prelude::*;

use crate::cpu::instruction::Instruction;
use crate::parser_combinator::combinator::{
    hex_val, lemma_parser_views, msg_character, msg_one_of, msg_one_or_more, msg_unexpected_eol,
    outcome_matches, span_alpha, span_hex, span_space, views_of, MapFn, MapFnV, Outcome,
    ParseError, ParseResult, Parser, ParserState, ParserV, Value, ValueV,
};
use crate::parser_combinator::string;
use vstd::string::StrSliceExecFns;
use vstd::string::StringExecFns;

verus! {

/// An arithmetic operator of a bracketed address expression.
#[derive(Eq, PartialEq, Structural, Debug, Copy, Clone)]
pub enum Operator {
    Plus,
    Minus,
    Star,
}

/// A node of the assembly tree.
#[derive(Debug, Eq, PartialEq)]
pub enum Type {
    Instruction0 { instruction: Instruction },
    Instruction1 { instruction: Instruction, arg0: Box<Type> },
    Instruction2 { instruction: Instruction, arg0: Box<Type>, arg1: Box<Type> },
    Instruction3 { instruction: Instruction, arg0: Box<Type>, arg1: Box<Type>, arg2: Box<Type> },
    BinaryOperation { op: Box<Type>, a: Box<Type>, b: Box<Type> },
    Ignored,
    HexLiteral(u16),
    HexLiteral8(u8),
    Address(u16),
    Variable(String),
    Register(String),
    Operator(Operator),
    Label(String),
}

/// The mathematical shadow of a `Type` node.
pub enum TypeV {
    Instruction0 { instruction: Instruction },
    Instruction1 { instruction: Instruction, arg0: Box<TypeV> },
    Instruction2 { instruction: Instruction, arg0: Box<TypeV>, arg1: Box<TypeV> },
    Instruction3 { instruction: Instruction, arg0: Box<TypeV>, arg1: Box<TypeV>, arg2: Box<TypeV> },
    BinaryOperation { op: Box<TypeV>, a: Box<TypeV>, b: Box<TypeV> },
    Ignored,
    HexLiteral(u16),
    HexLiteral8(u8),
    Address(u16),
    Variable(Seq<char>),
    Register(Seq<char>),
    Operator(Operator),
    Label(Seq<char>),
}

pub open spec fn type_view(t: Type) -> TypeV
    decreases t,
{
    match t {
        Type::Instruction0 { instruction } => TypeV::Instruction0 { instruction },
        Type::Instruction1 { instruction, arg0 } => TypeV::Instruction1 {
            instruction,
            arg0: Box::new(type_view(*arg0)),
        },
        Type::Instruction2 { instruction, arg0, arg1 } => TypeV::Instruction2 {
            instruction,
            arg0: Box::new(type_view(*arg0)),
            arg1: Box::new(type_view(*arg1)),
        },
        Type::Instruction3 { instruction, arg0, arg1, arg2 } => TypeV::Instruction3 {
            instruction,
            arg0: Box::new(type_view(*arg0)),
            arg1: Box::new(type_view(*arg1)),
            arg2: Box::new(type_view(*arg2)),
        },
        Type::BinaryOperation { op, a, b } => TypeV::BinaryOperation {
            op: Box::new(type_view(*op)),
            a: Box::new(type_view(*a)),
            b: Box::new(type_view(*b)),
        },
        Type::Ignored => TypeV::Ignored,
        Type::HexLiteral(v) => TypeV::HexLiteral(v),
        Type::HexLiteral8(v) => TypeV::HexLiteral8(v),
        Type::Address(v) => TypeV::Address(v),
        Type::Variable(name) => TypeV::Variable(name@),
        Type::Register(name) => TypeV::Register(name@),
        Type::Operator(op) => TypeV::Operator(op),
        Type::Label(name) => TypeV::Label(name@),
    }
}

impl View for Type {
    type V = TypeV;

    open spec fn view(&self) -> TypeV {
        type_view(*self)
    }
}

/// The binding priority of an operator; the star binds tightest.
pub open spec fn spec_priority(op: Operator) -> int {
    match op {
        Operator::Plus => 1,
        Operator::Minus => 1,
        Operator::Star => 2,
    }
}

impl Operator {
    pub fn priority(&self) -> (r: usize)
        ensures
            r == spec_priority(*self),
    {
        match self {
            Operator::Plus => 1,
            Operator::Minus => 1,
            Operator::Star => 2,
        }
    }
}

/// The flat element/operator list of an expression: operators stand at
/// every odd position, and the list ends with an element.
pub open spec fn alternating_items(items: Seq<TypeV>) -> bool {
    &&& items.len() % 2 == 1
    &&& forall|i: int| 0 <= i < items.len() && i % 2 == 1 ==> items[i] is Operator
}

/// The odd position of the leftmost operator with the lowest priority seen
/// so far, scanning from position `i`.
pub open spec fn best_split(items: Seq<TypeV>, i: int, pos: int, pri: int) -> int
    decreases items.len() + 1 - i,
    when i >= 1
{
    if i >= items.len() {
        pos
    } else if items[i] is Operator && spec_priority(items[i]->Operator_0) < pri {
        best_split(items, i + 2, i, spec_priority(items[i]->Operator_0))
    } else {
        best_split(items, i + 2, pos, pri)
    }
}

/// Rebuilds a flat operator-interleaved list into a binary tree: the
/// leftmost lowest-priority operator splits the list, and both halves are
/// rebuilt the same way, so the tightest-binding operators sink deepest.
pub open spec fn spec_group(items: Seq<TypeV>) -> TypeV
    decreases items.len(),
{
    if items.len() == 0 {
        TypeV::Ignored
    } else if items.len() == 1 {
        items[0]
    } else {
        let best = best_split(items, 1, 1, 1000);
        let pos = if 1 <= best < items.len() {
            best
        } else {
            1
        };
        if pos + 1 < items.len() {
            TypeV::BinaryOperation {
                op: Box::new(items[pos]),
                a: Box::new(spec_group(items.subrange(0, pos))),
                b: Box::new(spec_group(items.subrange(pos + 1, items.len() as int))),
            }
        } else {
            TypeV::BinaryOperation {
                op: Box::new(items[pos]),
                a: Box::new(spec_group(items.subrange(0, pos))),
                b: Box::new(TypeV::Ignored),
            }
        }
    }
}

/// A hex literal token: `$` then hex digits, reduced modulo 16 bits.
pub open spec fn spec_hex_literal(s: Seq<char>, i: int) -> Outcome {
    if i >= s.len() {
        Outcome::Failed { index: i, message: msg_unexpected_eol() }
    } else if s[i] != '$' {
        Outcome::Failed { index: i, message: msg_character('$', s[i]) }
    } else {
        let j = span_hex(s, i + 1);
        if j == i + 1 {
            Outcome::Failed { index: i + 1, message: msg_one_or_more() }
        } else {
            Outcome::Parsed {
                index: j,
                value: ValueV::Node(TypeV::HexLiteral(hex_val(s.subrange(i + 1, j)) as u16)),
            }
        }
    }
}

/// A label reference token: `!` then letters.
pub open spec fn spec_variable(s: Seq<char>, i: int) -> Outcome {
    if i >= s.len() {
        Outcome::Failed { index: i, message: msg_unexpected_eol() }
    } else if s[i] != '!' {
        Outcome::Failed { index: i, message: msg_character('!', s[i]) }
    } else {
        let j = span_alpha(s, i + 1);
        if j == i + 1 {
            Outcome::Failed { index: i + 1, message: msg_one_or_more() }
        } else {
            Outcome::Parsed {
                index: j,
                value: ValueV::Node(TypeV::Variable(s.subrange(i + 1, j))),
            }
        }
    }
}

/// The message of one single-character alternative of the operator choice.
pub open spec fn op_char_msg(c: char, s: Seq<char>, i: int) -> Seq<char> {
    if i < s.len() {
        msg_character(c, s[i])
    } else {
        msg_unexpected_eol()
    }
}

/// An operator token: `+`, `-`, or `*`.
pub open spec fn spec_operator(s: Seq<char>, i: int) -> Outcome {
    if i < s.len() && s[i] == '+' {
        Outcome::Parsed { index: i + 1, value: ValueV::Node(TypeV::Operator(Operator::Plus)) }
    } else if i < s.len() && s[i] == '-' {
        Outcome::Parsed { index: i + 1, value: ValueV::Node(TypeV::Operator(Operator::Minus)) }
    } else if i < s.len() && s[i] == '*' {
        Outcome::Parsed { index: i + 1, value: ValueV::Node(TypeV::Operator(Operator::Star)) }
    } else {
        Outcome::Failed {
            index: i,
            message: msg_one_of(
                seq![op_char_msg('+', s, i), op_char_msg('-', s, i), op_char_msg('*', s, i)],
            ),
        }
    }
}


/// The shape of the operator token parser.
pub open spec fn operator_parser() -> ParserV {
    ParserV::Mapped(
        Box::new(
            ParserV::OneOf(
                seq![ParserV::Character('+'), ParserV::Character('-'), ParserV::Character('*')],
            ),
        ),
        MapFnV::ToOperator,
    )
}

/// An arithmetic operator token.
pub fn operator() -> (r: Parser)
    ensures
        r@ == operator_parser(),
{
    let mut ps: Vec<Parser> = Vec::new();
    ps.push(string::character('+'));
    ps.push(string::character('-'));
    ps.push(string::character('*'));
    proof {
        lemma_parser_views(ps@);
        assert(views_of(ps@) =~= seq![
            ParserV::Character('+'),
            ParserV::Character('-'),
            ParserV::Character('*'),
        ]);
    }
    Parser::one_of(ps).map(MapFn::ToOperator)
}

/// The outcome of the expression's element/operator loop.
pub enum ItemsOut {
    Done { index: int, items: Seq<TypeV> },
    Bad { index: int, message: Seq<char> },
}

/// The deeper of two positions.
pub open spec fn deeper(a: int, b: int) -> int {
    if a > b {
        a
    } else {
        b
    }
}

/// One element of an expression: a nested expression, a hex literal, or a
/// label reference, tried in that order; when all three fail, the error
/// stands at the deepest position any of them reached.
pub open spec fn spec_element(s: Seq<char>, i: int) -> Outcome
    decreases s.len() - i, 0int, 1int,
    when 0 <= i <= s.len()
{
    match spec_expr(s, i) {
        Outcome::Parsed { index, value } => Outcome::Parsed { index, value },
        Outcome::Failed { index: d1, message: m1 } => match spec_hex_literal(s, i) {
            Outcome::Parsed { index, value } => Outcome::Parsed { index, value },
            Outcome::Failed { index: d2, message: m2 } => match spec_variable(s, i) {
                Outcome::Parsed { index, value } => Outcome::Parsed { index, value },
                Outcome::Failed { index: d3, message: m3 } => Outcome::Failed {
                    index: deeper(deeper(d1, d2), deeper(d3, i)),
                    message: msg_one_of(seq![m1, m2, m3]),
                },
            },
        },
    }
}

/// The element/operator loop of a bracketed expression: elements and
/// operators alternate until the closing bracket.
pub open spec fn spec_expr_items(s: Seq<char>, i: int, expect_op: bool, acc: Seq<TypeV>) -> ItemsOut
    decreases s.len() - i, 1int, 0int,
    when 0 <= i <= s.len()
{
    if expect_op {
        if i >= s.len() {
            ItemsOut::Bad { index: i, message: "EOL"@ }
        } else if s[i] == ']' {
            ItemsOut::Done { index: i + 1, items: acc }
        } else {
            match spec_operator(s, i) {
                Outcome::Failed { index, message } => ItemsOut::Bad { index, message },
                Outcome::Parsed { index: j, value: v } => {
                    let j2 = span_space(s, j);
                    if i < j2 <= s.len() && v is Node {
                        spec_expr_items(s, j2, false, acc.push(v->Node_0))
                    } else {
                        ItemsOut::Bad { index: j, message: "EOL"@ }
                    }
                },
            }
        }
    } else {
        match spec_element(s, i) {
            Outcome::Failed { index, message } => ItemsOut::Bad { index, message },
            Outcome::Parsed { index: j, value: v } => {
                if i < j <= s.len() && v is Node {
                    let j2 = span_space(s, j);
                    if i < j2 <= s.len() {
                        spec_expr_items(s, j2, true, acc.push(v->Node_0))
                    } else {
                        ItemsOut::Bad { index: j, message: "EOL"@ }
                    }
                } else {
                    ItemsOut::Bad { index: j, message: "EOL"@ }
                }
            },
        }
    }
}

/// A bracketed arithmetic expression: `[`, optional spaces, an
/// operator-interleaved list of elements, `]`; the flat list is rebuilt
/// into a binary tree by operator priority.
pub open spec fn spec_expr(s: Seq<char>, i: int) -> Outcome
    decreases s.len() - i, 0int, 0int,
    when 0 <= i <= s.len()
{
    if i >= s.len() {
        Outcome::Failed { index: i, message: msg_unexpected_eol() }
    } else if s[i] != '[' {
        Outcome::Failed { index: i, message: msg_character('[', s[i]) }
    } else {
        let j = span_space(s, i + 1);
        if !(i < j <= s.len()) {
            Outcome::Failed { index: i, message: msg_unexpected_eol() }
        } else {
            match spec_expr_items(s, j, false, Seq::empty()) {
                ItemsOut::Bad { index, message } => Outcome::Failed { index, message },
                ItemsOut::Done { index, items } => Outcome::Parsed {
                    index,
                    value: ValueV::Node(spec_group(items)),
                },
            }
        }
    }
}

/// The view sequence of a list of tree nodes.
pub open spec fn items_view(v: Seq<Type>) -> Seq<TypeV> {
    Seq::new(v.len(), |i: int| v[i]@)
}

/// Rebuilds a flat operator-interleaved list into a binary tree, exactly
/// as `spec_group` describes.
pub fn group_binary_operations(expression: Vec<Type>) -> (r: Type)
    requires
        alternating_items(items_view(expression@)),
    ensures
        r@ == spec_group(items_view(expression@)),
    decreases expression@.len(),
{
    let ghost items = items_view(expression@);
    let mut expression = expression;
    if expression.len() == 1 {
        return expression.remove(0);
    }
    let mut pos: usize = 1;
    let mut pri: usize = 1000;
    let mut i: usize = 1;
    while i < expression.len()
        invariant
            expression@.len() >= 3,
            items == items_view(expression@),
            alternating_items(items),
            i % 2 == 1,
            1 <= i,
            pos % 2 == 1,
            1 <= pos < expression@.len(),
            pri <= 1000,
            best_split(items, 1, 1, 1000) == best_split(items, i as int, pos as int, pri as int),
        decreases expression@.len() - i,
    {
        match &expression[i] {
            Type::Operator(op) => {
                let p = op.priority();
                if p < pri {
                    pos = i;
                    pri = p;
                }
            },
            _ => {
                proof {
                    assert(items[i as int] is Operator);
                    assert(false);
                }
            },
        }
        i = i + 2;
    }
    proof {
        assert(best_split(items, i as int, pos as int, pri as int) == pos);
    }
    let rest = expression.split_off(pos + 1);
    let op = expression.remove(pos);
    proof {
        assert(items_view(expression@) =~= items.subrange(0, pos as int));
        assert(items_view(rest@) =~= items.subrange(pos as int + 1, items.len() as int));
        assert forall|j: int|
            0 <= j < items.subrange(0, pos as int).len() && j % 2 == 1 implies (#[trigger] items.subrange(
            0,
            pos as int,
        )[j]) is Operator by {
            assert(items[j] is Operator);
        }
        assert forall|j: int|
            0 <= j < items.subrange(pos as int + 1, items.len() as int).len() && j % 2 == 1
            implies (#[trigger] items.subrange(pos as int + 1, items.len() as int)[j]) is Operator by {
            assert(items[j + pos + 1] is Operator);
        }
    }
    let a = group_binary_operations(expression);
    let b = group_binary_operations(rest);
    Type::BinaryOperation { op: Box::new(op), a: Box::new(a), b: Box::new(b) }
}

fn build_op_char_msg(c: char, input: &str, i: usize) -> (r: String)
    requires
        i <= input@.len(),
    ensures
        r@ == op_char_msg(c, input@, i as int),
{
    let n = input.unicode_len();
    if i < n {
        crate::parser_combinator::combinator::build_msg_character(c, input.get_char(i))
    } else {
        String::from_str("Unexpected end of line")
    }
}

/// Parses a `$`-prefixed hex literal token.
fn parse_hex_literal_token(input: &str, i: usize) -> (r: ParseResult<Value>)
    requires
        i <= input@.len(),
    ensures
        outcome_matches(spec_hex_literal(input@, i as int), r),
{
    let n = input.unicode_len();
    if i >= n {
        return Err(ParseError { message: String::from_str("Unexpected end of line"), index: i });
    }
    let c = input.get_char(i);
    if c != '$' {
        return Err(
            ParseError {
                message: crate::parser_combinator::combinator::build_msg_character('$', c),
                index: i,
            },
        );
    }
    let j = crate::parser_combinator::combinator::scan_hex(input, i + 1);
    if j == i + 1 {
        return Err(
            ParseError { message: String::from_str("Could not match one or more"), index: i + 1 },
        );
    }
    let digits = input.substring_char(i + 1, j);
    let v = crate::parser_combinator::combinator::hex_value(digits);
    Ok(ParserState { index: j, result: Value::Node(Type::HexLiteral(v)) })
}

/// Parses a `!`-prefixed label reference token.
fn parse_variable_token(input: &str, i: usize) -> (r: ParseResult<Value>)
    requires
        i <= input@.len(),
    ensures
        outcome_matches(spec_variable(input@, i as int), r),
{
    let n = input.unicode_len();
    if i >= n {
        return Err(ParseError { message: String::from_str("Unexpected end of line"), index: i });
    }
    let c = input.get_char(i);
    if c != '!' {
        return Err(
            ParseError {
                message: crate::parser_combinator::combinator::build_msg_character('!', c),
                index: i,
            },
        );
    }
    let j = crate::parser_combinator::combinator::scan_alpha(input, i + 1);
    if j == i + 1 {
        return Err(
            ParseError { message: String::from_str("Could not match one or more"), index: i + 1 },
        );
    }
    let name = input.substring_char(i + 1, j);
    Ok(ParserState { index: j, result: Value::Node(Type::Variable(String::from_str(name))) })
}

/// Parses one arithmetic operator token.
fn parse_operator_token(input: &str, i: usize) -> (r: ParseResult<Value>)
    requires
        i <= input@.len(),
    ensures
        outcome_matches(spec_operator(input@, i as int), r),
{
    let n = input.unicode_len();
    if i < n {
        let c = input.get_char(i);
        if c == '+' {
            return Ok(
                ParserState { index: i + 1, result: Value::Node(Type::Operator(Operator::Plus)) },
            );
        }
        if c == '-' {
            return Ok(
                ParserState { index: i + 1, result: Value::Node(Type::Operator(Operator::Minus)) },
            );
        }
        if c == '*' {
            return Ok(
                ParserState { index: i + 1, result: Value::Node(Type::Operator(Operator::Star)) },
            );
        }
    }
    let mut msgs: Vec<String> = Vec::new();
    msgs.push(build_op_char_msg('+', input, i));
    msgs.push(build_op_char_msg('-', input, i));
    msgs.push(build_op_char_msg('*', input, i));
    let m = crate::parser_combinator::combinator::build_msg_one_of(&msgs);
    proof {
        assert(Seq::new(msgs@.len(), |k: int| msgs@[k]@) =~= seq![
            op_char_msg('+', input@, i as int),
            op_char_msg('-', input@, i as int),
            op_char_msg('*', input@, i as int),
        ]);
    }
    Err(ParseError { message: m, index: i })
}

/// Parses one element of an expression: a nested expression, a hex
/// literal, or a label reference, in that order.
fn parse_element(input: &str, i: usize) -> (r: ParseResult<Value>)
    requires
        i <= input@.len(),
    ensures
        outcome_matches(spec_element(input@, i as int), r),
    decreases input@.len() - i, 0int, 1int,
{
    match parse_expression(input, i) {
        Ok(st) => Ok(st),
        Err(e1) => match parse_hex_literal_token(input, i) {
            Ok(st) => Ok(st),
            Err(e2) => match parse_variable_token(input, i) {
                Ok(st) => Ok(st),
                Err(e3) => {
                    let mut msgs: Vec<String> = Vec::new();
                    let ghost m1 = e1.message@;
                    let ghost m2 = e2.message@;
                    let ghost m3 = e3.message@;
                    let mut idx = i;
                    if e1.index > idx {
                        idx = e1.index;
                    }
                    if e2.index > idx {
                        idx = e2.index;
                    }
                    if e3.index > idx {
                        idx = e3.index;
                    }
                    msgs.push(e1.message);
                    msgs.push(e2.message);
                    msgs.push(e3.message);
                    let m = crate::parser_combinator::combinator::build_msg_one_of(&msgs);
                    proof {
                        assert(Seq::new(msgs@.len(), |k: int| msgs@[k]@) =~= seq![m1, m2, m3]);
                    }
                    Err(ParseError { message: m, index: idx })
                },
            },
        },
    }
}

/// Parses a whole bracketed arithmetic expression and rebuilds its flat
/// element/operator list into a binary tree.
pub fn parse_expression(input: &str, index: usize) -> (r: ParseResult<Value>)
    requires
        index <= input@.len(),
    ensures
        outcome_matches(spec_expr(input@, index as int), r),
    decreases input@.len() - index, 0int, 0int,
{
    let n = input.unicode_len();
    if index >= n {
        return Err(ParseError { message: String::from_str("Unexpected end of line"), index });
    }
    let c0 = input.get_char(index);
    if c0 != '[' {
        return Err(
            ParseError {
                message: crate::parser_combinator::combinator::build_msg_character('[', c0),
                index,
            },
        );
    }
    let ghost j0 = span_space(input@, index as int + 1);
    let mut cur = crate::parser_combinator::combinator::scan_space(input, index + 1);
    let mut items: Vec<Type> = Vec::new();
    proof {
        assert(items_view(items@) =~= Seq::<TypeV>::empty());
    }
    let mut expect_op = false;
    loop
        invariant
            n == input@.len(),
            index < n,
            input@[index as int] == '[',
            j0 == span_space(input@, index as int + 1),
            index < j0 <= n,
            cur <= n,
            index < cur,
            expect_op == (items@.len() % 2 == 1),
            alternating_items_partial(items_view(items@), expect_op),
            spec_expr_items(input@, j0, false, Seq::empty()) == spec_expr_items(
                input@,
                cur as int,
                expect_op,
                items_view(items@),
            ),
        decreases n - cur,
    {
        if expect_op {
            if cur >= n {
                return Err(ParseError { message: String::from_str("EOL"), index: cur });
            }
            let c = input.get_char(cur);
            if c == ']' {
                let mut taken: Vec<Type> = Vec::new();
                core::mem::swap(&mut taken, &mut items);
                proof {
                    assert(alternating_items(items_view(taken@)));
                }
                let g = group_binary_operations(taken);
                return Ok(ParserState { index: cur + 1, result: Value::Node(g) });
            }
            match parse_operator_token(input, cur) {
                Err(e) => {
                    return Err(e);
                },
                Ok(st) => {
                    let cur2 = crate::parser_combinator::combinator::scan_space(input, st.index);
                    match st.result {
                        Value::Node(t) => {
                            let ghost previtems = items_view(items@);
                            items.push(t);
                            proof {
                                assert(items_view(items@) =~= previtems.push(t@));
                            }
                        },
                        _ => {
                            proof {
                                assert(false);
                            }
                        },
                    }
                    expect_op = false;
                    cur = cur2;
                },
            }
        } else {
            match parse_element(input, cur) {
                Err(e) => {
                    return Err(e);
                },
                Ok(st) => {
                    if st.index <= cur || st.index > n {
                        return Err(
                            ParseError { message: String::from_str("EOL"), index: st.index },
                        );
                    }
                    let cur2 = crate::parser_combinator::combinator::scan_space(input, st.index);
                    match st.result {
                        Value::Node(t) => {
                            let ghost previtems = items_view(items@);
                            items.push(t);
                            proof {
                                assert(items_view(items@) =~= previtems.push(t@));
                            }
                        },
                        _ => {
                            proof {
                                assert(false);
                            }
                        },
                    }
                    expect_op = true;
                    cur = cur2;
                },
            }
        }
    }
}

/// The accumulated expression list alternates correctly for its phase.
pub open spec fn alternating_items_partial(items: Seq<TypeV>, expect_op: bool) -> bool {
    &&& (expect_op <==> items.len() % 2 == 1)
    &&& forall|i: int| 0 <= i < items.len() && i % 2 == 1 ==> items[i] is Operator
}

/// The shape of the hex-literal token parser.
pub open spec fn hex_literal_parser() -> ParserV {
    ParserV::Mapped(
        Box::new(
            ParserV::Right(Box::new(ParserV::Character('$')), Box::new(ParserV::Hexadecimal)),
        ),
        MapFnV::ToHexLiteral,
    )
}

/// A `$`-prefixed 16-bit hex literal.
pub fn hex_literal() -> (r: Parser)
    ensures
        r@ == hex_literal_parser(),
{
    string::character('$').right(string::hexadecimal()).map(MapFn::ToHexLiteral)
}

/// The shape of the 8-bit hex-literal token parser.
pub open spec fn hex_literal8_parser() -> ParserV {
    ParserV::Mapped(
        Box::new(
            ParserV::Right(Box::new(ParserV::Character('$')), Box::new(ParserV::Hexadecimal)),
        ),
        MapFnV::ToHexLiteral8,
    )
}

/// A `$`-prefixed hex literal reduced to 8 bits.
pub fn hex_literal8() -> (r: Parser)
    ensures
        r@ == hex_literal8_parser(),
{
    string::character('$').right(string::hexadecimal()).map(MapFn::ToHexLiteral8)
}

/// The shape of the address token parser.
pub open spec fn address_parser() -> ParserV {
    ParserV::Mapped(
        Box::new(
            ParserV::Right(Box::new(ParserV::Character('&')), Box::new(ParserV::Hexadecimal)),
        ),
        MapFnV::ToAddress,
    )
}

/// An `&`-prefixed 16-bit address.
pub fn address() -> (r: Parser)
    ensures
        r@ == address_parser(),
{
    string::character('&').right(string::hexadecimal()).map(MapFn::ToAddress)
}

/// The shape of the label definition parser.
pub open spec fn label_parser() -> ParserV {
    ParserV::Mapped(
        Box::new(ParserV::Left(Box::new(ParserV::Alphabetic), Box::new(ParserV::Character(':')))),
        MapFnV::ToLabel,
    )
}

/// A label definition: letters ending with a colon.
pub fn label() -> (r: Parser)
    ensures
        r@ == label_parser(),
{
    string::alphabetic().left(string::character(':')).map(MapFn::ToLabel)
}

/// The shape of the label reference parser.
pub open spec fn variable_parser() -> ParserV {
    ParserV::Mapped(
        Box::new(ParserV::Right(Box::new(ParserV::Character('!')), Box::new(ParserV::Alphabetic))),
        MapFnV::ToVariable,
    )
}

/// A `!`-prefixed label reference.
pub fn variable() -> (r: Parser)
    ensures
        r@ == variable_parser(),
{
    string::character('!').right(string::alphabetic()).map(MapFn::ToVariable)
}

/// A bracketed arithmetic address expression.
pub fn square_bracket_expression() -> (r: Parser)
    ensures
        r@ == ParserV::Expression,
{
    Parser::Expression
}

/// The register names, in the order the register parser tries them.
pub open spec fn register_names() -> Seq<Seq<char>> {
    seq![
        "IP"@,
        "ACC"@,
        "R1"@,
        "R2"@,
        "R3"@,
        "R4"@,
        "R5"@,
        "R6"@,
        "R7"@,
        "R8"@,
        "SP"@,
        "FP"@,
        "MB"@,
    ]
}

/// The shape of the register token parser.
pub open spec fn register_parser() -> ParserV {
    ParserV::Mapped(
        Box::new(ParserV::OneOf(Seq::new(register_names().len(), |i: int| ParserV::Literal(register_names()[i])))),
        MapFnV::ToRegister,
    )
}

/// A register name token.
pub fn register() -> (r: Parser)
    ensures
        r@ == register_parser(),
{
    let mut names: Vec<Parser> = Vec::new();
    names.push(string::literal(String::from_str("IP")));
    names.push(string::literal(String::from_str("ACC")));
    names.push(string::literal(String::from_str("R1")));
    names.push(string::literal(String::from_str("R2")));
    names.push(string::literal(String::from_str("R3")));
    names.push(string::literal(String::from_str("R4")));
    names.push(string::literal(String::from_str("R5")));
    names.push(string::literal(String::from_str("R6")));
    names.push(string::literal(String::from_str("R7")));
    names.push(string::literal(String::from_str("R8")));
    names.push(string::literal(String::from_str("SP")));
    names.push(string::literal(String::from_str("FP")));
    names.push(string::literal(String::from_str("MB")));
    proof {
        lemma_parser_views(names@);
        assert(views_of(names@) =~= Seq::new(
            register_names().len(),
            |i: int| ParserV::Literal(register_names()[i]),
        ));
    }
    Parser::one_of(names).map(MapFn::ToRegister)
}


/// Operator precedence: in `a + b * c`, the star binds tighter, so the
/// list is split at the plus and the star sinks into the right subtree.
pub proof fn lemma_star_binds_tighter(a: TypeV, b: TypeV, c: TypeV)
    ensures
        spec_group(
            seq![
                a,
                TypeV::Operator(Operator::Plus),
                b,
                TypeV::Operator(Operator::Star),
                c,
            ],
        ) == (TypeV::BinaryOperation {
            op: Box::new(TypeV::Operator(Operator::Plus)),
            a: Box::new(a),
            b: Box::new(
                TypeV::BinaryOperation {
                    op: Box::new(TypeV::Operator(Operator::Star)),
                    a: Box::new(b),
                    b: Box::new(c),
                },
            ),
        }),
{
    let items = seq![a, TypeV::Operator(Operator::Plus), b, TypeV::Operator(Operator::Star), c];
    assert(best_split(items, 5, 1, 1) == 1);
    assert(best_split(items, 3, 1, 1) == 1);
    assert(best_split(items, 1, 1, 1000) == 1);
    let right = items.subrange(2, 5);
    assert(items.subrange(0, 1) =~= seq![a]);
    assert(right =~= seq![b, TypeV::Operator(Operator::Star), c]);
    assert(best_split(right, 3, 1, 2) == 1);
    assert(best_split(right, 1, 1, 1000) == 1);
    assert(right.subrange(0, 1) =~= seq![b]);
    assert(right.subrange(2, 3) =~= seq![c]);
    assert(spec_group(items.subrange(0, 1)) == a);
    assert(spec_group(right.subrange(0, 1)) == b);
    assert(spec_group(right.subrange(2, 3)) == c);
    assert(spec_group(right) == (TypeV::BinaryOperation {
        op: Box::new(TypeV::Operator(Operator::Star)),
        a: Box::new(b),
        b: Box::new(c),
    }));
    assert(spec_group(items) == (TypeV::BinaryOperation {
        op: Box::new(items[1]),
        a: Box::new(spec_group(items.subrange(0, 1))),
        b: Box::new(spec_group(items.subrange(2, 5))),
    }));
}

/// Equal priorities tie-break to the left: in `a + b - c`, the split
/// happens at the leftmost of the equally weak operators.
pub proof fn lemma_leftmost_lowest_wins(a: TypeV, b: TypeV, c: TypeV)
    ensures
        spec_group(
            seq![
                a,
                TypeV::Operator(Operator::Plus),
                b,
                TypeV::Operator(Operator::Minus),
                c,
            ],
        ) == (TypeV::BinaryOperation {
            op: Box::new(TypeV::Operator(Operator::Plus)),
            a: Box::new(a),
            b: Box::new(
                TypeV::BinaryOperation {
                    op: Box::new(TypeV::Operator(Operator::Minus)),
                    a: Box::new(b),
                    b: Box::new(c),
                },
            ),
        }),
{
    let items = seq![a, TypeV::Operator(Operator::Plus), b, TypeV::Operator(Operator::Minus), c];
    assert(best_split(items, 5, 1, 1) == 1);
    assert(best_split(items, 3, 1, 1) == 1);
    assert(best_split(items, 1, 1, 1000) == 1);
    let right = items.subrange(2, 5);
    assert(items.subrange(0, 1) =~= seq![a]);
    assert(right =~= seq![b, TypeV::Operator(Operator::Minus), c]);
    assert(best_split(right, 3, 1, 1) == 1);
    assert(best_split(right, 1, 1, 1000) == 1);
    assert(right.subrange(0, 1) =~= seq![b]);
    assert(right.subrange(2, 3) =~= seq![c]);
    assert(spec_group(items.subrange(0, 1)) == a);
    assert(spec_group(right.subrange(0, 1)) == b);
    assert(spec_group(right.subrange(2, 3)) == c);
    assert(spec_group(right) == (TypeV::BinaryOperation {
        op: Box::new(TypeV::Operator(Operator::Minus)),
        a: Box::new(b),
        b: Box::new(c),
    }));
    assert(spec_group(items) == (TypeV::BinaryOperation {
        op: Box::new(items[1]),
        a: Box::new(spec_group(items.subrange(0, 1))),
        b: Box::new(spec_group(items.subrange(2, 5))),
    }));
}

} // verus!
