use vstd::prelude::*;

use crate::assembler::parser::{
    address_parser, hex_literal, hex_literal8, hex_literal8_parser, hex_literal_parser, register,
    register_parser, square_bracket_expression, Type,
};
use crate::cpu::instruction::Instruction;
use crate::parser_combinator::combinator::{
    lemma_parser_views, views_of, MapFn, MapFnV, Parser, ParserV,
};
use crate::parser_combinator::string;
use vstd::string::StringExecFns;

verus! {

/// The shape of a mnemonic matcher: the command word, with its text thrown
/// away.
pub open spec fn com_parser(command: Seq<char>) -> ParserV {
    ParserV::Mapped(Box::new(ParserV::Literal(command)), MapFnV::ToIgnored)
}

fn com(command: &str) -> (r: Parser)
    ensures
        r@ == com_parser(command@),
{
    string::literal(String::from_str(command)).map(MapFn::ToIgnored)
}

/// The shape of a 16-bit literal operand: a hex literal or a bracketed
/// expression.
pub open spec fn hex_or_exp_parser() -> ParserV {
    ParserV::OneOf(seq![hex_literal_parser(), ParserV::Expression])
}

fn hex_or_exp() -> (r: Parser)
    ensures
        r@ == hex_or_exp_parser(),
{
    let mut ps: Vec<Parser> = Vec::new();
    ps.push(hex_literal());
    ps.push(square_bracket_expression());
    proof {
        lemma_parser_views(ps@);
        assert(views_of(ps@) =~= seq![hex_literal_parser(), ParserV::Expression]);
    }
    Parser::one_of(ps)
}

/// The shape of a memory operand: a plain address or an `&`-prefixed
/// bracketed expression.
pub open spec fn address_or_exp_parser() -> ParserV {
    ParserV::OneOf(
        seq![
            address_parser(),
            ParserV::Right(Box::new(ParserV::Character('&')), Box::new(ParserV::Expression)),
        ],
    )
}

fn address_or_exp() -> (r: Parser)
    ensures
        r@ == address_or_exp_parser(),
{
    let mut ps: Vec<Parser> = Vec::new();
    ps.push(crate::assembler::parser::address());
    ps.push(string::character('&').right(square_bracket_expression()));
    proof {
        lemma_parser_views(ps@);
        assert(views_of(ps@) =~= seq![
            address_parser(),
            ParserV::Right(Box::new(ParserV::Character('&')), Box::new(ParserV::Expression)),
        ]);
    }
    Parser::one_of(ps)
}

/// The shape of a two-operand instruction statement: the mnemonic and both
/// operands, separated by spaces, built into an Instruction2 node.
pub open spec fn instruction2_parser(
    instruction: Instruction,
    command: ParserV,
    a: ParserV,
    b: ParserV,
) -> ParserV {
    ParserV::Mapped(
        Box::new(ParserV::Interspersed(Box::new(ParserV::Whitespace), seq![command, a, b])),
        MapFnV::ToInstruction2(instruction),
    )
}

fn instruction2(instruction: Instruction, command: Parser, a: Parser, b: Parser) -> (r: Parser)
    ensures
        r@ == instruction2_parser(instruction, command@, a@, b@),
{
    let ghost cv = command@;
    let ghost av = a@;
    let ghost bv = b@;
    let mut ps: Vec<Parser> = Vec::new();
    ps.push(command);
    ps.push(a);
    ps.push(b);
    proof {
        lemma_parser_views(ps@);
        assert(views_of(ps@) =~= seq![cv, av, bv]);
    }
    Parser::interspersed(string::whitespace(), ps).map(MapFn::ToInstruction2(instruction))
}

/// The shape of a one-operand instruction statement.
pub open spec fn instruction1_parser(
    instruction: Instruction,
    command: ParserV,
    a: ParserV,
) -> ParserV {
    ParserV::Mapped(
        Box::new(ParserV::Interspersed(Box::new(ParserV::Whitespace), seq![command, a])),
        MapFnV::ToInstruction1(instruction),
    )
}

fn instruction1(instruction: Instruction, command: Parser, a: Parser) -> (r: Parser)
    ensures
        r@ == instruction1_parser(instruction, command@, a@),
{
    let ghost cv = command@;
    let ghost av = a@;
    let mut ps: Vec<Parser> = Vec::new();
    ps.push(command);
    ps.push(a);
    proof {
        lemma_parser_views(ps@);
        assert(views_of(ps@) =~= seq![cv, av]);
    }
    Parser::interspersed(string::whitespace(), ps).map(MapFn::ToInstruction1(instruction))
}

/// A 16-bit literal followed by a register.
pub open spec fn lit_reg_parser(command: Seq<char>, instruction: Instruction) -> ParserV {
    instruction2_parser(instruction, com_parser(command), hex_or_exp_parser(), register_parser())
}

pub fn lit_reg(command: &str, instruction: Instruction) -> (r: Parser)
    ensures
        r@ == lit_reg_parser(command@, instruction),
{
    instruction2(instruction, com(command), hex_or_exp(), register())
}

/// A register followed by a 16-bit literal.
pub open spec fn reg_lit_parser(command: Seq<char>, instruction: Instruction) -> ParserV {
    instruction2_parser(instruction, com_parser(command), register_parser(), hex_or_exp_parser())
}

pub fn reg_lit(command: &str, instruction: Instruction) -> (r: Parser)
    ensures
        r@ == reg_lit_parser(command@, instruction),
{
    instruction2(instruction, com(command), register(), hex_or_exp())
}

/// A register followed by an 8-bit literal.
pub open spec fn reg_lit8_parser(command: Seq<char>, instruction: Instruction) -> ParserV {
    instruction2_parser(instruction, com_parser(command), register_parser(), hex_literal8_parser())
}

pub fn reg_lit8(command: &str, instruction: Instruction) -> (r: Parser)
    ensures
        r@ == reg_lit8_parser(command@, instruction),
{
    instruction2(instruction, com(command), register(), hex_literal8())
}

/// A 16-bit literal, an offset register, and a destination register.
pub open spec fn lit_off_reg_parser(command: Seq<char>, instruction: Instruction) -> ParserV {
    ParserV::Mapped(
        Box::new(
            ParserV::Interspersed(
                Box::new(ParserV::Whitespace),
                seq![
                    com_parser(command),
                    hex_or_exp_parser(),
                    register_parser(),
                    register_parser(),
                ],
            ),
        ),
        MapFnV::ToInstruction3(instruction),
    )
}

pub fn lit_off_reg(command: &str, instruction: Instruction) -> (r: Parser)
    ensures
        r@ == lit_off_reg_parser(command@, instruction),
{
    let c = com(command);
    let ghost cv = c@;
    let mut ps: Vec<Parser> = Vec::new();
    ps.push(c);
    ps.push(hex_or_exp());
    ps.push(register());
    ps.push(register());
    proof {
        lemma_parser_views(ps@);
        assert(views_of(ps@) =~= seq![
            cv,
            hex_or_exp_parser(),
            register_parser(),
            register_parser(),
        ]);
    }
    Parser::interspersed(string::whitespace(), ps).map(MapFn::ToInstruction3(instruction))
}

/// Two registers.
pub open spec fn reg_reg_parser(command: Seq<char>, instruction: Instruction) -> ParserV {
    instruction2_parser(instruction, com_parser(command), register_parser(), register_parser())
}

pub fn reg_reg(command: &str, instruction: Instruction) -> (r: Parser)
    ensures
        r@ == reg_reg_parser(command@, instruction),
{
    instruction2(instruction, com(command), register(), register())
}

/// A memory operand followed by a register.
pub open spec fn mem_reg_parser(command: Seq<char>, instruction: Instruction) -> ParserV {
    instruction2_parser(instruction, com_parser(command), address_or_exp_parser(), register_parser())
}

pub fn mem_reg(command: &str, instruction: Instruction) -> (r: Parser)
    ensures
        r@ == mem_reg_parser(command@, instruction),
{
    instruction2(instruction, com(command), address_or_exp(), register())
}

/// A register followed by a memory operand.
pub open spec fn reg_mem_parser(command: Seq<char>, instruction: Instruction) -> ParserV {
    instruction2_parser(instruction, com_parser(command), register_parser(), address_or_exp_parser())
}

pub fn reg_mem(command: &str, instruction: Instruction) -> (r: Parser)
    ensures
        r@ == reg_mem_parser(command@, instruction),
{
    instruction2(instruction, com(command), register(), address_or_exp())
}

/// A 16-bit literal followed by a memory operand.
pub open spec fn lit_mem_parser(command: Seq<char>, instruction: Instruction) -> ParserV {
    instruction2_parser(instruction, com_parser(command), hex_or_exp_parser(), address_or_exp_parser())
}

pub fn lit_mem(command: &str, instruction: Instruction) -> (r: Parser)
    ensures
        r@ == lit_mem_parser(command@, instruction),
{
    instruction2(instruction, com(command), hex_or_exp(), address_or_exp())
}

/// An `&`-prefixed pointer register followed by a register.
pub open spec fn reg_ptr_reg_parser(command: Seq<char>, instruction: Instruction) -> ParserV {
    instruction2_parser(
        instruction,
        com_parser(command),
        ParserV::Right(Box::new(ParserV::Character('&')), Box::new(register_parser())),
        register_parser(),
    )
}

pub fn reg_ptr_reg(command: &str, instruction: Instruction) -> (r: Parser)
    ensures
        r@ == reg_ptr_reg_parser(command@, instruction),
{
    instruction2(
        instruction,
        com(command),
        string::character('&').right(register()),
        register(),
    )
}

/// A lone 16-bit literal operand.
pub open spec fn lit_parser(command: Seq<char>, instruction: Instruction) -> ParserV {
    instruction1_parser(instruction, com_parser(command), hex_or_exp_parser())
}

pub fn lit(command: &str, instruction: Instruction) -> (r: Parser)
    ensures
        r@ == lit_parser(command@, instruction),
{
    instruction1(instruction, com(command), hex_or_exp())
}

/// A lone register operand.
pub open spec fn reg_parser(command: Seq<char>, instruction: Instruction) -> ParserV {
    instruction1_parser(instruction, com_parser(command), register_parser())
}

pub fn reg(command: &str, instruction: Instruction) -> (r: Parser)
    ensures
        r@ == reg_parser(command@, instruction),
{
    instruction1(instruction, com(command), register())
}

/// A bare mnemonic with no operands.
pub open spec fn no_arg_parser(command: Seq<char>, instruction: Instruction) -> ParserV {
    ParserV::Mapped(Box::new(ParserV::Literal(command)), MapFnV::ToInstruction0(instruction))
}

pub fn no_arg(command: &str, instruction: Instruction) -> (r: Parser)
    ensures
        r@ == no_arg_parser(command@, instruction),
{
    string::literal(String::from_str(command)).map(MapFn::ToInstruction0(instruction))
}

} // verus!
