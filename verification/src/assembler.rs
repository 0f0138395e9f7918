use vstd::prelude::*;

pub mod formats;
pub mod instruction;
pub mod parser;
pub mod typed;

use crate::assembler::formats::{
    lit, lit_mem, lit_mem_parser, lit_off_reg, lit_off_reg_parser, lit_parser, lit_reg,
    lit_reg_parser, mem_reg, mem_reg_parser, no_arg, no_arg_parser, reg, reg_lit, reg_lit8,
    reg_lit8_parser, reg_lit_parser, reg_mem, reg_mem_parser, reg_parser, reg_ptr_reg,
    reg_ptr_reg_parser, reg_reg, reg_reg_parser,
};
use crate::assembler::parser::{label, label_parser, Type, TypeV};
use crate::cpu::instruction as isa;
use crate::cpu::instruction::Instruction;
use crate::cpu::register::{is_register_name, lookup_register, spec_register_index};
use crate::cpu::wadd;
use crate::device::{hi8, lo8};
use crate::parser_combinator::combinator::{
    lemma_parser_views, outcome_matches, views_of, ChainFnV, Outcome, Parser, ParserV, Value,
    ValueV,
};
use crate::parser_combinator::string::{character, optional_whitespace, str_eq};
use vstd::string::StrSliceExecFns;

verus! {

/// Why a compilation failed: the source did not parse, it was not consumed
/// to the end, a statement was neither a label nor an instruction, a label
/// reference had no definition, or an operand cannot be encoded.
#[derive(Debug, Eq, PartialEq)]
pub enum CompileError {
    ParseFailed { index: usize, message: String },
    IncompleteParse { index: usize },
    UnexpectedStatement,
    UnresolvedLabel { name: String },
    UnsupportedNode,
}

/// What emitting one node yields: its bytes, an unresolved label, or a
/// node the encoder does not support.
pub enum EmitOut {
    Emitted(Seq<u8>),
    NoLabel(Seq<char>),
    Unsupported,
}

/// What compiling a source text means.
pub enum CompileOut {
    Bytes(Seq<u8>),
    ParseFailed { index: int, message: Seq<char> },
    IncompleteParse { index: int },
    UnexpectedStatement,
    UnresolvedLabel { name: Seq<char> },
    Unsupported,
}

/// The label table a list of recorded definitions stands for; a later
/// definition of the same name wins.
pub open spec fn map_of(labels: Seq<(String, u16)>) -> Map<Seq<char>, u16>
    decreases labels.len(),
{
    if labels.len() == 0 {
        Map::empty()
    } else {
        map_of(labels.drop_last()).insert(labels.last().0@, labels.last().1)
    }
}

/// The bytes one tree node assembles to, under a label table.
pub open spec fn spec_emit(t: TypeV, labels: Map<Seq<char>, u16>) -> EmitOut
    decreases t,
{
    match t {
        TypeV::Instruction0 { instruction } => EmitOut::Emitted(seq![instruction.opcode]),
        TypeV::Instruction1 { instruction, arg0 } => match spec_emit(*arg0, labels) {
            EmitOut::Emitted(e0) => EmitOut::Emitted(seq![instruction.opcode] + e0),
            o => o,
        },
        TypeV::Instruction2 { instruction, arg0, arg1 } => match spec_emit(*arg0, labels) {
            EmitOut::Emitted(e0) => match spec_emit(*arg1, labels) {
                EmitOut::Emitted(e1) => EmitOut::Emitted(seq![instruction.opcode] + e0 + e1),
                o => o,
            },
            o => o,
        },
        TypeV::Instruction3 { instruction, arg0, arg1, arg2 } => match spec_emit(*arg0, labels) {
            EmitOut::Emitted(e0) => match spec_emit(*arg1, labels) {
                EmitOut::Emitted(e1) => match spec_emit(*arg2, labels) {
                    EmitOut::Emitted(e2) => EmitOut::Emitted(
                        seq![instruction.opcode] + e0 + e1 + e2,
                    ),
                    o => o,
                },
                o => o,
            },
            o => o,
        },
        TypeV::BinaryOperation { .. } => EmitOut::Unsupported,
        TypeV::Ignored => EmitOut::Unsupported,
        TypeV::HexLiteral(v) => EmitOut::Emitted(seq![hi8(v), lo8(v)]),
        TypeV::HexLiteral8(v) => EmitOut::Emitted(seq![v]),
        TypeV::Address(v) => EmitOut::Emitted(seq![hi8(v), lo8(v)]),
        TypeV::Variable(name) => {
            if labels.contains_key(name) {
                EmitOut::Emitted(seq![hi8(labels[name]), lo8(labels[name])])
            } else {
                EmitOut::NoLabel(name)
            }
        },
        TypeV::Register(name) => {
            if is_register_name(name) {
                EmitOut::Emitted(seq![spec_register_index(name) as u8])
            } else {
                EmitOut::Unsupported
            }
        },
        TypeV::Operator(_) => EmitOut::Unsupported,
        TypeV::Label(_) => EmitOut::Emitted(Seq::empty()),
    }
}

/// The statements a parse yields, each a tree node; anything else on the
/// top level is rejected.
pub open spec fn nodes_of(vs: Seq<ValueV>) -> Option<Seq<TypeV>>
    decreases vs.len(),
{
    if vs.len() == 0 {
        Some(Seq::empty())
    } else {
        match vs[0] {
            ValueV::Node(t) => match nodes_of(vs.drop_first()) {
                Some(r) => Some(seq![t] + r),
                None => None,
            },
            _ => None,
        }
    }
}

/// The layout pass: walks the statements, records each label at the
/// current address, and advances the address by each instruction's
/// declared size, wrapping at 16 bits.
pub open spec fn spec_layout(
    ts: Seq<TypeV>,
    k: int,
    addr: u16,
    acc: Map<Seq<char>, u16>,
) -> Option<Map<Seq<char>, u16>>
    decreases ts.len() - k,
    when 0 <= k
{
    if k >= ts.len() {
        Some(acc)
    } else {
        match ts[k] {
            TypeV::Label(name) => spec_layout(ts, k + 1, addr, acc.insert(name, addr)),
            TypeV::Instruction0 { instruction } => spec_layout(
                ts,
                k + 1,
                wadd(addr, instruction.size as u16),
                acc,
            ),
            TypeV::Instruction1 { instruction, .. } => spec_layout(
                ts,
                k + 1,
                wadd(addr, instruction.size as u16),
                acc,
            ),
            TypeV::Instruction2 { instruction, .. } => spec_layout(
                ts,
                k + 1,
                wadd(addr, instruction.size as u16),
                acc,
            ),
            TypeV::Instruction3 { instruction, .. } => spec_layout(
                ts,
                k + 1,
                wadd(addr, instruction.size as u16),
                acc,
            ),
            _ => None,
        }
    }
}

/// The emit pass: the bytes of every statement, in order.
pub open spec fn spec_emit_all(ts: Seq<TypeV>, k: int, labels: Map<Seq<char>, u16>) -> EmitOut
    decreases ts.len() - k,
    when 0 <= k
{
    if k >= ts.len() {
        EmitOut::Emitted(Seq::empty())
    } else {
        match spec_emit(ts[k], labels) {
            EmitOut::Emitted(e) => match spec_emit_all(ts, k + 1, labels) {
                EmitOut::Emitted(rest) => EmitOut::Emitted(e + rest),
                o => o,
            },
            o => o,
        }
    }
}

/// What laying out and emitting a list of statements means.
pub open spec fn spec_compile_nodes(ts: Seq<TypeV>) -> CompileOut {
    match spec_layout(ts, 0, 0, Map::empty()) {
        None => CompileOut::UnexpectedStatement,
        Some(labels) => match spec_emit_all(ts, 0, labels) {
            EmitOut::Emitted(bytes) => CompileOut::Bytes(bytes),
            EmitOut::NoLabel(name) => CompileOut::UnresolvedLabel { name },
            EmitOut::Unsupported => CompileOut::Unsupported,
        },
    }
}

/// What compiling a source text means: parse it whole with the assembly
/// grammar, lay the statements out, and emit their bytes.
pub open spec fn spec_compile(s: Seq<char>) -> CompileOut {
    match crate::parser_combinator::combinator::spec_parse(asm_parser(), s, 0) {
        Outcome::Failed { index, message } => CompileOut::ParseFailed { index, message },
        Outcome::Parsed { index, value } => {
            if index != s.len() {
                CompileOut::IncompleteParse { index }
            } else {
                match value {
                    ValueV::List(vs) => match nodes_of(vs) {
                        None => CompileOut::UnexpectedStatement,
                        Some(ts) => spec_compile_nodes(ts),
                    },
                    _ => CompileOut::UnexpectedStatement,
                }
            }
        },
    }
}

/// The compiled result agrees with what compiling the source means.
pub open spec fn compile_matches(o: CompileOut, r: Result<Vec<u8>, CompileError>) -> bool {
    match r {
        Result::Ok(bytes) => o is Bytes && bytes@ == o->Bytes_0,
        Result::Err(e) => match e {
            CompileError::ParseFailed { index, message } => o is ParseFailed && index
                == o->ParseFailed_index && message@ == o->ParseFailed_message,
            CompileError::IncompleteParse { index } => o is IncompleteParse && index
                == o->IncompleteParse_index,
            CompileError::UnexpectedStatement => o is UnexpectedStatement,
            CompileError::UnresolvedLabel { name } => o is UnresolvedLabel && name@
                == o->UnresolvedLabel_name,
            CompileError::UnsupportedNode => o is Unsupported,
        },
    }
}

/// The shape of the `mov` statement parser, most specific forms first.
pub open spec fn mov_parser() -> ParserV {
    ParserV::OneOf(
        seq![
            lit_reg_parser("mov"@, Instruction { opcode: 0x10, size: 4 }),
            lit_off_reg_parser("mov"@, Instruction { opcode: 0x1d, size: 5 }),
            reg_reg_parser("mov"@, Instruction { opcode: 0x11, size: 3 }),
            lit_mem_parser("mov"@, Instruction { opcode: 0x09, size: 5 }),
            mem_reg_parser("mov"@, Instruction { opcode: 0x13, size: 4 }),
            reg_ptr_reg_parser("mov"@, Instruction { opcode: 0x1c, size: 3 }),
            reg_mem_parser("mov"@, Instruction { opcode: 0x12, size: 4 }),
        ],
    )
}

pub fn mov() -> (r: Parser)
    ensures
        r@ == mov_parser(),
{
    let mut ps: Vec<Parser> = Vec::new();
    ps.push(lit_reg("mov", isa::move_lit_reg()));
    ps.push(lit_off_reg("mov", isa::move_lit_off_reg()));
    ps.push(reg_reg("mov", isa::move_reg_reg()));
    ps.push(lit_mem("mov", isa::move_lit_mem()));
    ps.push(mem_reg("mov", isa::move_mem_reg()));
    ps.push(reg_ptr_reg("mov", isa::move_reg_ptr_reg()));
    ps.push(reg_mem("mov", isa::move_reg_mem()));
    proof {
        lemma_parser_views(ps@);
        assert(views_of(ps@) =~= mov_parser()->OneOf_0);
    }
    Parser::one_of(ps)
}

pub open spec fn add_parser() -> ParserV {
    ParserV::OneOf(
        seq![
            lit_reg_parser("add"@, Instruction { opcode: 0x30, size: 4 }),
            reg_reg_parser("add"@, Instruction { opcode: 0x14, size: 3 }),
        ],
    )
}

pub fn add() -> (r: Parser)
    ensures
        r@ == add_parser(),
{
    let mut ps: Vec<Parser> = Vec::new();
    ps.push(lit_reg("add", isa::add_lit_reg()));
    ps.push(reg_reg("add", isa::add_reg_reg()));
    proof {
        lemma_parser_views(ps@);
        assert(views_of(ps@) =~= add_parser()->OneOf_0);
    }
    Parser::one_of(ps)
}

pub open spec fn sub_parser() -> ParserV {
    ParserV::OneOf(
        seq![
            lit_reg_parser("sub"@, Instruction { opcode: 0x31, size: 4 }),
            reg_reg_parser("sub"@, Instruction { opcode: 0x33, size: 3 }),
            reg_lit_parser("sub"@, Instruction { opcode: 0x32, size: 4 }),
        ],
    )
}

pub fn sub() -> (r: Parser)
    ensures
        r@ == sub_parser(),
{
    let mut ps: Vec<Parser> = Vec::new();
    ps.push(lit_reg("sub", isa::sub_lit_reg()));
    ps.push(reg_reg("sub", isa::sub_reg_reg()));
    ps.push(reg_lit("sub", isa::sub_reg_lit()));
    proof {
        lemma_parser_views(ps@);
        assert(views_of(ps@) =~= sub_parser()->OneOf_0);
    }
    Parser::one_of(ps)
}

pub open spec fn mul_parser() -> ParserV {
    ParserV::OneOf(
        seq![
            lit_reg_parser("mul"@, Instruction { opcode: 0x34, size: 4 }),
            reg_reg_parser("mul"@, Instruction { opcode: 0x35, size: 3 }),
        ],
    )
}

pub fn mul() -> (r: Parser)
    ensures
        r@ == mul_parser(),
{
    let mut ps: Vec<Parser> = Vec::new();
    ps.push(lit_reg("mul", isa::mul_lit_reg()));
    ps.push(reg_reg("mul", isa::mul_reg_reg()));
    proof {
        lemma_parser_views(ps@);
        assert(views_of(ps@) =~= mul_parser()->OneOf_0);
    }
    Parser::one_of(ps)
}

pub open spec fn lsf_parser() -> ParserV {
    ParserV::OneOf(
        seq![
            reg_lit8_parser("lsf"@, Instruction { opcode: 0x40, size: 3 }),
            reg_reg_parser("lsf"@, Instruction { opcode: 0x41, size: 3 }),
        ],
    )
}

pub fn lsf() -> (r: Parser)
    ensures
        r@ == lsf_parser(),
{
    let mut ps: Vec<Parser> = Vec::new();
    ps.push(reg_lit8("lsf", isa::lsf_reg_lit8()));
    ps.push(reg_reg("lsf", isa::lsf_reg_reg()));
    proof {
        lemma_parser_views(ps@);
        assert(views_of(ps@) =~= lsf_parser()->OneOf_0);
    }
    Parser::one_of(ps)
}

pub open spec fn rsf_parser() -> ParserV {
    ParserV::OneOf(
        seq![
            reg_lit8_parser("rsf"@, Instruction { opcode: 0x42, size: 3 }),
            reg_reg_parser("rsf"@, Instruction { opcode: 0x43, size: 3 }),
        ],
    )
}

pub fn rsf() -> (r: Parser)
    ensures
        r@ == rsf_parser(),
{
    let mut ps: Vec<Parser> = Vec::new();
    ps.push(reg_lit8("rsf", isa::rsf_reg_lit8()));
    ps.push(reg_reg("rsf", isa::rsf_reg_reg()));
    proof {
        lemma_parser_views(ps@);
        assert(views_of(ps@) =~= rsf_parser()->OneOf_0);
    }
    Parser::one_of(ps)
}

pub open spec fn and_parser() -> ParserV {
    ParserV::OneOf(
        seq![
            lit_reg_parser("and"@, Instruction { opcode: 0x44, size: 4 }),
            reg_reg_parser("and"@, Instruction { opcode: 0x45, size: 3 }),
        ],
    )
}

pub fn and() -> (r: Parser)
    ensures
        r@ == and_parser(),
{
    let mut ps: Vec<Parser> = Vec::new();
    ps.push(lit_reg("and", isa::and_reg_lit()));
    ps.push(reg_reg("and", isa::and_reg_reg()));
    proof {
        lemma_parser_views(ps@);
        assert(views_of(ps@) =~= and_parser()->OneOf_0);
    }
    Parser::one_of(ps)
}

pub open spec fn or_parser() -> ParserV {
    ParserV::OneOf(
        seq![
            lit_reg_parser("or"@, Instruction { opcode: 0x46, size: 4 }),
            reg_reg_parser("or"@, Instruction { opcode: 0x47, size: 3 }),
        ],
    )
}

pub fn or() -> (r: Parser)
    ensures
        r@ == or_parser(),
{
    let mut ps: Vec<Parser> = Vec::new();
    ps.push(lit_reg("or", isa::or_reg_lit()));
    ps.push(reg_reg("or", isa::or_reg_reg()));
    proof {
        lemma_parser_views(ps@);
        assert(views_of(ps@) =~= or_parser()->OneOf_0);
    }
    Parser::one_of(ps)
}

pub open spec fn xor_parser() -> ParserV {
    ParserV::OneOf(
        seq![
            lit_reg_parser("xor"@, Instruction { opcode: 0x48, size: 4 }),
            reg_reg_parser("xor"@, Instruction { opcode: 0x49, size: 3 }),
        ],
    )
}

pub fn xor() -> (r: Parser)
    ensures
        r@ == xor_parser(),
{
    let mut ps: Vec<Parser> = Vec::new();
    ps.push(lit_reg("xor", isa::xor_reg_lit()));
    ps.push(reg_reg("xor", isa::xor_reg_reg()));
    proof {
        lemma_parser_views(ps@);
        assert(views_of(ps@) =~= xor_parser()->OneOf_0);
    }
    Parser::one_of(ps)
}

pub open spec fn jump_parser(cmd: Seq<char>, lit_op: u8, reg_op: u8) -> ParserV {
    ParserV::OneOf(
        seq![
            lit_mem_parser(cmd, Instruction { opcode: lit_op, size: 5 }),
            reg_mem_parser(cmd, Instruction { opcode: reg_op, size: 4 }),
        ],
    )
}

fn jump(cmd: &str, lit_ins: Instruction, reg_ins: Instruction) -> (r: Parser)
    ensures
        r@ == ParserV::OneOf(seq![lit_mem_parser(cmd@, lit_ins), reg_mem_parser(cmd@, reg_ins)]),
{
    let mut ps: Vec<Parser> = Vec::new();
    ps.push(lit_mem(cmd, lit_ins));
    ps.push(reg_mem(cmd, reg_ins));
    proof {
        lemma_parser_views(ps@);
        assert(views_of(ps@) =~= seq![lit_mem_parser(cmd@, lit_ins), reg_mem_parser(cmd@, reg_ins)]);
    }
    Parser::one_of(ps)
}

pub fn jeq() -> (r: Parser)
    ensures
        r@ == jump_parser("jeq"@, 0x52, 0x53),
{
    jump("jeq", isa::jeq_lit_mem(), isa::jeq_reg_mem())
}

pub fn jne() -> (r: Parser)
    ensures
        r@ == jump_parser("jne"@, 0x50, 0x51),
{
    jump("jne", isa::jne_lit_mem(), isa::jne_reg_mem())
}

pub fn jgt() -> (r: Parser)
    ensures
        r@ == jump_parser("jgt"@, 0x54, 0x55),
{
    jump("jgt", isa::jgt_lit_mem(), isa::jgt_reg_mem())
}

pub fn jlt() -> (r: Parser)
    ensures
        r@ == jump_parser("jlt"@, 0x56, 0x57),
{
    jump("jlt", isa::jlt_lit_mem(), isa::jlt_reg_mem())
}

pub fn jle() -> (r: Parser)
    ensures
        r@ == jump_parser("jle"@, 0x5a, 0x5b),
{
    jump("jle", isa::jle_lit_mem(), isa::jle_reg_mem())
}

pub fn jge() -> (r: Parser)
    ensures
        r@ == jump_parser("jge"@, 0x58, 0x59),
{
    jump("jge", isa::jge_lit_mem(), isa::jge_reg_mem())
}

pub open spec fn psh_parser() -> ParserV {
    ParserV::OneOf(
        seq![
            lit_parser("psh"@, Instruction { opcode: 0x16, size: 3 }),
            reg_parser("psh"@, Instruction { opcode: 0x17, size: 2 }),
        ],
    )
}

pub fn psh() -> (r: Parser)
    ensures
        r@ == psh_parser(),
{
    let mut ps: Vec<Parser> = Vec::new();
    ps.push(lit("psh", isa::psh_lit()));
    ps.push(reg("psh", isa::psh_reg()));
    proof {
        lemma_parser_views(ps@);
        assert(views_of(ps@) =~= psh_parser()->OneOf_0);
    }
    Parser::one_of(ps)
}

pub open spec fn cal_parser() -> ParserV {
    ParserV::OneOf(
        seq![
            lit_parser("cal"@, Instruction { opcode: 0x19, size: 3 }),
            reg_parser("cal"@, Instruction { opcode: 0x1a, size: 2 }),
        ],
    )
}

pub fn cal() -> (r: Parser)
    ensures
        r@ == cal_parser(),
{
    let mut ps: Vec<Parser> = Vec::new();
    ps.push(lit("cal", isa::cal_lit()));
    ps.push(reg("cal", isa::cal_reg()));
    proof {
        lemma_parser_views(ps@);
        assert(views_of(ps@) =~= cal_parser()->OneOf_0);
    }
    Parser::one_of(ps)
}

pub fn pop() -> (r: Parser)
    ensures
        r@ == reg_parser("pop"@, Instruction { opcode: 0x18, size: 2 }),
{
    reg("pop", isa::pop_reg())
}

pub fn inc() -> (r: Parser)
    ensures
        r@ == reg_parser("inc"@, Instruction { opcode: 0x36, size: 2 }),
{
    reg("inc", isa::inc_reg())
}

pub fn dec() -> (r: Parser)
    ensures
        r@ == reg_parser("dec"@, Instruction { opcode: 0x37, size: 2 }),
{
    reg("dec", isa::dec_reg())
}

pub fn not() -> (r: Parser)
    ensures
        r@ == reg_parser("not"@, Instruction { opcode: 0x4a, size: 2 }),
{
    reg("not", isa::not_reg())
}

pub fn ret() -> (r: Parser)
    ensures
        r@ == no_arg_parser("ret"@, Instruction { opcode: 0x1b, size: 1 }),
{
    no_arg("ret", isa::ret())
}

pub fn hlt() -> (r: Parser)
    ensures
        r@ == no_arg_parser("hlt"@, Instruction { opcode: 0xff, size: 1 }),
{
    no_arg("hlt", isa::hlt())
}

/// The shape of one assembly statement: a label or any mnemonic.
pub open spec fn asm_instruction_parser() -> ParserV {
    ParserV::OneOf(
        seq![
            label_parser(),
            mov_parser(),
            add_parser(),
            sub_parser(),
            mul_parser(),
            lsf_parser(),
            rsf_parser(),
            and_parser(),
            or_parser(),
            xor_parser(),
            jump_parser("jeq"@, 0x52, 0x53),
            jump_parser("jne"@, 0x50, 0x51),
            jump_parser("jgt"@, 0x54, 0x55),
            jump_parser("jlt"@, 0x56, 0x57),
            jump_parser("jle"@, 0x5a, 0x5b),
            jump_parser("jge"@, 0x58, 0x59),
            psh_parser(),
            reg_parser("pop"@, Instruction { opcode: 0x18, size: 2 }),
            reg_parser("inc"@, Instruction { opcode: 0x36, size: 2 }),
            reg_parser("dec"@, Instruction { opcode: 0x37, size: 2 }),
            reg_parser("not"@, Instruction { opcode: 0x4a, size: 2 }),
            cal_parser(),
            no_arg_parser("ret"@, Instruction { opcode: 0x1b, size: 1 }),
            no_arg_parser("hlt"@, Instruction { opcode: 0xff, size: 1 }),
        ],
    )
}

/// One assembly statement: a label or any mnemonic, tried in order.
pub fn assembly_instruction() -> (r: Parser)
    ensures
        r@ == asm_instruction_parser(),
{
    let mut ps: Vec<Parser> = Vec::new();
    ps.push(label());
    ps.push(mov());
    ps.push(crate::assembler::add());
    ps.push(crate::assembler::sub());
    ps.push(crate::assembler::mul());
    ps.push(lsf());
    ps.push(rsf());
    ps.push(and());
    ps.push(or());
    ps.push(xor());
    ps.push(jeq());
    ps.push(jne());
    ps.push(jgt());
    ps.push(jlt());
    ps.push(jle());
    ps.push(jge());
    ps.push(psh());
    ps.push(pop());
    ps.push(inc());
    ps.push(dec());
    ps.push(not());
    ps.push(cal());
    ps.push(ret());
    ps.push(hlt());
    proof {
        lemma_parser_views(ps@);
        assert(views_of(ps@) =~= asm_instruction_parser()->OneOf_0);
    }
    Parser::one_of(ps)
}

/// The shape of a whole program: one or more newline-terminated statements.
pub open spec fn asm_parser() -> ParserV {
    ParserV::AndThen(
        Box::new(
            ParserV::ZeroOrMore(
                Box::new(
                    ParserV::Left(
                        Box::new(
                            ParserV::Left(
                                Box::new(asm_instruction_parser()),
                                Box::new(ParserV::OptionalWhitespace),
                            ),
                        ),
                        Box::new(ParserV::Character('\n')),
                    ),
                ),
            ),
        ),
        ChainFnV::FailIfEmpty,
    )
}

/// A whole program: one or more newline-terminated statements.
pub fn assembly_parser() -> (r: Parser)
    ensures
        r@ == asm_parser(),
{
    assembly_instruction().left(optional_whitespace()).left(character('\n')).one_or_more()
}

/// Keys past `i` that are not `n` do not affect what the table says of `n`.
proof fn lemma_map_of_unaffected(l: Seq<(String, u16)>, n: Seq<char>, i: int)
    requires
        0 <= i <= l.len(),
        forall|j: int| i <= j < l.len() ==> (#[trigger] l[j].0)@ != n,
    ensures
        map_of(l).contains_key(n) == map_of(l.take(i)).contains_key(n),
        map_of(l).contains_key(n) ==> map_of(l)[n] == map_of(l.take(i))[n],
    decreases l.len() - i,
{
    if i < l.len() {
        lemma_map_of_unaffected(l, n, i + 1);
        assert(l.take(i + 1).drop_last() =~= l.take(i));
        assert(l.take(i + 1).last() == l[i]);
        assert(map_of(l.take(i + 1)) == map_of(l.take(i)).insert(l[i].0@, l[i].1));
    } else {
        assert(l.take(i) =~= l);
    }
}

/// Looks a label up; the latest definition of a name wins.
fn lookup_label(labels: &Vec<(String, u16)>, name: &str) -> (r: Option<u16>)
    ensures
        match r {
            Some(v) => map_of(labels@).contains_key(name@) && map_of(labels@)[name@] == v,
            None => !map_of(labels@).contains_key(name@),
        },
{
    let mut i = labels.len();
    while i > 0
        invariant
            i <= labels@.len(),
            forall|j: int| i <= j < labels@.len() ==> (#[trigger] labels@[j].0)@ != name@,
        decreases i,
    {
        i = i - 1;
        if str_eq(labels[i].0.as_str(), name) {
            proof {
                lemma_map_of_unaffected(labels@, name@, i + 1);
                assert(labels@.take(i + 1).drop_last() =~= labels@.take(i as int));
                assert(labels@.take(i + 1).last() == labels@[i as int]);
            }
            return Some(labels[i].1);
        }
    }
    proof {
        lemma_map_of_unaffected(labels@, name@, 0);
        assert(labels@.take(0) =~= Seq::<(String, u16)>::empty());
    }
    None
}

/// Emits the bytes of one tree node: the opcode of an instruction followed
/// by its recursively emitted operands; literals and addresses big-endian;
/// a register as its file offset; a label reference as the recorded
/// address; a label definition as nothing.
pub fn encode(t: &Type, labels: &Vec<(String, u16)>) -> (r: Result<Vec<u8>, CompileError>)
    ensures
        match r {
            Result::Ok(bytes) => spec_emit(t@, map_of(labels@)) == EmitOut::Emitted(bytes@),
            Result::Err(e) => match e {
                CompileError::UnresolvedLabel { name } => spec_emit(t@, map_of(labels@))
                    == EmitOut::NoLabel(name@),
                CompileError::UnsupportedNode => spec_emit(t@, map_of(labels@))
                    == EmitOut::Unsupported,
                _ => false,
            },
        },
    decreases *t,
{
    match t {
        Type::Instruction0 { instruction } => {
            let mut res: Vec<u8> = Vec::new();
            res.push(instruction.opcode);
            proof {
                assert(res@ =~= seq![instruction.opcode]);
            }
            Ok(res)
        },
        Type::Instruction1 { instruction, arg0 } => {
            let mut res: Vec<u8> = Vec::new();
            res.push(instruction.opcode);
            let mut e0 = encode(arg0, labels)?;
            let ghost e0v = e0@;
            res.append(&mut e0);
            proof {
                assert(res@ =~= seq![instruction.opcode] + e0v);
            }
            Ok(res)
        },
        Type::Instruction2 { instruction, arg0, arg1 } => {
            let mut res: Vec<u8> = Vec::new();
            res.push(instruction.opcode);
            let mut e0 = encode(arg0, labels)?;
            let ghost e0v = e0@;
            res.append(&mut e0);
            let mut e1 = encode(arg1, labels)?;
            let ghost e1v = e1@;
            res.append(&mut e1);
            proof {
                assert(res@ =~= seq![instruction.opcode] + e0v + e1v);
            }
            Ok(res)
        },
        Type::Instruction3 { instruction, arg0, arg1, arg2 } => {
            let mut res: Vec<u8> = Vec::new();
            res.push(instruction.opcode);
            let mut e0 = encode(arg0, labels)?;
            let ghost e0v = e0@;
            res.append(&mut e0);
            let mut e1 = encode(arg1, labels)?;
            let ghost e1v = e1@;
            res.append(&mut e1);
            let mut e2 = encode(arg2, labels)?;
            let ghost e2v = e2@;
            res.append(&mut e2);
            proof {
                assert(res@ =~= seq![instruction.opcode] + e0v + e1v + e2v);
            }
            Ok(res)
        },
        Type::BinaryOperation { .. } => Err(CompileError::UnsupportedNode),
        Type::Ignored => Err(CompileError::UnsupportedNode),
        Type::HexLiteral(v) => {
            let mut res: Vec<u8> = Vec::new();
            res.push((*v / 256) as u8);
            res.push((*v % 256) as u8);
            proof {
                assert(res@ =~= seq![hi8(*v), lo8(*v)]);
            }
            Ok(res)
        },
        Type::HexLiteral8(v) => {
            let mut res: Vec<u8> = Vec::new();
            res.push(*v);
            proof {
                assert(res@ =~= seq![*v]);
            }
            Ok(res)
        },
        Type::Address(v) => {
            let mut res: Vec<u8> = Vec::new();
            res.push((*v / 256) as u8);
            res.push((*v % 256) as u8);
            proof {
                assert(res@ =~= seq![hi8(*v), lo8(*v)]);
            }
            Ok(res)
        },
        Type::Variable(name) => match lookup_label(labels, name.as_str()) {
            Some(v) => {
                let mut res: Vec<u8> = Vec::new();
                res.push((v / 256) as u8);
                res.push((v % 256) as u8);
                proof {
                    assert(res@ =~= seq![hi8(v), lo8(v)]);
                }
                Ok(res)
            },
            None => Err(CompileError::UnresolvedLabel { name: name.clone() }),
        },
        Type::Register(name) => match lookup_register(name.as_str()) {
            Some(idx) => {
                let mut res: Vec<u8> = Vec::new();
                res.push(idx as u8);
                proof {
                    assert(res@ =~= seq![spec_register_index(name@) as u8]);
                }
                Ok(res)
            },
            None => Err(CompileError::UnsupportedNode),
        },
        Type::Operator(_) => Err(CompileError::UnsupportedNode),
        Type::Label(_) => Ok(Vec::new()),
    }
}

/// Compiles assembly source to machine code: parses the whole text, lays
/// out the statements to resolve labels, then emits every statement's
/// bytes in order.
pub fn compile(code: &str) -> (r: Result<Vec<u8>, CompileError>)
    ensures
        compile_matches(spec_compile(code@), r),
{
    let p = assembly_parser();
    let st = match p.parse(code) {
        Err(e) => {
            return Err(CompileError::ParseFailed { index: e.index, message: e.message });
        },
        Ok(st) => st,
    };
    if st.index != code.unicode_len() {
        return Err(CompileError::IncompleteParse { index: st.index });
    }
    let mut vs = match st.result {
        Value::List(vs) => vs,
        _ => {
            return Err(CompileError::UnexpectedStatement);
        },
    };
    let ghost vs0 = crate::parser_combinator::combinator::value_views(vs@);
    let mut nodes: Vec<Type> = Vec::new();
    proof {
        assert(crate::assembler::parser::items_view(nodes@) =~= Seq::<TypeV>::empty());
    }
    proof {
        assert(spec_compile(code@) == (match nodes_of(vs0) {
            None => CompileOut::UnexpectedStatement,
            Some(ts2) => spec_compile_nodes(ts2),
        }));
    }
    while vs.len() > 0
        invariant
            nodes_of(vs0) == match nodes_of(crate::parser_combinator::combinator::value_views(vs@)) {
                Some(rest) => Some(crate::assembler::parser::items_view(nodes@) + rest),
                None => None,
            },
            spec_compile(code@) == (match nodes_of(vs0) {
                None => CompileOut::UnexpectedStatement,
                Some(ts2) => spec_compile_nodes(ts2),
            }),
        decreases vs@.len(),
    {
        let ghost before = vs@;
        let ghost nodesb = nodes@;
        let v = vs.remove(0);
        proof {
            crate::parser_combinator::combinator::lemma_value_views(before);
            crate::parser_combinator::combinator::lemma_value_views(vs@);
            assert(crate::parser_combinator::combinator::value_views(vs@)
                =~= crate::parser_combinator::combinator::value_views(before).drop_first());
        }
        match v {
            Value::Node(t) => {
                nodes.push(t);
                proof {
                    assert(crate::assembler::parser::items_view(nodes@)
                        =~= crate::assembler::parser::items_view(nodesb).push(nodes@.last()@));
                    assert(crate::parser_combinator::combinator::value_views(before)[0]
                        == ValueV::Node(nodes@.last()@));
                    assert forall|rest: Seq<TypeV>|
                        crate::assembler::parser::items_view(nodesb) + (seq![nodes@.last()@]
                            + rest) =~= crate::assembler::parser::items_view(nodes@) + rest by {}
                }
            },
            other => {
                proof {
                    crate::parser_combinator::combinator::lemma_value_views(before);
                    assert(crate::parser_combinator::combinator::value_views(before)[0]
                        == crate::parser_combinator::combinator::value_view(before[0]));
                    assert(!(crate::parser_combinator::combinator::value_views(before)[0]
                        is Node));
                    assert(nodes_of(crate::parser_combinator::combinator::value_views(before))
                        is None);
                }
                return Err(CompileError::UnexpectedStatement);
            },
        }
    }
    proof {
        crate::parser_combinator::combinator::lemma_value_views(vs@);
        assert(nodes_of(crate::parser_combinator::combinator::value_views(vs@))
            == Some(Seq::<TypeV>::empty()));
        assert(crate::assembler::parser::items_view(nodes@) + Seq::<TypeV>::empty()
            =~= crate::assembler::parser::items_view(nodes@));
    }
    let ghost ts = crate::assembler::parser::items_view(nodes@);
    let mut labels: Vec<(String, u16)> = Vec::new();
    let mut current_address: u16 = 0;
    let mut k: usize = 0;
    proof {
        assert(spec_compile(code@) == spec_compile_nodes(ts));
    }
    while k < nodes.len()
        invariant
            ts == crate::assembler::parser::items_view(nodes@),
            k <= nodes@.len(),
            spec_compile(code@) == spec_compile_nodes(ts),
            spec_layout(ts, 0, 0, Map::empty()) == spec_layout(
                ts,
                k as int,
                current_address,
                map_of(labels@),
            ),
        decreases nodes@.len() - k,
    {
        let ghost labelsb = labels@;
        match &nodes[k] {
            Type::Label(name) => {
                labels.push((name.clone(), current_address));
                proof {
                    assert(labels@.drop_last() =~= labelsb);
                    assert(map_of(labels@) == map_of(labelsb).insert(name@, current_address));
                }
            },
            Type::Instruction0 { instruction } => {
                current_address = current_address.wrapping_add(instruction.size as u16);
            },
            Type::Instruction1 { instruction, .. } => {
                current_address = current_address.wrapping_add(instruction.size as u16);
            },
            Type::Instruction2 { instruction, .. } => {
                current_address = current_address.wrapping_add(instruction.size as u16);
            },
            Type::Instruction3 { instruction, .. } => {
                current_address = current_address.wrapping_add(instruction.size as u16);
            },
            _ => {
                return Err(CompileError::UnexpectedStatement);
            },
        }
        k = k + 1;
    }
    let mut res: Vec<u8> = Vec::new();
    let mut k: usize = 0;
    while k < nodes.len()
        invariant
            ts == crate::assembler::parser::items_view(nodes@),
            k <= nodes@.len(),
            spec_compile(code@) == spec_compile_nodes(ts),
            spec_layout(ts, 0, 0, Map::empty()) == Some(map_of(labels@)),
            spec_emit_all(ts, 0, map_of(labels@)) == match spec_emit_all(
                ts,
                k as int,
                map_of(labels@),
            ) {
                EmitOut::Emitted(rest) => EmitOut::Emitted(res@ + rest),
                o => o,
            },
        decreases nodes@.len() - k,
    {
        let ghost resb = res@;
        match encode(&nodes[k], &labels) {
            Ok(mut bytes) => {
                let ghost bv = bytes@;
                res.append(&mut bytes);
                proof {
                    assert(res@ =~= resb + bv);
                    assert forall|rest: Seq<u8>| resb + (bv + rest) =~= res@ + rest by {}
                }
            },
            Err(e) => {
                return Err(e);
            },
        }
        k = k + 1;
    }
    proof {
        assert(res@ + Seq::<u8>::empty() =~= res@);
    }
    Ok(res)
}


/// The canonical encoding of a two-operand instruction over a literal and
/// a register: the opcode byte, the literal big-endian, then the
/// register's file offset.
pub proof fn lemma_canonical_lit_reg(
    ins: Instruction,
    v: u16,
    name: Seq<char>,
    labels: Map<Seq<char>, u16>,
)
    requires
        is_register_name(name),
    ensures
        spec_emit(
            TypeV::Instruction2 {
                instruction: ins,
                arg0: Box::new(TypeV::HexLiteral(v)),
                arg1: Box::new(TypeV::Register(name)),
            },
            labels,
        ) == EmitOut::Emitted(seq![ins.opcode, hi8(v), lo8(v), spec_register_index(name) as u8]),
{
    assert(spec_emit(TypeV::HexLiteral(v), labels) == EmitOut::Emitted(seq![hi8(v), lo8(v)]));
    assert(spec_emit(TypeV::Register(name), labels) == EmitOut::Emitted(
        seq![spec_register_index(name) as u8],
    ));
    assert(seq![ins.opcode] + seq![hi8(v), lo8(v)] + seq![spec_register_index(name) as u8]
        =~= seq![ins.opcode, hi8(v), lo8(v), spec_register_index(name) as u8]);
}


/// The canonical encoding of every other statement form: a bare mnemonic
/// is its opcode alone; one-operand forms append the operand's bytes; the
/// register-register, register-memory, memory-register, literal-memory,
/// and pointer forms append both operands' bytes; the offset form appends
/// all three.
pub proof fn lemma_canonical_forms(
    ins: Instruction,
    e0: Seq<u8>,
    e1: Seq<u8>,
    e2: Seq<u8>,
    a: TypeV,
    b: TypeV,
    c: TypeV,
    labels: Map<Seq<char>, u16>,
)
    requires
        spec_emit(a, labels) == EmitOut::Emitted(e0),
        spec_emit(b, labels) == EmitOut::Emitted(e1),
        spec_emit(c, labels) == EmitOut::Emitted(e2),
    ensures
        spec_emit(TypeV::Instruction0 { instruction: ins }, labels) == EmitOut::Emitted(
            seq![ins.opcode],
        ),
        spec_emit(
            TypeV::Instruction1 { instruction: ins, arg0: Box::new(a) },
            labels,
        ) == EmitOut::Emitted(seq![ins.opcode] + e0),
        spec_emit(
            TypeV::Instruction2 { instruction: ins, arg0: Box::new(a), arg1: Box::new(b) },
            labels,
        ) == EmitOut::Emitted(seq![ins.opcode] + e0 + e1),
        spec_emit(
            TypeV::Instruction3 {
                instruction: ins,
                arg0: Box::new(a),
                arg1: Box::new(b),
                arg2: Box::new(c),
            },
            labels,
        ) == EmitOut::Emitted(seq![ins.opcode] + e0 + e1 + e2),
{
}

/// Every operand kind emits its canonical bytes: literals and addresses
/// big-endian, byte literals as themselves, registers as their file
/// offset, resolved label references as the recorded address.
pub proof fn lemma_canonical_operands(
    v: u16,
    b8: u8,
    name: Seq<char>,
    labels: Map<Seq<char>, u16>,
)
    requires
        is_register_name(name),
    ensures
        spec_emit(TypeV::HexLiteral(v), labels) == EmitOut::Emitted(seq![hi8(v), lo8(v)]),
        spec_emit(TypeV::HexLiteral8(b8), labels) == EmitOut::Emitted(seq![b8]),
        spec_emit(TypeV::Address(v), labels) == EmitOut::Emitted(seq![hi8(v), lo8(v)]),
        spec_emit(TypeV::Register(name), labels) == EmitOut::Emitted(
            seq![spec_register_index(name) as u8],
        ),
        labels.contains_key(name) ==> spec_emit(TypeV::Variable(name), labels)
            == EmitOut::Emitted(seq![hi8(labels[name]), lo8(labels[name])]),
{
}


/// Parse-then-encode round trip: whenever the assembly grammar parses a
/// source as exactly one instruction statement, compiling that source
/// yields precisely the statement's canonical bytes — the opcode followed
/// by the operand bytes that `lemma_canonical_forms` and
/// `lemma_canonical_operands` spell out.
pub proof fn lemma_parse_then_encode(s: Seq<char>, t: TypeV, bytes: Seq<u8>)
    requires
        crate::parser_combinator::combinator::spec_parse(asm_parser(), s, 0) == (Outcome::Parsed {
            index: s.len() as int,
            value: ValueV::List(seq![ValueV::Node(t)]),
        }),
        spec_emit(t, Map::empty()) == EmitOut::Emitted(bytes),
        t is Instruction0 || t is Instruction1 || t is Instruction2 || t is Instruction3,
    ensures
        spec_compile(s) == CompileOut::Bytes(bytes),
{
    let vs = seq![ValueV::Node(t)];
    assert(vs.drop_first() =~= Seq::<ValueV>::empty());
    assert(nodes_of(vs.drop_first()) == Some(Seq::<TypeV>::empty()));
    assert(seq![t] + Seq::<TypeV>::empty() =~= seq![t]);
    assert(nodes_of(vs) == Some(seq![t]));
    let ts = seq![t];
    assert forall|a: u16| #[trigger] spec_layout(ts, 1, a, Map::<Seq<char>, u16>::empty()) == Some(
        Map::<Seq<char>, u16>::empty(),
    ) by {}
    assert(ts[0] == t);
    match t {
        TypeV::Instruction0 { instruction } => {
            assert(spec_layout(ts, 1, wadd(0, instruction.size as u16), Map::<Seq<char>, u16>::empty())
                == Some(Map::<Seq<char>, u16>::empty()));
        },
        TypeV::Instruction1 { instruction, .. } => {
            assert(spec_layout(ts, 1, wadd(0, instruction.size as u16), Map::<Seq<char>, u16>::empty())
                == Some(Map::<Seq<char>, u16>::empty()));
        },
        TypeV::Instruction2 { instruction, .. } => {
            assert(spec_layout(ts, 1, wadd(0, instruction.size as u16), Map::<Seq<char>, u16>::empty())
                == Some(Map::<Seq<char>, u16>::empty()));
        },
        TypeV::Instruction3 { instruction, .. } => {
            assert(spec_layout(ts, 1, wadd(0, instruction.size as u16), Map::<Seq<char>, u16>::empty())
                == Some(Map::<Seq<char>, u16>::empty()));
        },
        _ => {},
    }
    assert(spec_layout(ts, 0, 0, Map::empty()) == Some(Map::<Seq<char>, u16>::empty()));
    assert(spec_emit_all(ts, 1, Map::empty()) == EmitOut::Emitted(Seq::<u8>::empty()));
    assert(bytes + Seq::<u8>::empty() =~= bytes);
    assert(spec_emit_all(ts, 0, Map::empty()) == EmitOut::Emitted(bytes));
}

/// The round trip for the literal-and-register form, concretely: a source
/// parsed as `Instruction2` over a 16-bit literal and a register compiles
/// to the opcode, the literal big-endian, and the register offset — four
/// bytes, the form's declared size.
pub proof fn lemma_parse_then_encode_lit_reg(
    s: Seq<char>,
    ins: Instruction,
    v: u16,
    name: Seq<char>,
)
    requires
        crate::parser_combinator::combinator::spec_parse(asm_parser(), s, 0) == (Outcome::Parsed {
            index: s.len() as int,
            value: ValueV::List(
                seq![
                    ValueV::Node(
                        TypeV::Instruction2 {
                            instruction: ins,
                            arg0: Box::new(TypeV::HexLiteral(v)),
                            arg1: Box::new(TypeV::Register(name)),
                        },
                    ),
                ],
            ),
        }),
        is_register_name(name),
    ensures
        spec_compile(s) == CompileOut::Bytes(
            seq![ins.opcode, hi8(v), lo8(v), spec_register_index(name) as u8],
        ),
        spec_compile(s)->Bytes_0.len() == 4,
{
    let t = TypeV::Instruction2 {
        instruction: ins,
        arg0: Box::new(TypeV::HexLiteral(v)),
        arg1: Box::new(TypeV::Register(name)),
    };
    lemma_canonical_lit_reg(ins, v, name, Map::empty());
    lemma_parse_then_encode(s, t, seq![ins.opcode, hi8(v), lo8(v), spec_register_index(name) as u8]);
}

} // verus!
