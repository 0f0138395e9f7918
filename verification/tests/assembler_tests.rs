use vm16::assembler::formats;
use vm16::assembler::parser::{Operator, Type};
use vm16::cpu::instruction;
use vm16::parser_combinator::combinator::{ParserState, Value};

#[test]
fn compile() {
    let input = "mov $4200 R1\nmov R1 &AAAA\nmov $1000 R1\nmov &AAAA R2\nadd R1 R2\n";
    assert_eq!(
        vm16::assembler::compile(input).unwrap(),
        vec![
            0x10, 0x42, 0, 4, 0x12, 4, 0xaa, 0xaa, 0x10, 0x10, 0, 4, 0x13, 0xAA, 0xAA, 6, 0x14,
            4, 6
        ]
    )
}

#[test]
fn compile_with_labels() {
    let input = "mov $2345 ACC\nstart:\njeq $4200 &[!start]\n";
    assert_eq!(
        vm16::assembler::compile(input).unwrap(),
        vec![0x10, 0x23, 0x45, 0x02, 0x52, 0x42, 0x00, 0x00, 0x04]
    )
}

#[test]
fn mov() {
    let input = vec![
        "mov $aaa R1",
        "mov [!aaa] R1",
        "mov R2 R1",
        "mov &R2 R1",
        "mov R2 &333",
        "mov $122 &333",
        "mov [!kk] &333",
        "mov [[$22 - $22] + !kk] &[$333 - $33 * !xxx]",
        "mov &333 R2",
        "mov $aa R3 R1",
    ];
    for line in input {
        assert!(vm16::assembler::mov().parse(line).is_ok())
    }
}

#[test]
fn lit_reg() {
    assert_eq!(
        formats::lit_reg("mov", instruction::move_lit_reg()).parse("mov $aa12 R1"),
        Ok(ParserState {
            index: 12,
            result: Value::Node(Type::Instruction2 {
                instruction: instruction::move_lit_reg(),
                arg0: Box::new(Type::HexLiteral(43538)),
                arg1: Box::new(Type::Register("R1".to_string())),
            }),
        })
    );
    assert_eq!(
        formats::lit_reg("mov", instruction::move_lit_reg()).parse("mov [$aa12 + !a] R1"),
        Ok(ParserState {
            index: 19,
            result: Value::Node(Type::Instruction2 {
                instruction: instruction::move_lit_reg(),
                arg0: Box::new(Type::BinaryOperation {
                    a: Box::new(Type::HexLiteral(43538)),
                    op: Box::new(Type::Operator(Operator::Plus)),
                    b: Box::new(Type::Variable("a".to_string())),
                }),
                arg1: Box::new(Type::Register("R1".to_string())),
            }),
        })
    )
}

#[test]
fn lit_off_reg() {
    assert_eq!(
        formats::lit_off_reg("mov", instruction::move_lit_off_reg()).parse("mov $aa12 R3 R1"),
        Ok(ParserState {
            index: 15,
            result: Value::Node(Type::Instruction3 {
                instruction: instruction::move_lit_off_reg(),
                arg0: Box::new(Type::HexLiteral(43538)),
                arg1: Box::new(Type::Register("R3".to_string())),
                arg2: Box::new(Type::Register("R1".to_string())),
            }),
        })
    );
}

#[test]
fn reg_reg() {
    assert_eq!(
        formats::reg_reg("mov", instruction::move_reg_reg()).parse("mov R2 R1"),
        Ok(ParserState {
            index: 9,
            result: Value::Node(Type::Instruction2 {
                instruction: instruction::move_reg_reg(),
                arg0: Box::new(Type::Register("R2".to_string())),
                arg1: Box::new(Type::Register("R1".to_string())),
            }),
        })
    );
}

#[test]
fn mem_reg() {
    assert_eq!(
        formats::mem_reg("mov", instruction::move_mem_reg()).parse("mov &123 R1"),
        Ok(ParserState {
            index: 11,
            result: Value::Node(Type::Instruction2 {
                instruction: instruction::move_mem_reg(),
                arg0: Box::new(Type::Address(291)),
                arg1: Box::new(Type::Register("R1".to_string())),
            }),
        })
    );
    assert_eq!(
        formats::mem_reg("mov", instruction::move_mem_reg()).parse("mov &[$aa12 + !a] R1"),
        Ok(ParserState {
            index: 20,
            result: Value::Node(Type::Instruction2 {
                instruction: instruction::move_mem_reg(),
                arg0: Box::new(Type::BinaryOperation {
                    a: Box::new(Type::HexLiteral(43538)),
                    op: Box::new(Type::Operator(Operator::Plus)),
                    b: Box::new(Type::Variable("a".to_string())),
                }),
                arg1: Box::new(Type::Register("R1".to_string())),
            }),
        })
    )
}

#[test]
fn reg_mem() {
    assert_eq!(
        formats::reg_mem("mov", instruction::move_reg_mem()).parse("mov R1 &123"),
        Ok(ParserState {
            index: 11,
            result: Value::Node(Type::Instruction2 {
                instruction: instruction::move_reg_mem(),
                arg0: Box::new(Type::Register("R1".to_string())),
                arg1: Box::new(Type::Address(291)),
            }),
        })
    );
    assert_eq!(
        formats::reg_mem("mov", instruction::move_reg_mem()).parse("mov R1 &[$aa12 + !a]"),
        Ok(ParserState {
            index: 20,
            result: Value::Node(Type::Instruction2 {
                instruction: instruction::move_reg_mem(),
                arg0: Box::new(Type::Register("R1".to_string())),
                arg1: Box::new(Type::BinaryOperation {
                    a: Box::new(Type::HexLiteral(43538)),
                    op: Box::new(Type::Operator(Operator::Plus)),
                    b: Box::new(Type::Variable("a".to_string())),
                }),
            }),
        })
    )
}

#[test]
fn lit_mem() {
    assert_eq!(
        formats::lit_mem("mov", instruction::move_lit_mem()).parse("mov $aa12 &12"),
        Ok(ParserState {
            index: 13,
            result: Value::Node(Type::Instruction2 {
                instruction: instruction::move_lit_mem(),
                arg0: Box::new(Type::HexLiteral(43538)),
                arg1: Box::new(Type::Address(18)),
            }),
        })
    );
}

#[test]
fn reg_ptr_reg() {
    assert_eq!(
        formats::reg_ptr_reg("mov", instruction::move_reg_ptr_reg()).parse("mov &R2 R1"),
        Ok(ParserState {
            index: 10,
            result: Value::Node(Type::Instruction2 {
                instruction: instruction::move_reg_ptr_reg(),
                arg0: Box::new(Type::Register("R2".to_string())),
                arg1: Box::new(Type::Register("R1".to_string())),
            }),
        })
    );
}

#[test]
fn lit() {
    assert_eq!(
        formats::lit("mov", instruction::move_lit_mem()).parse("mov $aa12"),
        Ok(ParserState {
            index: 9,
            result: Value::Node(Type::Instruction1 {
                instruction: instruction::move_lit_mem(),
                arg0: Box::new(Type::HexLiteral(43538)),
            }),
        })
    );
}

#[test]
fn reg() {
    assert_eq!(
        formats::reg("mov", instruction::move_lit_mem()).parse("mov R5"),
        Ok(ParserState {
            index: 6,
            result: Value::Node(Type::Instruction1 {
                instruction: instruction::move_lit_mem(),
                arg0: Box::new(Type::Register("R5".to_string())),
            }),
        })
    );
}

#[test]
fn no_arg() {
    assert_eq!(
        formats::no_arg("mov", instruction::move_lit_mem()).parse("mov"),
        Ok(ParserState {
            index: 3,
            result: Value::Node(Type::Instruction0 {
                instruction: instruction::move_lit_mem(),
            }),
        })
    );
}

#[test]
fn register() {
    assert_eq!(
        vm16::assembler::parser::register().parse("R1"),
        Ok(ParserState {
            index: 2,
            result: Value::Node(Type::Register(String::from("R1"))),
        })
    )
}

#[test]
fn hex_literal() {
    assert_eq!(
        vm16::assembler::parser::hex_literal().parse("$aa12"),
        Ok(ParserState {
            index: 5,
            result: Value::Node(Type::HexLiteral(43538)),
        })
    )
}

#[test]
fn variable() {
    assert_eq!(
        vm16::assembler::parser::variable().parse("!aaj"),
        Ok(ParserState {
            index: 4,
            result: Value::Node(Type::Variable(String::from("aaj"))),
        })
    )
}

#[test]
fn label() {
    assert_eq!(
        vm16::assembler::parser::label().parse("bla:"),
        Ok(ParserState {
            index: 4,
            result: Value::Node(Type::Label(String::from("bla"))),
        })
    )
}

#[test]
fn square_bracket_expression() {
    assert_eq!(
        vm16::assembler::parser::square_bracket_expression().parse("[$aa12 + [!uu * !aa] - $1]"),
        Ok(ParserState {
            index: 26,
            result: Value::Node(Type::BinaryOperation {
                a: Box::new(Type::HexLiteral(43538)),
                op: Box::new(Type::Operator(Operator::Plus)),
                b: Box::new(Type::BinaryOperation {
                    a: Box::new(Type::BinaryOperation {
                        a: Box::new(Type::Variable("uu".to_string())),
                        op: Box::new(Type::Operator(Operator::Star)),
                        b: Box::new(Type::Variable("aa".to_string())),
                    }),
                    op: Box::new(Type::Operator(Operator::Minus)),
                    b: Box::new(Type::HexLiteral(1)),
                }),
            }),
        })
    )
}

#[test]
fn group_binary_operations() {
    assert_eq!(
        vm16::assembler::parser::group_binary_operations(vec![
            Type::HexLiteral(43538),
            Type::Operator(Operator::Plus),
            Type::Variable("uu".to_string()),
            Type::Operator(Operator::Star),
            Type::Variable("aa".to_string()),
            Type::Operator(Operator::Minus),
            Type::HexLiteral(1),
        ]),
        Type::BinaryOperation {
            a: Box::new(Type::HexLiteral(43538)),
            op: Box::new(Type::Operator(Operator::Plus)),
            b: Box::new(Type::BinaryOperation {
                a: Box::new(Type::BinaryOperation {
                    a: Box::new(Type::Variable("uu".to_string())),
                    op: Box::new(Type::Operator(Operator::Star)),
                    b: Box::new(Type::Variable("aa".to_string())),
                }),
                op: Box::new(Type::Operator(Operator::Minus)),
                b: Box::new(Type::HexLiteral(1)),
            }),
        }
    )
}

#[test]
fn compile_rejects_unresolved_label() {
    let input = "jeq $4200 &[!nowhere]\n";
    match vm16::assembler::compile(input) {
        Err(vm16::assembler::CompileError::UnresolvedLabel { name }) => {
            assert_eq!(name, "nowhere".to_string())
        }
        other => panic!("expected an unresolved label, got {:?}", other),
    }
}

#[test]
fn compile_rejects_trailing_garbage() {
    let input = "mov $4200 R1\n???";
    match vm16::assembler::compile(input) {
        Err(vm16::assembler::CompileError::IncompleteParse { index }) => assert_eq!(index, 13),
        other => panic!("expected an incomplete parse, got {:?}", other),
    }
}

#[test]
fn compile_rejects_empty_source() {
    match vm16::assembler::compile("") {
        Err(vm16::assembler::CompileError::ParseFailed { index, .. }) => assert_eq!(index, 0),
        other => panic!("expected a parse failure, got {:?}", other),
    }
}

#[test]
fn compile_rejects_expression_operands() {
    let input = "mov [$1 + $2] R1\n";
    assert_eq!(
        vm16::assembler::compile(input),
        Err(vm16::assembler::CompileError::UnsupportedNode)
    );
}

#[test]
fn reg_lit8_parses_a_byte_literal() {
    assert_eq!(
        formats::reg_lit8("lsf", instruction::lsf_reg_lit8()).parse("lsf R1 $3"),
        Ok(ParserState {
            index: 9,
            result: Value::Node(Type::Instruction2 {
                instruction: instruction::lsf_reg_lit8(),
                arg0: Box::new(Type::Register("R1".to_string())),
                arg1: Box::new(Type::HexLiteral8(3)),
            }),
        })
    );
}

#[test]
fn hex_literal_wraps_modulo_width() {
    assert_eq!(
        vm16::assembler::parser::hex_literal().parse("$12345"),
        Ok(ParserState {
            index: 6,
            result: Value::Node(Type::HexLiteral(0x2345)),
        })
    );
}

#[test]
fn compile_duplicate_label_uses_the_later_definition() {
    let input = "dup:\nmov $1 R1\ndup:\njeq $1 &[!dup]\n";
    assert_eq!(
        vm16::assembler::compile(input).unwrap(),
        vec![0x10, 0x00, 0x01, 0x04, 0x52, 0x00, 0x01, 0x00, 0x04]
    );
}

#[test]
fn operator_tokens() {
    assert_eq!(
        vm16::assembler::parser::operator().parse("+"),
        Ok(ParserState {
            index: 1,
            result: Value::Node(Type::Operator(Operator::Plus)),
        })
    );
    assert_eq!(
        vm16::assembler::parser::operator().parse("*rest"),
        Ok(ParserState {
            index: 1,
            result: Value::Node(Type::Operator(Operator::Star)),
        })
    );
    assert!(vm16::assembler::parser::operator().parse("x").is_err());
}

#[test]
fn expression_error_points_at_the_deepest_failure() {
    match vm16::assembler::parser::square_bracket_expression().parse("[$zz]") {
        Err(e) => assert_eq!(e.index, 2),
        other => panic!("expected a parse failure, got {:?}", other),
    }
}
