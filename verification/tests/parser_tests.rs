use nand7400::ast::{
    Argument, ArgumentKind, Ast, Instruction, InstructionKind, Keyword, SymbolTable,
};
use nand7400::parser::Parser;
use nand7400::position::Position;

/// Parses `input` and checks the result against the expected statement list
/// and symbol table.
fn parses_as(input: &str, expected: Ast) {
    let parser = Parser::new(input).expect("Failed to create parser");
    let ast = match parser.parse() {
        Ok(ast) => ast,
        Err(errs) => panic!("parse failed: {:?}", errs),
    };
    assert_eq!(ast, expected);
}

fn symbols_of(entries: Vec<(&str, u16)>) -> SymbolTable {
    let mut table = SymbolTable::new();
    for (name, addr) in entries {
        table.insert(name.to_string(), addr);
    }
    table
}

/// EOF parsing returns the AST unchanged.
#[test]
fn parse_eof() {
    parses_as("", Ast::empty());

    parses_as("\n\n\n", Ast::empty());
}

/// Comments are discarded entirely.
#[test]
fn parse_comment() {
    parses_as("; this is a comment", Ast::empty());
    parses_as("; this is a comment\n\n\n", Ast::empty());

    parses_as(
        "label: ;testing testing 1 2 3",
        Ast {
            instructions: vec![Instruction {
                kind: InstructionKind::Label("label".to_string()),
                instruction_span: Position::new(0, 6),
                token_span: Position::new(0, 5),
            }],
            symbols: symbols_of(vec![("label", 0)]),
        },
    );
}

/// A label records the current offset under its name.
#[test]
fn parse_label() {
    parses_as(
        "label:",
        Ast {
            instructions: vec![Instruction {
                kind: InstructionKind::Label("label".to_string()),
                instruction_span: Position::new(0, 6),
                token_span: Position::new(0, 5),
            }],
            symbols: symbols_of(vec![("label", 0)]),
        },
    );

    parses_as(
        "asdf123: \n   \r\n \n ",
        Ast {
            instructions: vec![Instruction {
                kind: InstructionKind::Label("asdf123".to_string()),
                instruction_span: Position::new(0, 8),
                token_span: Position::new(0, 7),
            }],
            symbols: symbols_of(vec![("asdf123", 0)]),
        },
    );
}

/// Opcodes without arguments.
#[test]
fn parse_opcode() {
    parses_as(
        "NOP",
        Ast {
            instructions: vec![Instruction {
                kind: InstructionKind::Opcode { mnemonic: "NOP".to_string(), arguments: vec![] },
                instruction_span: Position::new(0, 3),
                token_span: Position::new(0, 3),
            }],
            symbols: SymbolTable::new(),
        },
    );

    parses_as(
        "NOP \r\n\n   \n ",
        Ast {
            instructions: vec![Instruction {
                kind: InstructionKind::Opcode { mnemonic: "NOP".to_string(), arguments: vec![] },
                instruction_span: Position::new(0, 3),
                token_span: Position::new(0, 3),
            }],
            symbols: SymbolTable::new(),
        },
    );
}

/// Opcodes with arguments: bare numbers are indirect, `#` marks immediate.
#[test]
fn parse_opcode_with_arguments() {
    parses_as(
        "test1 123 #45 0x67",
        Ast {
            instructions: vec![Instruction {
                kind: InstructionKind::Opcode {
                    mnemonic: "test1".to_string(),
                    arguments: vec![
                        Argument {
                            kind: ArgumentKind::IndirectNumber(123),
                            span: Position::new(6, 9),
                        },
                        Argument {
                            kind: ArgumentKind::ImmediateNumber(45),
                            span: Position::new(10, 13),
                        },
                        Argument {
                            kind: ArgumentKind::IndirectNumber(0x67),
                            span: Position::new(14, 18),
                        },
                    ],
                },
                instruction_span: Position::new(0, 18),
                token_span: Position::new(0, 5),
            }],
            symbols: SymbolTable::new(),
        },
    );
}

/// Directive parsing: `.byte` and `.org` with 16-bit arguments.
#[test]
fn parse_keyword() {
    parses_as(
        ".byte 0x12",
        Ast {
            instructions: vec![Instruction {
                kind: InstructionKind::Keyword {
                    keyword: Keyword::Byte,
                    arguments: vec![Argument {
                        kind: ArgumentKind::IndirectNumber(0x12),
                        span: Position::new(6, 10),
                    }],
                },
                instruction_span: Position::new(0, 10),
                token_span: Position::new(0, 5),
            }],
            symbols: SymbolTable::new(),
        },
    );

    parses_as(
        ".org 0x123",
        Ast {
            instructions: vec![Instruction {
                kind: InstructionKind::Keyword {
                    keyword: Keyword::Org,
                    arguments: vec![Argument {
                        kind: ArgumentKind::IndirectNumber(0x123),
                        span: Position::new(5, 10),
                    }],
                },
                instruction_span: Position::new(0, 10),
                token_span: Position::new(0, 4),
            }],
            symbols: SymbolTable::new(),
        },
    );
}

/// The `.org` directive eagerly moves the offset that labels record.
#[test]
fn parse_org_label_addrs() {
    parses_as(
        "label1:\n.org 0x123\nlabel2:",
        Ast {
            instructions: vec![
                Instruction {
                    kind: InstructionKind::Label("label1".to_string()),
                    instruction_span: Position::new(0, 7),
                    token_span: Position::new(0, 6),
                },
                Instruction {
                    kind: InstructionKind::Keyword {
                        keyword: Keyword::Org,
                        arguments: vec![Argument {
                            kind: ArgumentKind::IndirectNumber(0x123),
                            span: Position::new(13, 18),
                        }],
                    },
                    instruction_span: Position::new(8, 18),
                    token_span: Position::new(8, 12),
                },
                Instruction {
                    kind: InstructionKind::Label("label2".to_string()),
                    instruction_span: Position::new(19, 26),
                    token_span: Position::new(19, 25),
                },
            ],
            symbols: symbols_of(vec![("label1", 0), ("label2", 0x123)]),
        },
    );
}

/// A whole program: comments and blank lines are skipped, keywords match
/// case-insensitively, and the label lands at the right offset.
#[test]
fn parse_program() {
    let program: &str = "; There's whitespace at the beginning and end to test the parsing of extraneous newlines/whitespace!\n\
                         ; Here's one comment\n\
                         ; Here's another comment\n\
                         \n\
                         ; Now for some *real* code!\n\
                         .OrG 0x10\n\
                         lda 0x09\n\
                         jmp LABEL\n\
                         \n\
                         LABEL:\n\
                             .bYtE 0xFF\n\
                             add 0x01 0x02 0x03\n\
                             hlt";

    let parser = Parser::new(program).expect("Failed to create parser");
    let ast = parser.parse().expect("parse failed");

    assert_eq!(ast.symbols, symbols_of(vec![("LABEL", 21)]));

    // The statement list holds every real statement in source order.
    assert_eq!(ast.instructions.len(), 7);
    match &ast.instructions[0].kind {
        InstructionKind::Keyword { keyword, arguments } => {
            assert_eq!(*keyword, Keyword::Org);
            assert_eq!(arguments.len(), 1);
            assert_eq!(arguments[0].kind, ArgumentKind::IndirectNumber(0x10));
        }
        other => panic!("expected .org, found {:?}", other),
    }
    match &ast.instructions[1].kind {
        InstructionKind::Opcode { mnemonic, arguments } => {
            assert_eq!(mnemonic, "lda");
            assert_eq!(arguments.len(), 1);
        }
        other => panic!("expected lda, found {:?}", other),
    }
    match &ast.instructions[2].kind {
        InstructionKind::Opcode { mnemonic, arguments } => {
            assert_eq!(mnemonic, "jmp");
            assert_eq!(arguments[0].kind, ArgumentKind::Label("LABEL".to_string()));
        }
        other => panic!("expected jmp, found {:?}", other),
    }
    assert_eq!(ast.instructions[3].kind, InstructionKind::Label("LABEL".to_string()));
    match &ast.instructions[4].kind {
        InstructionKind::Keyword { keyword, .. } => assert_eq!(*keyword, Keyword::Byte),
        other => panic!("expected .byte, found {:?}", other),
    }
    match &ast.instructions[5].kind {
        InstructionKind::Opcode { mnemonic, arguments } => {
            assert_eq!(mnemonic, "add");
            assert_eq!(arguments.len(), 3);
        }
        other => panic!("expected add, found {:?}", other),
    }
    match &ast.instructions[6].kind {
        InstructionKind::Opcode { mnemonic, arguments } => {
            assert_eq!(mnemonic, "hlt");
            assert!(arguments.is_empty());
        }
        other => panic!("expected hlt, found {:?}", other),
    }
}

/// Number prefixes: a sign is consumed before the digits and applied by
/// two's complement at the 8-bit width of opcode arguments; `#` marks the
/// result immediate.
#[test]
fn parse_number_prefixes() {
    let cases: Vec<(&str, ArgumentKind<u8>, Position)> = vec![
        ("t 123", ArgumentKind::IndirectNumber(123), Position::new(2, 5)),
        ("t +123", ArgumentKind::IndirectNumber(123), Position::new(2, 6)),
        ("t -123", ArgumentKind::IndirectNumber(-123_i8 as u8), Position::new(2, 6)),
        ("t #123", ArgumentKind::ImmediateNumber(123), Position::new(2, 6)),
        ("t #+123", ArgumentKind::ImmediateNumber(123), Position::new(2, 7)),
        ("t #-123", ArgumentKind::ImmediateNumber(-123_i8 as u8), Position::new(2, 7)),
    ];

    for (src, kind, span) in cases {
        let parser = Parser::new(src).expect("Failed to create parser");
        let ast = parser.parse().expect("parse failed");
        match &ast.instructions[0].kind {
            InstructionKind::Opcode { arguments, .. } => {
                assert_eq!(arguments.len(), 1, "source {:?}", src);
                assert_eq!(arguments[0], Argument { kind: kind.clone(), span }, "source {:?}", src);
            }
            other => panic!("expected an opcode, found {:?}", other),
        }
    }
}

/// Numbers in every base parse to the same values the prefix announces.
#[test]
fn parse_number_bases() {
    let cases: Vec<(&str, u8)> = vec![
        ("t 0b101", 0b101),
        ("t 0o123", 0o123),
        ("t 0xFE", 0xFE),
        ("t 0XFe", 0xFE),
        ("t 0O17", 0o17),
        ("t 0B11", 0b11),
    ];

    for (src, value) in cases {
        let parser = Parser::new(src).expect("Failed to create parser");
        let ast = parser.parse().expect("parse failed");
        match &ast.instructions[0].kind {
            InstructionKind::Opcode { arguments, .. } => {
                assert_eq!(arguments[0].kind, ArgumentKind::IndirectNumber(value), "source {:?}", src);
            }
            other => panic!("expected an opcode, found {:?}", other),
        }
    }
}
