use nand7400::config::{AssemblerConfig, Opcode, OpcodeArg};
use nand7400::errors::{AssemblerError, ParsingError};
use nand7400::position::Position;
use nand7400::token::TokenKind;
use nand7400::Assembler;

fn opcode(mnemonic: &str, binary: u8, args: Vec<OpcodeArg>) -> Opcode {
    Opcode { mnemonic: mnemonic.to_string(), binary, args }
}

fn assembler_with(opcodes: Vec<Opcode>) -> Assembler {
    Assembler::new(AssemblerConfig { opcodes })
}

/// An unknown mnemonic yields an `OpcodeDNE` diagnostic whose span covers
/// exactly the mnemonic, and no bytes.
#[test]
fn unknown_opcode_reports_opcode_dne() {
    let mut assembler = assembler_with(vec![opcode("nop", 0x00, vec![])]);

    let errors = assembler.assemble("nop\nfoo\n").unwrap_err();

    assert_eq!(
        errors,
        vec![AssemblerError::OpcodeDNE {
            mnemonic: "foo".to_string(),
            span: Position::new(4, 7),
        }]
    );
}

/// An arity mismatch yields exactly one `WrongNumArgs` with the correct
/// expected and given byte counts.
#[test]
fn arity_mismatch_reports_wrong_num_args() {
    let mut assembler =
        assembler_with(vec![opcode("add", 0x01, vec![OpcodeArg::Immediate, OpcodeArg::Indirect])]);

    let errors = assembler.assemble("add #0x01\n").unwrap_err();

    assert_eq!(
        errors,
        vec![AssemblerError::WrongNumArgs {
            mnemonic: "add".to_string(),
            expected: 2,
            given: 1,
            mnemonic_span: Position::new(0, 3),
            args_span: Position::new(0, 9),
        }]
    );
}

/// An arity mismatch with zero arguments still carries a well-formed span:
/// the mnemonic's own span stands in for the missing arguments.
#[test]
fn arity_mismatch_with_no_arguments() {
    let mut assembler =
        assembler_with(vec![opcode("add", 0x01, vec![OpcodeArg::Immediate, OpcodeArg::Indirect])]);

    let errors = assembler.assemble("add\n").unwrap_err();

    assert_eq!(errors.len(), 1);
    match &errors[0] {
        AssemblerError::WrongNumArgs { mnemonic, expected, given, mnemonic_span, args_span } => {
            assert_eq!(mnemonic, "add");
            assert_eq!(*expected, 2);
            assert_eq!(*given, 0);
            assert_eq!(*mnemonic_span, Position::new(0, 3));
            assert_eq!(*args_span, Position::new(0, 3));
            assert!(args_span.start <= args_span.end);
        }
        other => panic!("expected WrongNumArgs, found {:?}", other),
    }
}

/// A label counts for two argument bytes, so an opcode declared with a
/// two-byte arity takes one label without complaint.
#[test]
fn label_counts_two_bytes_toward_arity() {
    let mut assembler =
        assembler_with(vec![opcode("jmp", 0x10, vec![OpcodeArg::Immediate, OpcodeArg::Immediate])]);

    assert!(assembler.assemble("x:\njmp x\n").is_ok());

    let errors = assembler.assemble("x:\njmp x #0x01\n").unwrap_err();
    assert_eq!(errors.len(), 1);
    match &errors[0] {
        AssemblerError::WrongNumArgs { expected, given, .. } => {
            assert_eq!(*expected, 2);
            assert_eq!(*given, 3);
        }
        other => panic!("expected WrongNumArgs, found {:?}", other),
    }
}

/// An argument of the wrong kind yields `WrongArgType` with the expected
/// and given kinds, and the pass still finishes.
#[test]
fn kind_mismatch_reports_wrong_arg_type() {
    let mut assembler = assembler_with(vec![opcode("lda", 0x00, vec![OpcodeArg::Immediate])]);

    let errors = assembler.assemble("lda 0xF2\n").unwrap_err();

    assert_eq!(
        errors,
        vec![AssemblerError::WrongArgType {
            mnemonic: "lda".to_string(),
            expected: OpcodeArg::Immediate,
            given: OpcodeArg::Indirect,
            mnemonic_span: Position::new(0, 3),
            arg_span: Position::new(4, 8),
        }]
    );
}

/// A label that is never defined yields `LabelDNE` with the label's name
/// and span.
#[test]
fn undefined_label_reports_label_dne() {
    let mut assembler =
        assembler_with(vec![opcode("jmp", 0x10, vec![OpcodeArg::Immediate, OpcodeArg::Immediate])]);

    let errors = assembler.assemble("jmp NOWHERE\n").unwrap_err();

    assert_eq!(
        errors,
        vec![AssemblerError::LabelDNE {
            mnemonic: "NOWHERE".to_string(),
            span: Position::new(4, 11),
        }]
    );
}

/// For the 8-bit width of opcode arguments, `0x100` overflows; `-129`
/// underflows; `-1` encodes as `0xFF`.
#[test]
fn literal_overflow_and_underflow() {
    let mut assembler = assembler_with(vec![opcode("t", 0x00, vec![OpcodeArg::Indirect])]);

    let errors = assembler.assemble("t 0x100\n").unwrap_err();
    assert_eq!(
        errors,
        vec![AssemblerError::Parsing {
            source: ParsingError::Overflow {
                literal: "0x100".to_string(),
                span: Position::new(2, 7),
            },
        }]
    );

    let errors = assembler.assemble("t -129\n").unwrap_err();
    assert_eq!(
        errors,
        vec![AssemblerError::Parsing {
            source: ParsingError::Underflow {
                literal: "129".to_string(),
                span: Position::new(2, 6),
            },
        }]
    );

    assert_eq!(assembler.assemble("t -1\n").unwrap(), vec![0x00, 0xFF]);
    assert_eq!(assembler.assemble("t -128\n").unwrap(), vec![0x00, 0x80]);
}

/// A signed literal may use the full signed range but no more: `+127` fits
/// where `+128` overflows.
#[test]
fn signed_literal_bounds() {
    let mut assembler = assembler_with(vec![opcode("t", 0x00, vec![OpcodeArg::Indirect])]);

    assert_eq!(assembler.assemble("t +127\n").unwrap(), vec![0x00, 0x7F]);

    let errors = assembler.assemble("t +128\n").unwrap_err();
    assert_eq!(
        errors,
        vec![AssemblerError::Parsing {
            source: ParsingError::Overflow {
                literal: "128".to_string(),
                span: Position::new(2, 6),
            },
        }]
    );
}

/// A base prefix with no digits after it is an empty literal.
#[test]
fn empty_literal_reported() {
    let mut assembler = assembler_with(vec![opcode("t", 0x00, vec![OpcodeArg::Indirect])]);

    let errors = assembler.assemble("t 0x\n").unwrap_err();
    assert_eq!(
        errors,
        vec![AssemblerError::Parsing {
            source: ParsingError::EmptyLiteral { span: Position::new(2, 4) },
        }]
    );
}

/// An unknown keyword is reported with its name and span.
#[test]
fn unknown_keyword_reported() {
    let mut assembler = assembler_with(vec![]);

    let errors = assembler.assemble(".foo 0x01\n").unwrap_err();
    assert_eq!(
        errors,
        vec![AssemblerError::Parsing {
            source: ParsingError::KeywordDNE {
                mnemonic: ".foo".to_string(),
                span: Position::new(0, 4),
            },
        }]
    );
}

/// An unknown character is reported and skipped.
#[test]
fn unknown_character_reported() {
    let mut assembler = assembler_with(vec![opcode("t", 0x00, vec![])]);

    let errors = assembler.assemble("t $\n").unwrap_err();
    assert_eq!(
        errors,
        vec![AssemblerError::Parsing {
            source: ParsingError::UnknownCharacter { character: '$', span: Position::new(2, 3) },
        }]
    );
}

/// A token that cannot start a statement is reported with the set of
/// accepted kinds, and only its line is lost.
#[test]
fn unexpected_statement_start_reported() {
    let mut assembler = assembler_with(vec![opcode("nop", 0x00, vec![])]);

    let errors = assembler.assemble("+\nnop\n").unwrap_err();
    assert_eq!(
        errors,
        vec![AssemblerError::Parsing {
            source: ParsingError::Unexpected {
                expected: vec![
                    TokenKind::Ident,
                    TokenKind::Keyword,
                    TokenKind::Newline,
                    TokenKind::Semicolon,
                ],
                found: TokenKind::Plus,
                span: Position::new(0, 1),
            },
        }]
    );
}

/// A sign without a number after it is reported against the token that was
/// found.
#[test]
fn sign_without_number_reported() {
    let mut assembler = assembler_with(vec![opcode("t", 0x00, vec![OpcodeArg::Indirect])]);

    let errors = assembler.assemble("t +x\n").unwrap_err();
    assert_eq!(
        errors,
        vec![AssemblerError::Parsing {
            source: ParsingError::Unexpected {
                expected: vec![TokenKind::Number],
                found: TokenKind::Ident,
                span: Position::new(3, 4),
            },
        }]
    );
}

/// Every phase accumulates: independent problems on separate lines are all
/// reported from one call.
#[test]
fn multiple_errors_accumulate() {
    let mut assembler = assembler_with(vec![opcode("t", 0x00, vec![OpcodeArg::Indirect])]);

    let errors = assembler.assemble("t 0x100\nt 0x\n").unwrap_err();
    assert_eq!(errors.len(), 2);
    assert!(matches!(
        errors[0],
        AssemblerError::Parsing { source: ParsingError::Overflow { .. } }
    ));
    assert!(matches!(
        errors[1],
        AssemblerError::Parsing { source: ParsingError::EmptyLiteral { .. } }
    ));
}

/// The `.org` directive demands exactly one argument.
#[test]
fn org_arity_checked() {
    let mut assembler = assembler_with(vec![]);

    let errors = assembler.assemble(".org 0x01 0x02\n").unwrap_err();
    assert_eq!(errors.len(), 1);
    match &errors[0] {
        AssemblerError::WrongNumArgs { mnemonic, expected, given, .. } => {
            assert_eq!(mnemonic, ".org");
            assert_eq!(*expected, 1);
            assert_eq!(*given, 2);
        }
        other => panic!("expected WrongNumArgs, found {:?}", other),
    }
}
