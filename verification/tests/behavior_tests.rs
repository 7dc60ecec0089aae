use nand7400::config::{AssemblerConfig, Opcode, OpcodeArg};
use nand7400::errors::{AssemblerError, ParsingError};
use nand7400::position::Position;
use nand7400::Assembler;

fn opcode(mnemonic: &str, binary: u8, args: Vec<OpcodeArg>) -> Opcode {
    Opcode { mnemonic: mnemonic.to_string(), binary, args }
}

/// A label argument inside `.byte` follows the same rule as everywhere
/// else: two little-endian address bytes.
#[test]
fn byte_directive_takes_labels() {
    let mut assembler = Assembler::new(AssemblerConfig { opcodes: vec![] });

    let result = assembler.assemble("L:\n.byte L 0x01\n").unwrap();

    assert_eq!(result, vec![0x00, 0x00, 0x01]);
}

/// `.org` accepts a label argument, relocating to the label's offset.
#[test]
fn org_directive_takes_labels() {
    let mut assembler = Assembler::new(AssemblerConfig { opcodes: vec![] });

    let result = assembler.assemble("A:\n.byte 0x01\n.org A\n.byte 0xFF\n").unwrap();

    assert_eq!(result, vec![0xFF]);
}

/// `.org` with an undefined label is reported and the relocation skipped.
#[test]
fn org_undefined_label_reported() {
    let mut assembler = Assembler::new(AssemblerConfig { opcodes: vec![] });

    let errors = assembler.assemble(".org NOWHERE\n").unwrap_err();

    assert_eq!(
        errors,
        vec![AssemblerError::LabelDNE {
            mnemonic: "NOWHERE".to_string(),
            span: Position::new(5, 12),
        }]
    );
}

/// Semantic errors accumulate too: every unknown mnemonic in the source is
/// reported from one call.
#[test]
fn unknown_opcodes_accumulate() {
    let mut assembler = Assembler::new(AssemblerConfig { opcodes: vec![] });

    let errors = assembler.assemble("foo\nbar\n").unwrap_err();

    assert_eq!(
        errors,
        vec![
            AssemblerError::OpcodeDNE { mnemonic: "foo".to_string(), span: Position::new(0, 3) },
            AssemblerError::OpcodeDNE { mnemonic: "bar".to_string(), span: Position::new(4, 7) },
        ]
    );
}

/// A comment after a statement's arguments is discarded like any other.
#[test]
fn trailing_comment_after_arguments() {
    let mut assembler = Assembler::new(AssemblerConfig {
        opcodes: vec![opcode("lda", 0x01, vec![OpcodeArg::Immediate])],
    });

    let result = assembler.assemble("lda #0x05 ; load five\nlda #0x06\n").unwrap();

    assert_eq!(result, vec![0x01, 0x05, 0x01, 0x06]);
}

/// CRLF and bare CR line endings separate statements like LF.
#[test]
fn windows_and_mac_line_endings() {
    let mut assembler = Assembler::new(AssemblerConfig {
        opcodes: vec![opcode("nop", 0x00, vec![]), opcode("hlt", 0x01, vec![])],
    });

    assert_eq!(assembler.assemble("nop\r\nhlt\r\n").unwrap(), vec![0x00, 0x01]);
    assert_eq!(assembler.assemble("nop\rhlt\r").unwrap(), vec![0x00, 0x01]);
}

/// Directive arguments are 16 bits wide: `0xFFFF` fits where `0x10000`
/// overflows.
#[test]
fn directive_arguments_are_16_bit() {
    let mut assembler = Assembler::new(AssemblerConfig { opcodes: vec![] });

    assert_eq!(assembler.assemble(".byte 0xFFFF\n").unwrap(), vec![0xFF, 0xFF]);

    let errors = assembler.assemble(".byte 0x10000\n").unwrap_err();
    assert_eq!(
        errors,
        vec![AssemblerError::Parsing {
            source: ParsingError::Overflow {
                literal: "0x10000".to_string(),
                span: Position::new(6, 13),
            },
        }]
    );
}

/// The assembler instance is reusable: a failing call leaves no residue in
/// a later one.
#[test]
fn per_call_state_is_reset() {
    let mut assembler = Assembler::new(AssemblerConfig {
        opcodes: vec![opcode("nop", 0x00, vec![])],
    });

    assert!(assembler.assemble("bogus\n").is_err());
    assert_eq!(assembler.assemble("L:\nnop\n").unwrap(), vec![0x00]);
    assert_eq!(assembler.assemble("nop\n").unwrap(), vec![0x00]);
}
