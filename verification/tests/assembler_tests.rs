use nand7400::config::{AssemblerConfig, Opcode, OpcodeArg};
use nand7400::Assembler;

fn opcode(mnemonic: &str, binary: u8, args: Vec<OpcodeArg>) -> Opcode {
    Opcode { mnemonic: mnemonic.to_string(), binary, args }
}

/// The `.byte` and `.org` directives: bytes are emitted at the cursor and
/// `.org` pads the image with zeros up to its argument.
#[test]
fn assemble_keywords() {
    let source = ".byte 0x00 0x01\n\
                        .byte 0x01\n\
                        .byte 0x02\n\
                        .byte 0x03\n\
                        .org 0x10\n\
                        .byte 0x04\n\
                        .byte 0x05\n";

    let mut assembler = Assembler::new(AssemblerConfig { opcodes: vec![] });
    let result = assembler.assemble(source).unwrap();

    assert_eq!(
        result,
        vec![
            0x00, 0x01, 0x01, 0x02,
            0x03, // .byte 0x00 0x01\n.byte 0x01\n.byte 0x02\n.byte 0x03\n
            0x00, 0x00, 0x00, 0x00, 0x00, 0x00, 0x00, 0x00, 0x00, 0x00, 0x00, // .org 0x10\n
            0x04, 0x05, // .byte 0x04\n.byte 0x05\n
        ]
    );
}

/// Opcodes with no arguments (implied opcodes).
#[test]
fn assemble_opcodes_implied() {
    let source = "nop\n\
                        hlt\n\
                        clc\n\
                        sec\n\
                        cli\n\
                        sei\n\
                        cld\n\
                        sed\n\
                        clv\n";

    let mut assembler = Assembler::new(AssemblerConfig {
        opcodes: vec![
            opcode("nop", 0x00, vec![]),
            opcode("hlt", 0x01, vec![]),
            opcode("clc", 0x02, vec![]),
            opcode("sec", 0x03, vec![]),
            opcode("cli", 0x04, vec![]),
            opcode("sei", 0x05, vec![]),
            opcode("cld", 0x06, vec![]),
            opcode("sed", 0x07, vec![]),
            opcode("clv", 0x08, vec![]),
        ],
    });

    let result = assembler.assemble(source).unwrap();

    assert_eq!(
        result,
        vec![
            0x00, // nop
            0x01, // hlt
            0x02, // clc
            0x03, // sec
            0x04, // cli
            0x05, // sei
            0x06, // cld
            0x07, // sed
            0x08, // clv
        ]
    );
}

/// Opcodes with one argument, both immediate and indirect.
#[test]
fn test_opcode_1_arg() {
    let source = "lda #0xF1\n\
                        ldb 0xF2\n";

    let mut assembler = Assembler::new(AssemblerConfig {
        opcodes: vec![
            opcode("lda", 0x00, vec![OpcodeArg::Immediate]),
            opcode("ldb", 0x01, vec![OpcodeArg::Indirect]),
        ],
    });

    let result = assembler.assemble(source).unwrap();

    assert_eq!(result, vec![0x00, 0xF1, 0x01, 0xF2]);
}

/// Opcodes with several arguments, immediate, indirect, and mixed.
#[test]
fn assemble_opcodes_many_args() {
    let source = "add #0xF1 0xF2\n\
                        sub 0xF3 #0xF4\n\
                        foo #0x01 #0x83 0x12 0x34";

    let mut assembler = Assembler::new(AssemblerConfig {
        opcodes: vec![
            opcode("add", 0x00, vec![OpcodeArg::Immediate, OpcodeArg::Indirect]),
            opcode("sub", 0x01, vec![OpcodeArg::Indirect, OpcodeArg::Immediate]),
            opcode(
                "foo",
                0x02,
                vec![
                    OpcodeArg::Immediate,
                    OpcodeArg::Immediate,
                    OpcodeArg::Indirect,
                    OpcodeArg::Indirect,
                ],
            ),
        ],
    });

    let result = assembler.assemble(source).unwrap();

    assert_eq!(result, vec![0x00, 0xF1, 0xF2, 0x01, 0xF3, 0xF4, 0x02, 0x01, 0x83, 0x12, 0x34]);
}

/// Labels in the source and as opcode arguments: a label's two address
/// bytes are emitted little-endian.
#[test]
fn assemble_labels_args() {
    let source = ".org 0x04\n\
                        TEST_LABEL: jmp TEST_LABEL";

    let mut assembler = Assembler::new(AssemblerConfig {
        opcodes: vec![opcode("jmp", 0xF1, vec![OpcodeArg::Immediate, OpcodeArg::Immediate])],
    });

    let result = assembler.assemble(source).unwrap();

    assert_eq!(result, vec![0x00, 0x00, 0x00, 0x00, 0xF1, 0x04, 0x00]);
}

/// Empty input assembles to an empty byte sequence, whatever the
/// configuration.
#[test]
fn assemble_empty_source() {
    let mut empty_config = Assembler::new(AssemblerConfig { opcodes: vec![] });
    assert_eq!(empty_config.assemble("").unwrap(), Vec::<u8>::new());

    let mut with_config = Assembler::new(AssemblerConfig {
        opcodes: vec![opcode("nop", 0x00, vec![]), opcode("add", 0x07, vec![OpcodeArg::Immediate])],
    });
    assert_eq!(with_config.assemble("").unwrap(), Vec::<u8>::new());
}

/// Immediate/indirect encoding: `add #0xF1 0xF2` with `add` = `0x00` and
/// arity `[Immediate, Indirect]` assembles to exactly its three bytes.
#[test]
fn assemble_immediate_indirect_encoding() {
    let mut assembler = Assembler::new(AssemblerConfig {
        opcodes: vec![opcode("add", 0x00, vec![OpcodeArg::Immediate, OpcodeArg::Indirect])],
    });

    let result = assembler.assemble("add #0xF1 0xF2").unwrap();

    assert_eq!(result, vec![0x00, 0xF1, 0xF2]);
}

/// A label used before its textual definition resolves to the same address
/// as one used after it: both references emit the same two bytes.
#[test]
fn assemble_forward_label_reference() {
    let source = "jmp MID\n\
                        MID:\n\
                        jmp MID\n";

    let mut assembler = Assembler::new(AssemblerConfig {
        opcodes: vec![opcode("jmp", 0x10, vec![OpcodeArg::Immediate, OpcodeArg::Immediate])],
    });

    let result = assembler.assemble(source).unwrap();

    // MID sits after the first three-byte jmp.
    assert_eq!(result, vec![0x10, 0x03, 0x00, 0x10, 0x03, 0x00]);
    // The forward reference and the backward reference agree byte for byte.
    assert_eq!(result[1..3], result[4..6]);
}

/// Determinism: the same configuration and source yield byte-identical
/// output, and byte-identical diagnostics on failure.
#[test]
fn assemble_deterministic() {
    let config = AssemblerConfig {
        opcodes: vec![opcode("add", 0x01, vec![OpcodeArg::Immediate, OpcodeArg::Indirect])],
    };
    let mut a1 = Assembler::new(config.clone());
    let mut a2 = Assembler::new(config);

    let good = "add #0x01 0x02\n";
    assert_eq!(a1.assemble(good).unwrap(), a2.assemble(good).unwrap());
    assert_eq!(a1.assemble(good).unwrap(), a1.assemble(good).unwrap());

    let bad = "add #0x01\nmissing\n";
    assert_eq!(a1.assemble(bad).unwrap_err(), a2.assemble(bad).unwrap_err());
}

/// Moving the cursor backwards with `.org` overwrites previously emitted
/// bytes without changing the image's length.
#[test]
fn assemble_org_backwards_overwrites() {
    let source = ".byte 0x01 0x02 0x03\n\
                        .org 0x01\n\
                        .byte 0xFF\n";

    let mut assembler = Assembler::new(AssemblerConfig { opcodes: vec![] });
    let result = assembler.assemble(source).unwrap();

    assert_eq!(result, vec![0x01, 0xFF, 0x03]);
}

/// A 16-bit `.byte` argument above 255 emits two little-endian bytes; at or
/// below 255 it emits one.
#[test]
fn assemble_byte_widths() {
    let mut assembler = Assembler::new(AssemblerConfig { opcodes: vec![] });
    let result = assembler.assemble(".byte 0x100 0x05 0x1234\n").unwrap();

    assert_eq!(result, vec![0x00, 0x01, 0x05, 0x34, 0x12]);
}

/// `replace_config` swaps the retained configuration for later calls.
#[test]
fn assemble_after_set_config() {
    let mut assembler = Assembler::new(AssemblerConfig { opcodes: vec![] });
    assert!(assembler.assemble("nop\n").is_err());

    assembler.set_config(AssemblerConfig { opcodes: vec![opcode("nop", 0x00, vec![])] });
    assert_eq!(assembler.assemble("nop\n").unwrap(), vec![0x00]);
}

/// `assemble_with_ast` returns the statement list and symbol table next to
/// the bytes.
#[test]
fn assemble_with_ast_returns_structure() {
    let mut assembler = Assembler::new(AssemblerConfig {
        opcodes: vec![opcode("jmp", 0xF1, vec![OpcodeArg::Immediate, OpcodeArg::Immediate])],
    });

    let (bytes, ast) = assembler.assemble_with_ast("start:\njmp start\n").unwrap();

    assert_eq!(bytes, vec![0xF1, 0x00, 0x00]);
    assert_eq!(ast.instructions.len(), 2);
    assert_eq!(ast.symbols.get("start"), Some(0));
    assert_eq!(ast.symbols.get("absent"), None);
}

/// A known-working program end to end: arithmetic, an implied opcode, an
/// immediate jump, a label defined mid-program and referenced backwards,
/// and a halt. Label addresses are two little-endian bytes, so `JMP` is
/// declared with two argument bytes and its immediate form writes both.
#[test]
fn test_assemble_working() {
    let mut assembler = Assembler::new(AssemblerConfig {
        opcodes: vec![
            // Do-nothing opcode.
            opcode("NOP", 0x00, vec![]),
            // Add two numbers.
            opcode("ADD", 0x01, vec![OpcodeArg::Indirect, OpcodeArg::Indirect]),
            // Subtract two numbers.
            opcode("SUB", 0x02, vec![OpcodeArg::Indirect, OpcodeArg::Indirect]),
            // Jump to an address.
            opcode("JMP", 0x03, vec![OpcodeArg::Immediate, OpcodeArg::Immediate]),
            // Halt the CPU.
            opcode("HLT", 0xFF, vec![]),
        ],
    });

    let test_file = "\nADD 0x01 0x02\nNOP\nJMP #0x01 #0x00\n\nLABEL1:\n    SUB 0x01 0x02\n    NOP\n    JMP LABEL1\n\nHLT\n";

    let expected = vec![
        0x01, 0x01, 0x02, // ADD 0x01 0x02
        0x00, // NOP
        0x03, 0x01, 0x00, // JMP #0x01 #0x00
        0x02, 0x01, 0x02, // SUB 0x01 0x02
        0x00, // NOP
        0x03, 0x07, 0x00, // JMP LABEL1
        0xFF, // HLT
    ];

    let actual = assembler.assemble(test_file).unwrap();

    assert_eq!(actual, expected);
}
