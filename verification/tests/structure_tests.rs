use nand7400::ast::{
    Argument, ArgumentKind, Ast, Instruction, InstructionKind, Keyword, SymbolTable, LABEL_SIZE,
};
use nand7400::config::{AssemblerConfig, Opcode, OpcodeArg};
use nand7400::position::Position;

fn opcode(mnemonic: &str, binary: u8, args: Vec<OpcodeArg>) -> Opcode {
    Opcode { mnemonic: mnemonic.to_string(), binary, args }
}

/// The byte length of a statement: nothing for labels and `.org`, one plus
/// the argument bytes for opcodes (labels count [`LABEL_SIZE`] bytes), the
/// argument bytes alone for `.byte` (two for values above 255).
#[test]
fn binary_len_per_statement() {
    let span = Position::new(0, 1);

    let label = Instruction::new(InstructionKind::Label("x".to_string()), span, span);
    assert_eq!(label.binary_len(), 0);

    let op = Instruction::new(
        InstructionKind::Opcode {
            mnemonic: "jmp".to_string(),
            arguments: vec![
                Argument::new(ArgumentKind::ImmediateNumber(1u8), span),
                Argument::new(ArgumentKind::Label("x".to_string()), span),
            ],
        },
        span,
        span,
    );
    assert_eq!(op.binary_len(), 1 + 1 + LABEL_SIZE);

    let org = Instruction::new(
        InstructionKind::Keyword {
            keyword: Keyword::Org,
            arguments: vec![Argument::new(ArgumentKind::IndirectNumber(0x100u16), span)],
        },
        span,
        span,
    );
    assert_eq!(org.binary_len(), 0);

    let byte = Instruction::new(
        InstructionKind::Keyword {
            keyword: Keyword::Byte,
            arguments: vec![
                Argument::new(ArgumentKind::IndirectNumber(0x100u16), span),
                Argument::new(ArgumentKind::IndirectNumber(0x05u16), span),
            ],
        },
        span,
        span,
    );
    assert_eq!(byte.binary_len(), 3);
}

/// Opcode lookup is by mnemonic, case-sensitively, first match winning.
#[test]
fn get_opcode_by_mnemonic() {
    let config = AssemblerConfig {
        opcodes: vec![
            opcode("nop", 0x00, vec![]),
            opcode("NOP", 0x01, vec![]),
            opcode("nop", 0x02, vec![]),
        ],
    };

    assert_eq!(config.get_opcode("nop").unwrap().binary, 0x00);
    assert_eq!(config.get_opcode("NOP").unwrap().binary, 0x01);
    assert!(config.get_opcode("hlt").is_none());
}

/// Symbol lookup: the last definition of a name wins; unknown names are
/// absent.
#[test]
fn symbol_table_last_definition_wins() {
    let mut table = SymbolTable::new();
    assert_eq!(table.len(), 0);
    assert_eq!(table.get("a"), None);

    table.insert("a".to_string(), 1);
    table.insert("b".to_string(), 2);
    table.insert("a".to_string(), 7);

    assert_eq!(table.get("a"), Some(7));
    assert_eq!(table.get("b"), Some(2));
    assert_eq!(table.get("c"), None);
}

/// The empty statement list is empty; statements are kept in order.
#[test]
fn ast_accessors() {
    let empty = Ast::empty();
    assert!(empty.is_empty());
    assert_eq!(empty.len(), 0);
    assert_eq!(Ast::new(), empty);

    let span = Position::new(0, 1);
    let ast = Ast {
        instructions: vec![Instruction::new(
            InstructionKind::Label("x".to_string()),
            span,
            span,
        )],
        symbols: SymbolTable::new(),
    };
    assert!(!ast.is_empty());
    assert_eq!(ast.len(), 1);
    assert_eq!(ast.statements().len(), 1);
}
