//! The diagnostic model shared by every phase. Diagnostics are collected into
//! lists rather than aborting a phase on its first problem, so one call can
//! surface every independent error in the source.

use vstd::prelude::*;

use crate::config::OpcodeArg;
use crate::position::Position;
use crate::token::TokenKind;

verus! {

/// The mathematical value of a [`ParsingError`].
pub ghost enum SpecParsingError {
    UnknownCharacter { character: char, span: Position },
    Unexpected { expected: Seq<TokenKind>, found: TokenKind, span: Position },
    Overflow { literal: Seq<char>, span: Position },
    Underflow { literal: Seq<char>, span: Position },
    EmptyLiteral { span: Position },
    KeywordDNE { mnemonic: Seq<char>, span: Position },
}

/// An error found while scanning or parsing the source text.
#[derive(Clone, Debug, PartialEq, Eq)]
pub enum ParsingError {
    /// Unknown character in the source code.
    UnknownCharacter {
        /// The character that was unknown.
        character: char,
        /// The span of the character in the source code.
        span: Position,
    },

    /// There was an unexpected token in the source code.
    Unexpected {
        /// The token kinds that would have been accepted.
        expected: Vec<TokenKind>,
        /// The token kind that was found instead.
        found: TokenKind,
        /// The span of the token in the source code.
        span: Position,
    },

    /// A numeric literal is too large for its target width.
    Overflow {
        /// The literal text that overflowed.
        literal: String,
        /// The span of the literal in the source code.
        span: Position,
    },

    /// A negative numeric literal is too small for its target width.
    Underflow {
        /// The literal text that underflowed.
        literal: String,
        /// The span of the literal in the source code.
        span: Position,
    },

    /// A numeric literal has no digits after its base prefix.
    EmptyLiteral {
        /// The span of the literal in the source code.
        span: Position,
    },

    /// A keyword does not exist; only `.byte` and `.org` are defined.
    KeywordDNE {
        /// The keyword that does not exist.
        mnemonic: String,
        /// The span of the keyword in the source code.
        span: Position,
    },
}

impl View for ParsingError {
    type V = SpecParsingError;

    open spec fn view(&self) -> SpecParsingError {
        match self {
            ParsingError::UnknownCharacter { character, span } => {
                SpecParsingError::UnknownCharacter { character: *character, span: *span }
            },
            ParsingError::Unexpected { expected, found, span } => {
                SpecParsingError::Unexpected { expected: expected@, found: *found, span: *span }
            },
            ParsingError::Overflow { literal, span } => {
                SpecParsingError::Overflow { literal: literal@, span: *span }
            },
            ParsingError::Underflow { literal, span } => {
                SpecParsingError::Underflow { literal: literal@, span: *span }
            },
            ParsingError::EmptyLiteral { span } => {
                SpecParsingError::EmptyLiteral { span: *span }
            },
            ParsingError::KeywordDNE { mnemonic, span } => {
                SpecParsingError::KeywordDNE { mnemonic: mnemonic@, span: *span }
            },
        }
    }
}

/// The mathematical value of an [`AssemblerError`].
pub ghost enum SpecAssemblerError {
    Parsing { source: SpecParsingError },
    WrongNumArgs {
        mnemonic: Seq<char>,
        expected: u16,
        given: u16,
        mnemonic_span: Position,
        args_span: Position,
    },
    WrongArgType {
        mnemonic: Seq<char>,
        expected: OpcodeArg,
        given: OpcodeArg,
        mnemonic_span: Position,
        arg_span: Position,
    },
    OpcodeDNE { mnemonic: Seq<char>, span: Position },
    LabelDNE { mnemonic: Seq<char>, span: Position },
}

/// The public error type used to report problems to callers of `assemble`.
#[derive(Clone, Debug, PartialEq, Eq)]
pub enum AssemblerError {
    /// A scanning or parsing error occurred.
    Parsing {
        /// The source parsing error.
        source: ParsingError,
    },

    /// An opcode was given the wrong number of argument bytes.
    WrongNumArgs {
        /// The opcode that was given the wrong number of argument bytes.
        mnemonic: String,
        /// The number of argument bytes the opcode expects.
        expected: u16,
        /// The number of argument bytes that were given.
        given: u16,
        /// The span of the mnemonic in the source code.
        mnemonic_span: Position,
        /// The span of the arguments in the source code.
        args_span: Position,
    },

    /// An opcode was given an argument of the wrong kind.
    WrongArgType {
        /// The opcode that was given the wrong kind of argument.
        mnemonic: String,
        /// The kind of argument the opcode expects at this position.
        expected: OpcodeArg,
        /// The kind of argument that was given.
        given: OpcodeArg,
        /// The span of the mnemonic in the source code.
        mnemonic_span: Position,
        /// The span of the argument in the source code.
        arg_span: Position,
    },

    /// An opcode does not exist in the configuration.
    OpcodeDNE {
        /// The mnemonic that does not exist.
        mnemonic: String,
        /// The span of the mnemonic in the source code.
        span: Position,
    },

    /// A label used as an argument is not defined anywhere in the source.
    LabelDNE {
        /// The label that does not exist.
        mnemonic: String,
        /// The span of the label in the source code.
        span: Position,
    },
}

impl View for AssemblerError {
    type V = SpecAssemblerError;

    open spec fn view(&self) -> SpecAssemblerError {
        match self {
            AssemblerError::Parsing { source } => {
                SpecAssemblerError::Parsing { source: source@ }
            },
            AssemblerError::WrongNumArgs { mnemonic, expected, given, mnemonic_span, args_span } => {
                SpecAssemblerError::WrongNumArgs {
                    mnemonic: mnemonic@,
                    expected: *expected,
                    given: *given,
                    mnemonic_span: *mnemonic_span,
                    args_span: *args_span,
                }
            },
            AssemblerError::WrongArgType { mnemonic, expected, given, mnemonic_span, arg_span } => {
                SpecAssemblerError::WrongArgType {
                    mnemonic: mnemonic@,
                    expected: *expected,
                    given: *given,
                    mnemonic_span: *mnemonic_span,
                    arg_span: *arg_span,
                }
            },
            AssemblerError::OpcodeDNE { mnemonic, span } => {
                SpecAssemblerError::OpcodeDNE { mnemonic: mnemonic@, span: *span }
            },
            AssemblerError::LabelDNE { mnemonic, span } => {
                SpecAssemblerError::LabelDNE { mnemonic: mnemonic@, span: *span }
            },
        }
    }
}

} // verus!
