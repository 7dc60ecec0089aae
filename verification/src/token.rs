//! Tokens produced by the lexical scanner.

use vstd::prelude::*;

use crate::position::Position;

verus! {

/// Represents the kind of a token.
#[derive(Debug, Copy, Clone, PartialEq, Eq, Structural)]
pub enum TokenKind {
    /// The end of the input.
    Eof,
    /// A newline (any of LF, CRLF or bare CR).
    Newline,
    /// An identifier.
    Ident,
    /// A colon.
    Colon,
    /// A semicolon, which starts a comment.
    Semicolon,
    /// A plus sign.
    Plus,
    /// A minus sign.
    Minus,
    /// A pound sign.
    Hash,
    /// A numeric value. The literal keeps its base prefix (`0x`, `0o`, `0b`)
    /// exactly as written, so the parser can re-derive the base.
    Number,
    /// A keyword such as `.byte` or `.org`; the literal includes the dot.
    Keyword,
}

/// The mathematical value of a token: its kind, its span, and its literal
/// text as a sequence of characters.
pub ghost struct SpecToken {
    pub kind: TokenKind,
    pub pos: Position,
    pub lit: Seq<char>,
}

/// Represents a token of source code. Tokens are produced by the lexer.
#[derive(Debug, Clone, PartialEq, Eq)]
pub struct Token {
    /// The kind of token this is.
    pub kind: TokenKind,

    /// The span of the token in the input.
    pub position: Position,

    /// The literal text of the token.
    pub literal: String,
}

impl View for Token {
    type V = SpecToken;

    open spec fn view(&self) -> SpecToken {
        SpecToken { kind: self.kind, pos: self.position, lit: self.literal@ }
    }
}

impl Token {
    /// Creates a new token.
    pub fn new(kind: TokenKind, position: Position, literal: String) -> (r: Token)
        ensures
            r@ == (SpecToken { kind, pos: position, lit: literal@ }),
    {
        Token { kind, position, literal }
    }

    /// Creates a new identifier token whose span starts at `start_index` and
    /// covers the identifier's characters.
    pub fn from_ident(ident: String, start_index: usize) -> (r: Token)
        requires
            start_index + ident@.len() <= u32::MAX,
        ensures
            r@.kind == TokenKind::Ident,
            r@.lit == ident@,
            r@.pos.start == start_index,
            r@.pos.end == start_index + ident@.len(),
    {
        let len = ident.as_str().unicode_len();
        let position = Position::new(start_index, start_index + len);
        Token { kind: TokenKind::Ident, position, literal: ident }
    }

    /// Creates a new keyword token (e.g. `.byte`, `.org`) whose span starts at
    /// `start_index` and covers the keyword's characters.
    pub fn from_keyword(keyword: String, start_index: usize) -> (r: Token)
        requires
            start_index + keyword@.len() <= u32::MAX,
        ensures
            r@.kind == TokenKind::Keyword,
            r@.lit == keyword@,
            r@.pos.start == start_index,
            r@.pos.end == start_index + keyword@.len(),
    {
        let len = keyword.as_str().unicode_len();
        let position = Position::new(start_index, start_index + len);
        Token { kind: TokenKind::Keyword, position, literal: keyword }
    }

    /// Copies this token. The copy is equal to the original in every field.
    pub fn duplicate(&self) -> (r: Token)
        ensures
            r@ == self@,
            r.kind == self.kind,
            r.position == self.position,
    {
        Token { kind: self.kind, position: self.position, literal: self.literal.clone() }
    }
}

} // verus!
