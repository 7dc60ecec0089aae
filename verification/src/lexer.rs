//! The lexical scanner: turns source text into a stream of spanned tokens.
//!
//! The scanner works over a character-indexed view of the source, so spans
//! count characters and multi-byte code points do not corrupt span
//! arithmetic. Newlines are significant (they separate statements); all other
//! whitespace between tokens is skipped. At end of input the scanner returns
//! an end-of-input token, repeatedly and without error.

use vstd::prelude::*;

use crate::errors::{ParsingError, SpecParsingError};
use crate::position::Position;
use crate::token::{SpecToken, Token, TokenKind};

verus! {

/// Whitespace that separates tokens without ending a statement: the ASCII
/// whitespace characters except LF and CR, which lex as newline tokens.
pub open spec fn is_inline_ws(c: char) -> bool {
    c == ' ' || c == '\t' || c == '\u{b}' || c == '\u{c}'
}

/// Characters that may start an identifier: the ASCII letters and the
/// underscore. Any character outside these classes, ASCII or not, is
/// reported as an unknown character rather than silently accepted.
pub open spec fn is_ident_start(c: char) -> bool {
    ('a' as u32 <= c as u32 && c as u32 <= 'z' as u32) || ('A' as u32 <= c as u32 && c as u32
        <= 'Z' as u32) || c == '_'
}

/// Decimal digits.
pub open spec fn is_digit(c: char) -> bool {
    '0' as u32 <= c as u32 && c as u32 <= '9' as u32
}

/// The character classes the scanner reads runs of.
#[derive(Clone, Copy, Debug, PartialEq, Eq, Structural)]
pub enum CharClass {
    /// Inline whitespace (everything but newlines).
    Ws,
    /// Identifier continuation characters: letters, digits, underscore.
    IdentCont,
    /// Decimal digits.
    Dec,
    /// Hexadecimal digits.
    Hex,
    /// Octal digits.
    Oct,
    /// Binary digits.
    Bin,
}

/// Whether `c` belongs to the character class `cls`.
pub open spec fn in_class(c: char, cls: CharClass) -> bool {
    match cls {
        CharClass::Ws => is_inline_ws(c),
        CharClass::IdentCont => is_ident_start(c) || is_digit(c),
        CharClass::Dec => is_digit(c),
        CharClass::Hex => is_digit(c) || ('a' as u32 <= c as u32 && c as u32 <= 'f' as u32) || (
        'A' as u32 <= c as u32 && c as u32 <= 'F' as u32),
        CharClass::Oct => '0' as u32 <= c as u32 && c as u32 <= '7' as u32,
        CharClass::Bin => c == '0' || c == '1',
    }
}

/// The first index at or after `i` whose character is not in `cls` (or the
/// end of the input). The scanner's runs of identifier, digit and whitespace
/// characters all end here.
pub open spec fn scan_end(s: Seq<char>, i: int, cls: CharClass) -> int
    decreases s.len() - i,
    when 0 <= i <= s.len()
{
    if i < s.len() && in_class(s[i], cls) {
        scan_end(s, i + 1, cls)
    } else {
        i
    }
}

/// Everything the definition of `scan_end` guarantees: the result stays in
/// range, every character of the run is in the class, and the run is maximal.
pub proof fn lemma_scan_end(s: Seq<char>, i: int, cls: CharClass)
    requires
        0 <= i <= s.len(),
    ensures
        i <= scan_end(s, i, cls) <= s.len(),
        forall|k: int| i <= k < scan_end(s, i, cls) ==> in_class(#[trigger] s[k], cls),
        scan_end(s, i, cls) < s.len() ==> !in_class(s[scan_end(s, i, cls)], cls),
    decreases s.len() - i,
{
    if i < s.len() && in_class(s[i], cls) {
        lemma_scan_end(s, i + 1, cls);
    }
}

/// Skipping inline whitespace.
pub open spec fn skip_ws_end(s: Seq<char>, i: int) -> int {
    scan_end(s, i, CharClass::Ws)
}

/// What one call of the scanner produces: either a token or an
/// unknown-character error, along with the scanner's next position.
pub ghost enum SpecLexRes {
    Tok(SpecToken),
    Bad(char, Position),
}

/// A scanner step: the result and the position the scanner stands at
/// afterwards.
pub ghost struct SpecLexOut {
    pub res: SpecLexRes,
    pub next: int,
}

/// A one-character token of kind `kind` at index `i`.
pub open spec fn spec_one_char_tok(s: Seq<char>, i: int, kind: TokenKind) -> SpecLexOut {
    SpecLexOut {
        res: SpecLexRes::Tok(
            SpecToken {
                kind,
                pos: Position { start: i as u32, end: (i + 1) as u32 },
                lit: s.subrange(i, i + 1),
            },
        ),
        next: i + 1,
    }
}

/// A token of kind `kind` spanning `[i, j)`.
pub open spec fn spec_span_tok(s: Seq<char>, i: int, j: int, kind: TokenKind) -> SpecLexOut {
    SpecLexOut {
        res: SpecLexRes::Tok(
            SpecToken {
                kind,
                pos: Position { start: i as u32, end: j as u32 },
                lit: s.subrange(i, j),
            },
        ),
        next: j,
    }
}

/// The scanner's single step: the token (or unknown-character error) found at
/// or after position `i0`, in this order of rules: end of input; the
/// one-character tokens `:`, `;`, `#`, `+`, `-`; LF, CRLF and bare CR as one
/// newline token; identifiers starting with a letter or `_`; keywords
/// starting with `.`; digit-led numbers, whose `0x`/`0o`/`0b` prefix (either
/// case) picks the digit class and stays in the literal text; anything else
/// is an unknown character, skipped after being reported.
pub open spec fn spec_token_at(s: Seq<char>, i0: int) -> SpecLexOut
    recommends
        0 <= i0 <= s.len(),
        s.len() <= u32::MAX,
{
    let i = skip_ws_end(s, i0);
    if i >= s.len() {
        SpecLexOut {
            res: SpecLexRes::Tok(
                SpecToken {
                    kind: TokenKind::Eof,
                    pos: Position { start: s.len() as u32, end: s.len() as u32 },
                    lit: seq!['\0'],
                },
            ),
            next: s.len() as int,
        }
    } else {
        let c = s[i];
        if c == ':' {
            spec_one_char_tok(s, i, TokenKind::Colon)
        } else if c == ';' {
            spec_one_char_tok(s, i, TokenKind::Semicolon)
        } else if c == '#' {
            spec_one_char_tok(s, i, TokenKind::Hash)
        } else if c == '+' {
            spec_one_char_tok(s, i, TokenKind::Plus)
        } else if c == '-' {
            spec_one_char_tok(s, i, TokenKind::Minus)
        } else if c == '\n' {
            spec_one_char_tok(s, i, TokenKind::Newline)
        } else if c == '\r' {
            if i + 1 < s.len() && s[i + 1] == '\n' {
                spec_span_tok(s, i, i + 2, TokenKind::Newline)
            } else {
                spec_one_char_tok(s, i, TokenKind::Newline)
            }
        } else if is_ident_start(c) {
            spec_span_tok(s, i, scan_end(s, i, CharClass::IdentCont), TokenKind::Ident)
        } else if c == '.' && i + 1 < s.len() && is_ident_start(s[i + 1]) {
            spec_span_tok(s, i, scan_end(s, i + 1, CharClass::IdentCont), TokenKind::Keyword)
        } else if is_digit(c) {
            if c == '0' && i + 1 < s.len() && (s[i + 1] == 'x' || s[i + 1] == 'X') {
                spec_span_tok(s, i, scan_end(s, i + 2, CharClass::Hex), TokenKind::Number)
            } else if c == '0' && i + 1 < s.len() && (s[i + 1] == 'o' || s[i + 1] == 'O') {
                spec_span_tok(s, i, scan_end(s, i + 2, CharClass::Oct), TokenKind::Number)
            } else if c == '0' && i + 1 < s.len() && (s[i + 1] == 'b' || s[i + 1] == 'B') {
                spec_span_tok(s, i, scan_end(s, i + 2, CharClass::Bin), TokenKind::Number)
            } else {
                spec_span_tok(s, i, scan_end(s, i, CharClass::Dec), TokenKind::Number)
            }
        } else {
            SpecLexOut {
                res: SpecLexRes::Bad(c, Position { start: i as u32, end: (i + 1) as u32 }),
                next: i + 1,
            }
        }
    }
}

/// The scanner always stands still only at end of input: every other step
/// strictly advances, tokens end exactly where the scanner resumes, and spans
/// never run backwards.
pub proof fn lemma_token_at(s: Seq<char>, i0: int)
    requires
        0 <= i0 <= s.len(),
        s.len() <= u32::MAX,
    ensures
        i0 <= spec_token_at(s, i0).next <= s.len(),
        match spec_token_at(s, i0).res {
            SpecLexRes::Tok(t) => {
                &&& t.pos.end == spec_token_at(s, i0).next
                &&& i0 <= t.pos.start <= t.pos.end
                &&& (t.kind != TokenKind::Eof ==> t.pos.start < t.pos.end)
                &&& (t.kind == TokenKind::Eof ==> t.pos.start == s.len() && spec_token_at(
                    s,
                    i0,
                ).next == s.len())
            },
            SpecLexRes::Bad(c, sp) => {
                &&& sp.end == spec_token_at(s, i0).next
                &&& i0 <= sp.start < sp.end
            },
        },
{
    lemma_scan_end(s, i0, CharClass::Ws);
    let i = skip_ws_end(s, i0);
    if i < s.len() {
        lemma_scan_end(s, i, CharClass::IdentCont);
        lemma_scan_end(s, i + 1, CharClass::IdentCont);
        lemma_scan_end(s, i, CharClass::Dec);
        if i + 2 <= s.len() {
            lemma_scan_end(s, i + 2, CharClass::Hex);
            lemma_scan_end(s, i + 2, CharClass::Oct);
            lemma_scan_end(s, i + 2, CharClass::Bin);
        }
    }
}

/// Every unknown-character error at or after position `i`, in source order:
/// what a caller who drains the scanner to the end collects.
pub open spec fn spec_lex_errors(s: Seq<char>, i: int) -> Seq<SpecParsingError>
    decreases s.len() - i,
    when 0 <= i <= s.len() && s.len() <= u32::MAX
{
    let o = spec_token_at(s, i);
    match o.res {
        SpecLexRes::Tok(t) => {
            if t.kind == TokenKind::Eof {
                Seq::empty()
            } else {
                proof {
                    lemma_token_at(s, i);
                }
                spec_lex_errors(s, o.next)
            }
        },
        SpecLexRes::Bad(c, sp) => {
            proof {
                lemma_token_at(s, i);
            }
            seq![SpecParsingError::UnknownCharacter { character: c, span: sp }] + spec_lex_errors(
                s,
                o.next,
            )
        },
    }
}

/// The lexical scanner. It owns the source text and a cursor, and hands out
/// one token per call of [`Lexer::next_token`].
#[derive(Debug, Clone)]
pub struct Lexer {
    /// The source text.
    src: String,

    /// The source text, one entry per character, so that spans can be
    /// computed by character index.
    chars: Vec<char>,

    /// The index of the next character to scan.
    pos: usize,
}

impl Lexer {
    /// The scanner's internal consistency: the character vector mirrors the
    /// source, the cursor is in range, and spans fit their type.
    pub closed spec fn wf(&self) -> bool {
        &&& self.chars@ == self.src@
        &&& self.pos <= self.src@.len()
        &&& self.src@.len() <= u32::MAX
    }

    /// The source text this scanner reads.
    pub closed spec fn src_view(&self) -> Seq<char> {
        self.src@
    }

    /// The scanner's current position.
    pub closed spec fn at(&self) -> int {
        self.pos as int
    }

    /// What [`Lexer::wf`] guarantees of the cursor and the source length.
    pub proof fn wf_bounds(&self)
        requires
            self.wf(),
        ensures
            0 <= self.at() <= self.src_view().len(),
            self.src_view().len() <= u32::MAX,
    {
    }

    /// Creates a new scanner over the given source code, standing at its
    /// first character.
    pub fn new(input: &str) -> (r: Lexer)
        requires
            input@.len() <= u32::MAX,
        ensures
            r.wf(),
            r.src_view() == input@,
            r.at() == 0,
    {
        let n = input.unicode_len();
        let mut chars: Vec<char> = Vec::new();
        for i in 0..n
            invariant
                n == input@.len(),
                chars@ == input@.take(i as int),
        {
            chars.push(input.get_char(i));
            proof {
                assert(chars@ =~= input@.take(i + 1));
            }
        }
        proof {
            assert(input@.take(n as int) =~= input@);
        }
        Lexer { src: input.to_owned(), chars, pos: 0 }
    }

    /// Whether `c` may start an identifier; the executable mirror of
    /// [`is_ident_start`].
    fn ident_start_check(c: char) -> (b: bool)
        ensures
            b == is_ident_start(c),
    {
        let u = c as u32;
        (97 <= u && u <= 122) || (65 <= u && u <= 90) || c == '_'
    }

    /// Whether `c` is in `cls`; the executable mirror of [`in_class`].
    fn class_check(c: char, cls: CharClass) -> (b: bool)
        ensures
            b == in_class(c, cls),
    {
        let u = c as u32;
        match cls {
            CharClass::Ws => c == ' ' || c == '\t' || c == '\u{b}' || c == '\u{c}',
            CharClass::IdentCont => (97 <= u && u <= 122) || (65 <= u && u <= 90) || c == '_' || (48
                <= u && u <= 57),
            CharClass::Dec => 48 <= u && u <= 57,
            CharClass::Hex => (48 <= u && u <= 57) || (97 <= u && u <= 102) || (65 <= u && u <= 70),
            CharClass::Oct => 48 <= u && u <= 55,
            CharClass::Bin => c == '0' || c == '1',
        }
    }

    /// Advances the cursor past the current run of `cls` characters.
    fn scan(&mut self, cls: CharClass)
        requires
            old(self).wf(),
        ensures
            final(self).wf(),
            final(self).src == old(self).src,
            final(self).chars == old(self).chars,
            final(self).at() == scan_end(old(self).src_view(), old(self).at(), cls),
    {
        loop
            invariant
                self.wf(),
                self.src == old(self).src,
                self.chars == old(self).chars,
                old(self).at() <= self.at() <= self.src@.len(),
                scan_end(self.src@, old(self).at(), cls) == scan_end(self.src@, self.at(), cls),
            decreases self.src@.len() - self.pos,
        {
            if self.pos < self.chars.len() && Self::class_check(self.chars[self.pos], cls) {
                self.pos = self.pos + 1;
            } else {
                proof {
                    lemma_scan_end(self.src@, self.at(), cls);
                }
                return ;
            }
        }
    }

    /// Returns the literal text spanning characters `[from, to)`.
    fn literal(&self, from: usize, to: usize) -> (r: String)
        requires
            self.wf(),
            from <= to <= self.src@.len(),
        ensures
            r@ == self.src@.subrange(from as int, to as int),
    {
        self.src.as_str().substring_char(from, to).to_owned()
    }

    /// Builds a one-character token of kind `kind` at the cursor and advances
    /// past it.
    fn one_char_token(&mut self, kind: TokenKind) -> (r: Token)
        requires
            old(self).wf(),
            old(self).pos < old(self).src@.len(),
        ensures
            final(self).wf(),
            final(self).src == old(self).src,
            final(self).chars == old(self).chars,
            final(self).at() == old(self).at() + 1,
            r@ == spec_one_char_tok(old(self).src_view(), old(self).at(), kind).res->Tok_0,
    {
        let start = self.pos;
        let lit = self.literal(start, start + 1);
        self.pos = start + 1;
        Token { kind, position: Position::new(start, start + 1), literal: lit }
    }

    /// Returns the next token in the source, or the unknown character the
    /// scanner had to skip. At end of input it returns an end-of-input token,
    /// again and again, never an error.
    pub fn next_token(&mut self) -> (r: Result<Token, ParsingError>)
        requires
            old(self).wf(),
        ensures
            final(self).wf(),
            final(self).src_view() == old(self).src_view(),
            final(self).at() == spec_token_at(old(self).src_view(), old(self).at()).next,
            match spec_token_at(old(self).src_view(), old(self).at()).res {
                SpecLexRes::Tok(t) => r is Ok && r->Ok_0@ == t,
                SpecLexRes::Bad(c, sp) => r is Err && r->Err_0@ == (SpecParsingError::UnknownCharacter {
                    character: c,
                    span: sp,
                }),
            },
    {
        self.scan(CharClass::Ws);
        proof {
            lemma_scan_end(self.src@, old(self).at(), CharClass::Ws);
        }
        if self.pos >= self.chars.len() {
            let lit = String::from_str("\0");
            proof {
                reveal_strlit("\0");
                assert(lit@ =~= seq!['\0']);
            }
            let n = self.chars.len();
            return Ok(Token { kind: TokenKind::Eof, position: Position::new(n, n), literal: lit });
        }
        let i = self.pos;
        let c = self.chars[i];
        if c == ':' {
            Ok(self.one_char_token(TokenKind::Colon))
        } else if c == ';' {
            Ok(self.one_char_token(TokenKind::Semicolon))
        } else if c == '#' {
            Ok(self.one_char_token(TokenKind::Hash))
        } else if c == '+' {
            Ok(self.one_char_token(TokenKind::Plus))
        } else if c == '-' {
            Ok(self.one_char_token(TokenKind::Minus))
        } else if c == '\n' {
            Ok(self.one_char_token(TokenKind::Newline))
        } else if c == '\r' {
            if i + 1 < self.chars.len() && self.chars[i + 1] == '\n' {
                let lit = self.literal(i, i + 2);
                self.pos = i + 2;
                Ok(Token { kind: TokenKind::Newline, position: Position::new(i, i + 2), literal: lit })
            } else {
                Ok(self.one_char_token(TokenKind::Newline))
            }
        } else if Self::ident_start_check(c) {
            self.scan(CharClass::IdentCont);
            proof {
                lemma_scan_end(self.src@, i as int, CharClass::IdentCont);
            }
            let j = self.pos;
            let lit = self.literal(i, j);
            Ok(Token { kind: TokenKind::Ident, position: Position::new(i, j), literal: lit })
        } else if c == '.' && i + 1 < self.chars.len() && Self::ident_start_check(
            self.chars[i + 1],
        ) {
            self.pos = i + 1;
            self.scan(CharClass::IdentCont);
            proof {
                lemma_scan_end(self.src@, i + 1, CharClass::IdentCont);
            }
            let j = self.pos;
            let lit = self.literal(i, j);
            Ok(Token { kind: TokenKind::Keyword, position: Position::new(i, j), literal: lit })
        } else if Self::class_check(c, CharClass::Dec) {
            let has_next = i + 1 < self.chars.len();
            if c == '0' && has_next && (self.chars[i + 1] == 'x' || self.chars[i + 1] == 'X') {
                self.pos = i + 2;
                self.scan(CharClass::Hex);
            } else if c == '0' && has_next && (self.chars[i + 1] == 'o' || self.chars[i + 1]
                == 'O') {
                self.pos = i + 2;
                self.scan(CharClass::Oct);
            } else if c == '0' && has_next && (self.chars[i + 1] == 'b' || self.chars[i + 1]
                == 'B') {
                self.pos = i + 2;
                self.scan(CharClass::Bin);
            } else {
                self.scan(CharClass::Dec);
            }
            proof {
                lemma_scan_end(self.src@, i as int, CharClass::Dec);
                if i + 2 <= self.src@.len() {
                    lemma_scan_end(self.src@, i + 2, CharClass::Hex);
                    lemma_scan_end(self.src@, i + 2, CharClass::Oct);
                    lemma_scan_end(self.src@, i + 2, CharClass::Bin);
                }
            }
            let j = self.pos;
            let lit = self.literal(i, j);
            Ok(Token { kind: TokenKind::Number, position: Position::new(i, j), literal: lit })
        } else {
            self.pos = i + 1;
            Err(ParsingError::UnknownCharacter { character: c, span: Position::new(i, i + 1) })
        }
    }

    /// Collects every unknown-character error in the rest of the source, in
    /// order, draining the scanner to its end.
    pub fn errors(&mut self) -> (r: Vec<ParsingError>)
        requires
            old(self).wf(),
        ensures
            final(self).wf(),
            final(self).src_view() == old(self).src_view(),
            final(self).at() == final(self).src_view().len(),
            r@.map_values(|e: ParsingError| e@) == spec_lex_errors(
                old(self).src_view(),
                old(self).at(),
            ),
    {
        let mut out: Vec<ParsingError> = Vec::new();
        loop
            invariant
                self.wf(),
                self.src_view() == old(self).src_view(),
                spec_lex_errors(old(self).src_view(), old(self).at())
                    == out@.map_values(|e: ParsingError| e@) + spec_lex_errors(
                    self.src@,
                    self.at(),
                ),
            decreases self.src@.len() - self.pos,
        {
            let ghost pre_pos = self.at();
            proof {
                lemma_token_at(self.src@, self.at());
            }
            match self.next_token() {
                Ok(t) => {
                    if t.kind == TokenKind::Eof {
                        proof {
                            assert(spec_lex_errors(self.src@, pre_pos) =~= Seq::<
                                SpecParsingError,
                            >::empty());
                            assert(out@.map_values(|e: ParsingError| e@) + Seq::<
                                SpecParsingError,
                            >::empty() =~= out@.map_values(|e: ParsingError| e@));
                        }
                        return out;
                    }
                },
                Err(e) => {
                    let ghost old_out = out@;
                    out.push(e);
                    proof {
                        assert(out@.map_values(|x: ParsingError| x@) =~= old_out.map_values(
                            |x: ParsingError| x@,
                        ).push(e@));
                        assert(old_out.map_values(|x: ParsingError| x@).push(e@) + spec_lex_errors(
                            self.src@,
                            self.at(),
                        ) =~= old_out.map_values(|x: ParsingError| x@) + (seq![e@]
                            + spec_lex_errors(self.src@, self.at())));
                    }
                },
            }
        }
    }
}

impl View for Lexer {
    type V = Seq<char>;

    closed spec fn view(&self) -> Seq<char> {
        self.src@
    }
}

} // verus!
