//! The statement-level parser: consumes tokens with one-token lookahead and
//! builds the statement list and the symbol table, doing the first pass of
//! address bookkeeping as it goes. Diagnostics are accumulated, with
//! placeholder values substituted, so one parse reports every independent
//! problem; a bad token only costs the rest of its line.

use vstd::prelude::*;

use crate::ast::{
    sat_add16, spec_binary_len, Argument, ArgumentKind, Ast, Instruction, InstructionKind,
    Keyword, SpecArg, SpecArgKind, SpecInstruction, SpecInstructionKind, SpecSymbols,
};
use crate::errors::{ParsingError, SpecParsingError};
use crate::lexer::{spec_token_at, Lexer, SpecLexRes};
use crate::position::{spec_join, Position};
use crate::token::{SpecToken, Token, TokenKind};
use crate::values::{spec_negate, spec_parse_number};

verus! {

/// The lookahead discipline: the current token ends exactly where the
/// scanner stands, spans never run backwards, only the end-of-input token is
/// empty, and it stands at the end of the source.
pub open spec fn tok_wf(s: Seq<char>, cur: SpecToken, pos: int) -> bool {
    &&& 0 <= cur.pos.start <= cur.pos.end
    &&& cur.pos.end == pos <= s.len()
    &&& (cur.kind != TokenKind::Eof ==> cur.pos.start < cur.pos.end)
    &&& (cur.kind == TokenKind::Eof ==> cur.pos.start == s.len())
    &&& (cur.kind == TokenKind::Number ==> crate::values::number_lit_wf(cur.lit))
}

/// Reading one token: unknown characters on the way are recorded, each as
/// its own diagnostic, and skipped.
pub ghost struct ReadOut {
    pub tok: SpecToken,
    pub next: int,
    pub diags: Seq<SpecParsingError>,
}

/// The next real token at or after `i`, with every unknown character before
/// it recorded in order.
pub open spec fn spec_read(s: Seq<char>, i: int, diags: Seq<SpecParsingError>) -> ReadOut
    decreases s.len() - i,
    when 0 <= i <= s.len() && s.len() <= u32::MAX
{
    let o = spec_token_at(s, i);
    match o.res {
        SpecLexRes::Tok(t) => ReadOut { tok: t, next: o.next, diags },
        SpecLexRes::Bad(c, sp) => {
            proof {
                crate::lexer::lemma_token_at(s, i);
            }
            spec_read(
                s,
                o.next,
                diags.push(SpecParsingError::UnknownCharacter { character: c, span: sp }),
            )
        },
    }
}

/// Reading always lands on a well-formed token that starts at or after where
/// reading began, and records exactly the unknown characters it skipped.
pub proof fn lemma_read(s: Seq<char>, i: int, diags: Seq<SpecParsingError>)
    requires
        0 <= i <= s.len(),
        s.len() <= u32::MAX,
    ensures
        tok_wf(s, spec_read(s, i, diags).tok, spec_read(s, i, diags).next),
        spec_read(s, i, diags).tok.pos.start >= i,
        spec_read(s, i, diags).diags.len() >= diags.len(),
    decreases s.len() - i,
{
    crate::lexer::lemma_token_at(s, i);
    crate::values::lemma_number_token_wf(s, i);
    let o = spec_token_at(s, i);
    match o.res {
        SpecLexRes::Tok(t) => {},
        SpecLexRes::Bad(c, sp) => {
            lemma_read(
                s,
                o.next,
                diags.push(SpecParsingError::UnknownCharacter { character: c, span: sp }),
            );
        },
    }
}

/// Skipping a comment (or resynchronising after a syntax error): tokens and
/// unknown characters are discarded without record until a newline or the
/// end of input, which becomes the current token.
pub open spec fn spec_skip_comment(s: Seq<char>, i: int) -> (SpecToken, int)
    decreases s.len() - i,
    when 0 <= i <= s.len() && s.len() <= u32::MAX
{
    let o = spec_token_at(s, i);
    match o.res {
        SpecLexRes::Tok(t) => {
            if t.kind == TokenKind::Newline || t.kind == TokenKind::Eof {
                (t, o.next)
            } else {
                proof {
                    crate::lexer::lemma_token_at(s, i);
                }
                spec_skip_comment(s, o.next)
            }
        },
        SpecLexRes::Bad(c, sp) => {
            proof {
                crate::lexer::lemma_token_at(s, i);
            }
            spec_skip_comment(s, o.next)
        },
    }
}

/// Skipping a comment lands on a newline or end-of-input token, well formed,
/// at or after where skipping began.
pub proof fn lemma_skip_comment(s: Seq<char>, i: int)
    requires
        0 <= i <= s.len(),
        s.len() <= u32::MAX,
    ensures
        tok_wf(s, spec_skip_comment(s, i).0, spec_skip_comment(s, i).1),
        spec_skip_comment(s, i).0.pos.start >= i,
        spec_skip_comment(s, i).0.kind == TokenKind::Newline || spec_skip_comment(s, i).0.kind
            == TokenKind::Eof,
    decreases s.len() - i,
{
    crate::lexer::lemma_token_at(s, i);
    let o = spec_token_at(s, i);
    match o.res {
        SpecLexRes::Tok(t) => {
            if !(t.kind == TokenKind::Newline || t.kind == TokenKind::Eof) {
                lemma_skip_comment(s, o.next);
            }
        },
        SpecLexRes::Bad(c, sp) => {
            lemma_skip_comment(s, o.next);
        },
    }
}

/// After a syntax error: the rest of the line is dropped, so that the next
/// statement can be found. When the offending token already ends the line,
/// nothing is skipped.
pub open spec fn spec_resync(s: Seq<char>, pos: int, cur: SpecToken) -> (SpecToken, int) {
    if cur.kind == TokenKind::Newline || cur.kind == TokenKind::Eof {
        (cur, pos)
    } else {
        spec_skip_comment(s, pos)
    }
}

/// What parsing one numeric argument produces: the argument (or nothing,
/// when the line had to be dropped), and the parser's new lookahead state.
pub ghost struct NumArgOut {
    pub arg: Option<SpecArg<u16>>,
    pub pos: int,
    pub cur: SpecToken,
    pub diags: Seq<SpecParsingError>,
}

/// The kinds of token that may start a numeric argument.
pub open spec fn num_expected() -> Seq<TokenKind> {
    seq![TokenKind::Number, TokenKind::Plus, TokenKind::Minus, TokenKind::Hash]
}

/// Parsing one numeric argument: `['#'] ['+'|'-'] number`. A bare number is
/// indirect; `#` makes it immediate; a sign is applied by two's complement
/// at the target width (8 bits when `wide` is false, 16 when true). A
/// literal error is recorded and `0xFF` substituted; an out-of-place token
/// is recorded and the rest of the line dropped.
pub open spec fn spec_num_arg(
    s: Seq<char>,
    pos: int,
    cur: SpecToken,
    diags: Seq<SpecParsingError>,
    wide: bool,
) -> NumArgOut
    decreases s.len() - cur.pos.start,
    when tok_wf(s, cur, pos) && cur.kind != TokenKind::Eof && cur.kind != TokenKind::Newline
        && s.len() <= u32::MAX
{
    if cur.kind == TokenKind::Number {
        let bound: u16 = if wide {
            0xFFFF
        } else {
            0xFF
        };
        let v = match spec_parse_number(cur.lit, cur.pos, bound, false) {
            Ok(v) => v,
            Err(e) => 0xFF,
        };
        let d2 = match spec_parse_number(cur.lit, cur.pos, bound, false) {
            Ok(v) => diags,
            Err(e) => diags.push(e),
        };
        let rd = spec_read(s, pos, d2);
        NumArgOut {
            arg: Some(SpecArg { kind: SpecArgKind::IndirectNumber(v), span: cur.pos }),
            pos: rd.next,
            cur: rd.tok,
            diags: rd.diags,
        }
    } else if cur.kind == TokenKind::Plus || cur.kind == TokenKind::Minus {
        let neg = cur.kind == TokenKind::Minus;
        let rd = spec_read(s, pos, diags);
        if rd.tok.kind == TokenKind::Number {
            let jspan = spec_join(cur.pos, rd.tok.pos);
            let bound: u16 = if neg {
                if wide {
                    0x8000
                } else {
                    0x80
                }
            } else {
                if wide {
                    0x7FFF
                } else {
                    0x7F
                }
            };
            let modulus: int = if wide {
                0x10000
            } else {
                0x100
            };
            let v = match spec_parse_number(rd.tok.lit, jspan, bound, neg) {
                Ok(m) => if neg {
                    spec_negate(m, modulus)
                } else {
                    m
                },
                Err(e) => 0xFF,
            };
            let d2 = match spec_parse_number(rd.tok.lit, jspan, bound, neg) {
                Ok(m) => rd.diags,
                Err(e) => rd.diags.push(e),
            };
            let rd2 = spec_read(s, rd.next, d2);
            NumArgOut {
                arg: Some(SpecArg { kind: SpecArgKind::IndirectNumber(v), span: jspan }),
                pos: rd2.next,
                cur: rd2.tok,
                diags: rd2.diags,
            }
        } else {
            let d2 = rd.diags.push(
                SpecParsingError::Unexpected {
                    expected: seq![TokenKind::Number],
                    found: rd.tok.kind,
                    span: rd.tok.pos,
                },
            );
            let (t, n) = spec_resync(s, rd.next, rd.tok);
            NumArgOut { arg: None, pos: n, cur: t, diags: d2 }
        }
    } else if cur.kind == TokenKind::Hash {
        let rd = spec_read(s, pos, diags);
        if rd.tok.kind == TokenKind::Eof || rd.tok.kind == TokenKind::Newline {
            let d2 = rd.diags.push(
                SpecParsingError::Unexpected {
                    expected: num_expected(),
                    found: rd.tok.kind,
                    span: rd.tok.pos,
                },
            );
            NumArgOut { arg: None, pos: rd.next, cur: rd.tok, diags: d2 }
        } else {
            let inner = {
                proof {
                    lemma_read(s, pos, diags);
                }
                spec_num_arg(s, rd.next, rd.tok, rd.diags, wide)
            };
            match inner.arg {
                Some(a) => {
                    let v = match a.kind {
                        SpecArgKind::ImmediateNumber(v) => v,
                        SpecArgKind::IndirectNumber(v) => v,
                        SpecArgKind::Label(_) => 0,
                    };
                    NumArgOut {
                        arg: Some(
                            SpecArg {
                                kind: SpecArgKind::ImmediateNumber(v),
                                span: spec_join(cur.pos, a.span),
                            },
                        ),
                        pos: inner.pos,
                        cur: inner.cur,
                        diags: inner.diags,
                    }
                },
                None => inner,
            }
        }
    } else {
        let d2 = diags.push(
            SpecParsingError::Unexpected {
                expected: num_expected(),
                found: cur.kind,
                span: cur.pos,
            },
        );
        let (t, n) = spec_resync(s, pos, cur);
        NumArgOut { arg: None, pos: n, cur: t, diags: d2 }
    }
}

/// Parsing a numeric argument always advances, lands on a well-formed
/// token, ends the line when it produced no argument, and at 8-bit width
/// only produces values that fit a byte.
pub proof fn lemma_num_arg(
    s: Seq<char>,
    pos: int,
    cur: SpecToken,
    diags: Seq<SpecParsingError>,
    wide: bool,
)
    requires
        tok_wf(s, cur, pos),
        cur.kind != TokenKind::Eof,
        cur.kind != TokenKind::Newline,
        s.len() <= u32::MAX,
    ensures
        ({
            let o = spec_num_arg(s, pos, cur, diags, wide);
            &&& tok_wf(s, o.cur, o.pos)
            &&& o.cur.pos.start > cur.pos.start
            &&& (o.arg is None ==> o.cur.kind == TokenKind::Newline || o.cur.kind
                == TokenKind::Eof)
            &&& (o.arg is Some ==> match o.arg->Some_0.kind {
                SpecArgKind::ImmediateNumber(v) => !wide ==> v <= 0xFF,
                SpecArgKind::IndirectNumber(v) => !wide ==> v <= 0xFF,
                SpecArgKind::Label(_) => false,
            })
        }),
    decreases s.len() - cur.pos.start,
{
    if cur.kind == TokenKind::Number {
        crate::values::lemma_digits_val_nonneg(
            crate::values::lit_digits(cur.lit),
            crate::values::lit_radix(cur.lit),
        );
        lemma_read(
            s,
            pos,
            match spec_parse_number(cur.lit, cur.pos, if wide { 0xFFFFu16 } else { 0xFFu16 }, false) {
                Ok(v) => diags,
                Err(e) => diags.push(e),
            },
        );
    } else if cur.kind == TokenKind::Plus || cur.kind == TokenKind::Minus {
        lemma_read(s, pos, diags);
        let rd = spec_read(s, pos, diags);
        if rd.tok.kind == TokenKind::Number {
            let neg = cur.kind == TokenKind::Minus;
            let jspan = spec_join(cur.pos, rd.tok.pos);
            let bound: u16 = if neg {
                if wide {
                    0x8000
                } else {
                    0x80
                }
            } else {
                if wide {
                    0x7FFF
                } else {
                    0x7F
                }
            };
            crate::values::lemma_digits_val_nonneg(
                crate::values::lit_digits(rd.tok.lit),
                crate::values::lit_radix(rd.tok.lit),
            );
            let d2 = match spec_parse_number(rd.tok.lit, jspan, bound, neg) {
                Ok(m) => rd.diags,
                Err(e) => rd.diags.push(e),
            };
            lemma_read(s, rd.next, d2);
        } else {
            lemma_skip_comment(s, rd.next);
        }
    } else if cur.kind == TokenKind::Hash {
        lemma_read(s, pos, diags);
        let rd = spec_read(s, pos, diags);
        if rd.tok.kind == TokenKind::Eof || rd.tok.kind == TokenKind::Newline {
        } else {
            lemma_num_arg(s, rd.next, rd.tok, rd.diags, wide);
        }
    } else {
        lemma_skip_comment(s, pos);
    }
}

/// What parsing an argument list produces: the arguments, the span of the
/// whole statement so far, and the parser's new lookahead state, standing on
/// the newline or end of input that closed the list.
pub ghost struct ArgsOut {
    pub args: Seq<SpecArg<u16>>,
    pub jspan: Position,
    pub pos: int,
    pub cur: SpecToken,
    pub diags: Seq<SpecParsingError>,
}

/// Parsing arguments until the end of the line: identifiers become label
/// references, everything else is tried as a numeric argument, and a
/// comment closes the list.
pub open spec fn spec_args(
    s: Seq<char>,
    pos: int,
    cur: SpecToken,
    jspan: Position,
    diags: Seq<SpecParsingError>,
    wide: bool,
) -> ArgsOut
    decreases s.len() - cur.pos.start,
    when tok_wf(s, cur, pos) && s.len() <= u32::MAX
{
    if cur.kind == TokenKind::Newline || cur.kind == TokenKind::Eof {
        ArgsOut { args: Seq::empty(), jspan, pos, cur, diags }
    } else if cur.kind == TokenKind::Semicolon {
        let (t, n) = spec_skip_comment(s, pos);
        ArgsOut { args: Seq::empty(), jspan, pos: n, cur: t, diags }
    } else if cur.kind == TokenKind::Ident {
        let arg = SpecArg { kind: SpecArgKind::<u16>::Label(cur.lit), span: cur.pos };
        let rd = spec_read(s, pos, diags);
        let rest = {
            proof {
                lemma_read(s, pos, diags);
            }
            spec_args(s, rd.next, rd.tok, spec_join(jspan, cur.pos), rd.diags, wide)
        };
        ArgsOut {
            args: seq![arg] + rest.args,
            jspan: rest.jspan,
            pos: rest.pos,
            cur: rest.cur,
            diags: rest.diags,
        }
    } else {
        let no = spec_num_arg(s, pos, cur, diags, wide);
        match no.arg {
            Some(a) => {
                let rest = {
                    proof {
                        lemma_num_arg(s, pos, cur, diags, wide);
                    }
                    spec_args(s, no.pos, no.cur, spec_join(jspan, a.span), no.diags, wide)
                };
                ArgsOut {
                    args: seq![a] + rest.args,
                    jspan: rest.jspan,
                    pos: rest.pos,
                    cur: rest.cur,
                    diags: rest.diags,
                }
            },
            None => {
                proof {
                    lemma_num_arg(s, pos, cur, diags, wide);
                }
                ArgsOut { args: Seq::empty(), jspan, pos: no.pos, cur: no.cur, diags: no.diags }
            },
        }
    }
}

/// An argument list always ends on the newline or end-of-input token that
/// closed it, never moves backwards, and at 8-bit width only holds label
/// references and values that fit a byte.
pub proof fn lemma_args(
    s: Seq<char>,
    pos: int,
    cur: SpecToken,
    jspan: Position,
    diags: Seq<SpecParsingError>,
    wide: bool,
)
    requires
        tok_wf(s, cur, pos),
        s.len() <= u32::MAX,
    ensures
        ({
            let o = spec_args(s, pos, cur, jspan, diags, wide);
            &&& tok_wf(s, o.cur, o.pos)
            &&& o.cur.pos.start >= cur.pos.start
            &&& (o.cur.kind == TokenKind::Newline || o.cur.kind == TokenKind::Eof)
            &&& (!wide ==> forall|k: int|
                0 <= k < o.args.len() ==> match (#[trigger] o.args[k]).kind {
                    SpecArgKind::ImmediateNumber(v) => v <= 0xFF,
                    SpecArgKind::IndirectNumber(v) => v <= 0xFF,
                    SpecArgKind::Label(_) => true,
                })
        }),
    decreases s.len() - cur.pos.start,
{
    if cur.kind == TokenKind::Newline || cur.kind == TokenKind::Eof {
    } else if cur.kind == TokenKind::Semicolon {
        lemma_skip_comment(s, pos);
    } else if cur.kind == TokenKind::Ident {
        lemma_read(s, pos, diags);
        let rd = spec_read(s, pos, diags);
        lemma_args(s, rd.next, rd.tok, spec_join(jspan, cur.pos), rd.diags, wide);
    } else {
        lemma_num_arg(s, pos, cur, diags, wide);
        let no = spec_num_arg(s, pos, cur, diags, wide);
        match no.arg {
            Some(a) => {
                lemma_args(s, no.pos, no.cur, spec_join(jspan, a.span), no.diags, wide);
            },
            None => {},
        }
    }
}

/// Case-insensitive match of a keyword literal against `.byte`.
pub open spec fn is_byte_kw(l: Seq<char>) -> bool {
    l.len() == 5 && l[0] == '.' && (l[1] == 'b' || l[1] == 'B') && (l[2] == 'y' || l[2] == 'Y') && (
    l[3] == 't' || l[3] == 'T') && (l[4] == 'e' || l[4] == 'E')
}

/// Case-insensitive match of a keyword literal against `.org`.
pub open spec fn is_org_kw(l: Seq<char>) -> bool {
    l.len() == 4 && l[0] == '.' && (l[1] == 'o' || l[1] == 'O') && (l[2] == 'r' || l[2] == 'R') && (
    l[3] == 'g' || l[3] == 'G')
}

/// Narrows 16-bit arguments to the 8-bit width of opcode arguments. Only
/// applied to argument lists parsed at 8-bit width, whose values all fit.
pub open spec fn demote_args(args: Seq<SpecArg<u16>>) -> Seq<SpecArg<u8>> {
    args.map_values(
        |a: SpecArg<u16>|
            SpecArg {
                kind: match a.kind {
                    SpecArgKind::ImmediateNumber(v) => SpecArgKind::<u8>::ImmediateNumber(
                        v as u8,
                    ),
                    SpecArgKind::IndirectNumber(v) => SpecArgKind::<u8>::IndirectNumber(v as u8),
                    SpecArgKind::Label(l) => SpecArgKind::<u8>::Label(l),
                },
                span: a.span,
            },
    )
}

/// The token kinds that may start a statement.
pub open spec fn stmt_expected() -> Seq<TokenKind> {
    seq![TokenKind::Ident, TokenKind::Keyword, TokenKind::Newline, TokenKind::Semicolon]
}

/// The parser's whole state between statements: the scanner position, the
/// lookahead token, everything built so far, the running output offset, and
/// the diagnostics collected so far.
pub ghost struct PState {
    pub pos: int,
    pub cur: SpecToken,
    pub instrs: Seq<SpecInstruction>,
    pub syms: SpecSymbols,
    pub loc: u16,
    pub diags: Seq<SpecParsingError>,
}

/// The parser state's internal consistency.
pub open spec fn pst_wf(s: Seq<char>, st: PState) -> bool {
    &&& tok_wf(s, st.cur, st.pos)
    &&& s.len() <= u32::MAX
}

/// What a parse produces: the statement list, the symbol table, and every
/// diagnostic, in order.
pub ghost struct ParseOut {
    pub instrs: Seq<SpecInstruction>,
    pub syms: SpecSymbols,
    pub diags: Seq<SpecParsingError>,
}

/// The top-level parsing loop, one statement at a time. Newlines and
/// comments are skipped; an identifier begins a label (when a colon
/// follows) or an opcode statement; a keyword token begins a directive; any
/// other leading token is a syntax error that costs its line. Labels record
/// the current offset in the symbol table; every other statement advances
/// the offset by its byte length, and `.org` moves it to its argument, so a
/// label's offset is known before any label value is resolved.
pub open spec fn spec_parse_from(s: Seq<char>, st: PState) -> ParseOut
    decreases s.len() - st.cur.pos.start,
    when pst_wf(s, st)
{
    if st.cur.kind == TokenKind::Eof {
        ParseOut { instrs: st.instrs, syms: st.syms, diags: st.diags }
    } else if st.cur.kind == TokenKind::Newline {
        let rd = spec_read(s, st.pos, st.diags);
        proof {
            lemma_read(s, st.pos, st.diags);
        }
        spec_parse_from(s, PState { pos: rd.next, cur: rd.tok, diags: rd.diags, ..st })
    } else if st.cur.kind == TokenKind::Semicolon {
        let (t, n) = spec_skip_comment(s, st.pos);
        proof {
            lemma_skip_comment(s, st.pos);
        }
        spec_parse_from(s, PState { pos: n, cur: t, ..st })
    } else if st.cur.kind == TokenKind::Ident {
        let rd = spec_read(s, st.pos, st.diags);
        if rd.tok.kind == TokenKind::Colon {
            let instr = SpecInstruction {
                kind: SpecInstructionKind::Label(st.cur.lit),
                instruction_span: spec_join(st.cur.pos, rd.tok.pos),
                token_span: st.cur.pos,
            };
            let rd2 = spec_read(s, rd.next, rd.diags);
            proof {
                lemma_read(s, st.pos, st.diags);
                lemma_read(s, rd.next, rd.diags);
            }
            spec_parse_from(
                s,
                PState {
                    pos: rd2.next,
                    cur: rd2.tok,
                    instrs: st.instrs.push(instr),
                    syms: st.syms.push((st.cur.lit, st.loc)),
                    loc: st.loc,
                    diags: rd2.diags,
                },
            )
        } else {
            let ao = {
                proof {
                    lemma_read(s, st.pos, st.diags);
                }
                spec_args(s, rd.next, rd.tok, st.cur.pos, rd.diags, false)
            };
            let instr = SpecInstruction {
                kind: SpecInstructionKind::Opcode {
                    mnemonic: st.cur.lit,
                    arguments: demote_args(ao.args),
                },
                instruction_span: ao.jspan,
                token_span: st.cur.pos,
            };
            proof {
                lemma_read(s, st.pos, st.diags);
                lemma_args(s, rd.next, rd.tok, st.cur.pos, rd.diags, false);
            }
            spec_parse_from(
                s,
                PState {
                    pos: ao.pos,
                    cur: ao.cur,
                    instrs: st.instrs.push(instr),
                    syms: st.syms,
                    loc: sat_add16(st.loc, spec_binary_len(instr.kind)),
                    diags: ao.diags,
                },
            )
        }
    } else if st.cur.kind == TokenKind::Keyword {
        let rd = spec_read(s, st.pos, st.diags);
        let ao = {
            proof {
                lemma_read(s, st.pos, st.diags);
            }
            spec_args(s, rd.next, rd.tok, st.cur.pos, rd.diags, true)
        };
        proof {
            lemma_read(s, st.pos, st.diags);
            lemma_args(s, rd.next, rd.tok, st.cur.pos, rd.diags, true);
        }
        if is_byte_kw(st.cur.lit) {
            let instr = SpecInstruction {
                kind: SpecInstructionKind::Keyword {
                    keyword: Keyword::Byte,
                    arguments: ao.args,
                },
                instruction_span: ao.jspan,
                token_span: st.cur.pos,
            };
            spec_parse_from(
                s,
                PState {
                    pos: ao.pos,
                    cur: ao.cur,
                    instrs: st.instrs.push(instr),
                    syms: st.syms,
                    loc: sat_add16(st.loc, spec_binary_len(instr.kind)),
                    diags: ao.diags,
                },
            )
        } else if is_org_kw(st.cur.lit) {
            let instr = SpecInstruction {
                kind: SpecInstructionKind::Keyword { keyword: Keyword::Org, arguments: ao.args },
                instruction_span: ao.jspan,
                token_span: st.cur.pos,
            };
            let loc2 = if ao.args.len() >= 1 {
                match ao.args[0].kind {
                    SpecArgKind::ImmediateNumber(v) => v,
                    SpecArgKind::IndirectNumber(v) => v,
                    SpecArgKind::Label(_) => st.loc,
                }
            } else {
                st.loc
            };
            spec_parse_from(
                s,
                PState {
                    pos: ao.pos,
                    cur: ao.cur,
                    instrs: st.instrs.push(instr),
                    syms: st.syms,
                    loc: loc2,
                    diags: ao.diags,
                },
            )
        } else {
            let d2 = ao.diags.push(
                SpecParsingError::KeywordDNE { mnemonic: st.cur.lit, span: st.cur.pos },
            );
            spec_parse_from(s, PState { pos: ao.pos, cur: ao.cur, diags: d2, ..st })
        }
    } else {
        let d2 = st.diags.push(
            SpecParsingError::Unexpected {
                expected: stmt_expected(),
                found: st.cur.kind,
                span: st.cur.pos,
            },
        );
        let (t, n) = spec_resync(s, st.pos, st.cur);
        proof {
            lemma_skip_comment(s, st.pos);
        }
        spec_parse_from(s, PState { pos: n, cur: t, diags: d2, ..st })
    }
}

/// The parser's initial state: standing on the first token, with any
/// unknown characters before it already recorded.
pub open spec fn spec_init_state(s: Seq<char>) -> PState {
    let rd = spec_read(s, 0, Seq::empty());
    PState {
        pos: rd.next,
        cur: rd.tok,
        instrs: Seq::empty(),
        syms: Seq::empty(),
        loc: 0,
        diags: rd.diags,
    }
}

/// The whole parse of a source text: what [`Parser::parse`] returns.
pub open spec fn spec_parse(s: Seq<char>) -> ParseOut {
    spec_parse_from(s, spec_init_state(s))
}


/// The views of a list of collected diagnostics.
pub open spec fn perr_views(v: Seq<ParsingError>) -> Seq<SpecParsingError> {
    v.map_values(|e: ParsingError| e@)
}

/// The views of a list of collected arguments.
pub open spec fn arg_views(v: Seq<Argument<u16>>) -> Seq<SpecArg<u16>> {
    v.map_values(|a: Argument<u16>| a@)
}

/// An argument-list result with `pre` prepended to its arguments: what the
/// collecting loop has already built, followed by what remains.
pub open spec fn args_prepend(pre: Seq<SpecArg<u16>>, o: ArgsOut) -> ArgsOut {
    ArgsOut { args: pre + o.args, jspan: o.jspan, pos: o.pos, cur: o.cur, diags: o.diags }
}

/// The parser: consumes the scanner's tokens with one-token lookahead and
/// builds the statement list, the symbol table and the diagnostic list in a
/// single pass over the source.
pub struct Parser {
    /// The scanner over the source code.
    lexer: Lexer,

    /// The statement list and symbol table being built.
    ast: Ast,

    /// The output offset of the next statement.
    next_mem_location: u16,

    /// The lookahead token.
    current_token: Token,
}

impl Parser {
    /// A freshly constructed parser: the scanner stands at the start and
    /// nothing has been built yet.
    pub closed spec fn fresh(&self) -> bool {
        &&& self.lexer.wf()
        &&& self.lexer.at() == 0
        &&& self.ast@.instructions.len() == 0
        &&& self.ast@.symbols.len() == 0
        &&& self.next_mem_location == 0
    }

    /// The source text this parser reads.
    pub closed spec fn src(&self) -> Seq<char> {
        self.lexer.src_view()
    }

    /// The parser's state as the specification sees it.
    spec fn st(&self, diags: Seq<SpecParsingError>) -> PState {
        PState {
            pos: self.lexer.at(),
            cur: self.current_token@,
            instrs: self.ast@.instructions,
            syms: self.ast@.symbols,
            loc: self.next_mem_location,
            diags,
        }
    }

    /// Create a new parser over some source code.
    pub fn new(source: &str) -> (r: Result<Parser, ParsingError>)
        requires
            source@.len() <= u32::MAX,
        ensures
            r is Ok,
            r->Ok_0.fresh(),
            r->Ok_0.src() == source@,
    {
        Ok(
            Parser {
                lexer: Lexer::new(source),
                ast: Ast::empty(),
                next_mem_location: 0,
                current_token: Token::new(
                    TokenKind::Eof,
                    Position::new(0, 0),
                    String::new(),
                ),
            },
        )
    }

    /// Reads the next token into the lookahead, recording every unknown
    /// character it has to skip.
    fn advance(&mut self, diags: &mut Vec<ParsingError>)
        requires
            old(self).lexer.wf(),
        ensures
            final(self).lexer.wf(),
            final(self).lexer.src_view() == old(self).lexer.src_view(),
            final(self).ast@ == old(self).ast@,
            final(self).next_mem_location == old(self).next_mem_location,
            ({
                let rd = spec_read(
                    old(self).lexer.src_view(),
                    old(self).lexer.at(),
                    perr_views(old(diags)@),
                );
                &&& final(self).current_token@ == rd.tok
                &&& final(self).lexer.at() == rd.next
                &&& perr_views(final(diags)@) == rd.diags
            }),
    {
        loop
            invariant
                self.lexer.wf(),
                self.lexer.src_view() == old(self).lexer.src_view(),
                self.ast@ == old(self).ast@,
                self.next_mem_location == old(self).next_mem_location,
                spec_read(
                    old(self).lexer.src_view(),
                    old(self).lexer.at(),
                    perr_views(old(diags)@),
                ) == spec_read(self.lexer.src_view(), self.lexer.at(), perr_views(diags@)),
            decreases self.lexer.src_view().len() - self.lexer.at(),
        {
            proof {
                self.lexer.wf_bounds();
                crate::lexer::lemma_token_at(self.lexer.src_view(), self.lexer.at());
            }
            let ghost pre_d = perr_views(diags@);
            match self.lexer.next_token() {
                Ok(t) => {
                    self.current_token = t;
                    return ;
                },
                Err(e) => {
                    let ghost ev = e@;
                    diags.push(e);
                    proof {
                        assert(perr_views(diags@) =~= pre_d.push(ev));
                    }
                },
            }
        }
    }

    /// Consumes a comment (or the rest of a bad line): tokens and unknown
    /// characters are discarded until a newline or the end of input, which
    /// becomes the lookahead.
    fn skip_comment(&mut self)
        requires
            old(self).lexer.wf(),
        ensures
            final(self).lexer.wf(),
            final(self).lexer.src_view() == old(self).lexer.src_view(),
            final(self).ast@ == old(self).ast@,
            final(self).next_mem_location == old(self).next_mem_location,
            final(self).current_token@ == spec_skip_comment(
                old(self).lexer.src_view(),
                old(self).lexer.at(),
            ).0,
            final(self).lexer.at() == spec_skip_comment(
                old(self).lexer.src_view(),
                old(self).lexer.at(),
            ).1,
    {
        loop
            invariant
                self.lexer.wf(),
                self.lexer.src_view() == old(self).lexer.src_view(),
                self.ast@ == old(self).ast@,
                self.next_mem_location == old(self).next_mem_location,
                spec_skip_comment(old(self).lexer.src_view(), old(self).lexer.at())
                    == spec_skip_comment(self.lexer.src_view(), self.lexer.at()),
            decreases self.lexer.src_view().len() - self.lexer.at(),
        {
            proof {
                self.lexer.wf_bounds();
                crate::lexer::lemma_token_at(self.lexer.src_view(), self.lexer.at());
            }
            match self.lexer.next_token() {
                Ok(t) => {
                    if t.kind == TokenKind::Newline || t.kind == TokenKind::Eof {
                        self.current_token = t;
                        return ;
                    }
                },
                Err(e) => {},
            }
        }
    }

    /// Drops the rest of the line after a syntax error, unless the
    /// lookahead already ends it.
    fn resync(&mut self)
        requires
            old(self).lexer.wf(),
        ensures
            final(self).lexer.wf(),
            final(self).lexer.src_view() == old(self).lexer.src_view(),
            final(self).ast@ == old(self).ast@,
            final(self).next_mem_location == old(self).next_mem_location,
            final(self).current_token@ == spec_resync(
                old(self).lexer.src_view(),
                old(self).lexer.at(),
                old(self).current_token@,
            ).0,
            final(self).lexer.at() == spec_resync(
                old(self).lexer.src_view(),
                old(self).lexer.at(),
                old(self).current_token@,
            ).1,
    {
        if self.current_token.kind == TokenKind::Newline || self.current_token.kind
            == TokenKind::Eof {
            return ;
        }
        self.skip_comment();
    }

    /// Parses one numeric argument: `['#'] ['+'|'-'] number`.
    fn parse_numeric_argument(&mut self, wide: bool, diags: &mut Vec<ParsingError>) -> (r: Option<
        Argument<u16>,
    >)
        requires
            old(self).lexer.wf(),
            tok_wf(old(self).lexer.src_view(), old(self).current_token@, old(self).lexer.at()),
            old(self).current_token@.kind != TokenKind::Eof,
            old(self).current_token@.kind != TokenKind::Newline,
        ensures
            final(self).lexer.wf(),
            final(self).lexer.src_view() == old(self).lexer.src_view(),
            final(self).ast@ == old(self).ast@,
            final(self).next_mem_location == old(self).next_mem_location,
            ({
                let o = spec_num_arg(
                    old(self).lexer.src_view(),
                    old(self).lexer.at(),
                    old(self).current_token@,
                    perr_views(old(diags)@),
                    wide,
                );
                &&& final(self).lexer.at() == o.pos
                &&& final(self).current_token@ == o.cur
                &&& perr_views(final(diags)@) == o.diags
                &&& match (r, o.arg) {
                    (Some(a), Some(sa)) => a@ == sa,
                    (None, None) => true,
                    _ => false,
                }
            }),
        decreases old(self).lexer.src_view().len() - old(self).current_token@.pos.start,
    {
        let ghost s = self.lexer.src_view();
        let ghost d0 = perr_views(diags@);
        proof {
            self.lexer.wf_bounds();
        }
        let kind = self.current_token.kind;
        if kind == TokenKind::Number {
            let tok = self.current_token.duplicate();
            let bound: u16 = if wide {
                0xFFFF
            } else {
                0xFF
            };
            let pr = crate::values::parse_number(tok.literal.as_str(), tok.position, bound, false);
            let v: u16 = match pr {
                Ok(v) => v,
                Err(e) => {
                    let ghost ev = e@;
                    diags.push(e);
                    proof {
                        assert(perr_views(diags@) =~= d0.push(ev));
                    }
                    0xFF
                },
            };
            self.advance(diags);
            Some(Argument { kind: ArgumentKind::IndirectNumber(v), span: tok.position })
        } else if kind == TokenKind::Plus || kind == TokenKind::Minus {
            let sign_pos = self.current_token.position;
            let neg = kind == TokenKind::Minus;
            self.advance(diags);
            proof {
                lemma_read(s, old(self).lexer.at(), d0);
            }
            if self.current_token.kind == TokenKind::Number {
                let tok = self.current_token.duplicate();
                let jspan = sign_pos.join(&tok.position);
                let bound: u16 = if neg {
                    if wide {
                        0x8000
                    } else {
                        0x80
                    }
                } else {
                    if wide {
                        0x7FFF
                    } else {
                        0x7F
                    }
                };
                let ghost d1 = perr_views(diags@);
                let pr = crate::values::parse_number(tok.literal.as_str(), jspan, bound, neg);
                let v: u16 = match pr {
                    Ok(m) => if neg {
                        crate::values::negate_magnitude(m, wide)
                    } else {
                        m
                    },
                    Err(e) => {
                        let ghost ev = e@;
                        diags.push(e);
                        proof {
                            assert(perr_views(diags@) =~= d1.push(ev));
                        }
                        0xFF
                    },
                };
                self.advance(diags);
                Some(Argument { kind: ArgumentKind::IndirectNumber(v), span: jspan })
            } else {
                let found = self.current_token.kind;
                let span = self.current_token.position;
                let ghost d1 = perr_views(diags@);
                let expected: Vec<TokenKind> = vec![TokenKind::Number];
                proof {
                    assert(expected@ =~= seq![TokenKind::Number]);
                }
                diags.push(ParsingError::Unexpected { expected, found, span });
                proof {
                    assert(perr_views(diags@) =~= d1.push(
                        SpecParsingError::Unexpected {
                            expected: seq![TokenKind::Number],
                            found,
                            span,
                        },
                    ));
                }
                self.resync();
                None
            }
        } else if kind == TokenKind::Hash {
            let hash_pos = self.current_token.position;
            self.advance(diags);
            proof {
                lemma_read(s, old(self).lexer.at(), d0);
            }
            if self.current_token.kind == TokenKind::Eof || self.current_token.kind
                == TokenKind::Newline {
                let found = self.current_token.kind;
                let span = self.current_token.position;
                let ghost d1 = perr_views(diags@);
                let expected: Vec<TokenKind> = vec![
                    TokenKind::Number,
                    TokenKind::Plus,
                    TokenKind::Minus,
                    TokenKind::Hash,
                ];
                proof {
                    assert(expected@ =~= num_expected());
                }
                diags.push(ParsingError::Unexpected { expected, found, span });
                proof {
                    assert(perr_views(diags@) =~= d1.push(
                        SpecParsingError::Unexpected { expected: num_expected(), found, span },
                    ));
                }
                None
            } else {
                match self.parse_numeric_argument(wide, diags) {
                    Some(arg) => {
                        let sp = arg.span;
                        let v: u16 = match arg.kind {
                            ArgumentKind::ImmediateNumber(v) => v,
                            ArgumentKind::IndirectNumber(v) => v,
                            ArgumentKind::Label(_) => 0,
                        };
                        Some(
                            Argument {
                                kind: ArgumentKind::ImmediateNumber(v),
                                span: hash_pos.join(&sp),
                            },
                        )
                    },
                    None => None,
                }
            }
        } else {
            let found = kind;
            let span = self.current_token.position;
            let expected: Vec<TokenKind> = vec![
                TokenKind::Number,
                TokenKind::Plus,
                TokenKind::Minus,
                TokenKind::Hash,
            ];
            proof {
                assert(expected@ =~= num_expected());
            }
            diags.push(ParsingError::Unexpected { expected, found, span });
            proof {
                assert(perr_views(diags@) =~= d0.push(
                    SpecParsingError::Unexpected { expected: num_expected(), found, span },
                ));
            }
            self.resync();
            None
        }
    }

    /// Parses arguments until the end of the line, joining each one's span
    /// into `jspan` so the caller knows the whole statement's extent.
    fn parse_argument_list(
        &mut self,
        jspan: Position,
        wide: bool,
        diags: &mut Vec<ParsingError>,
    ) -> (r: (Vec<Argument<u16>>, Position))
        requires
            old(self).lexer.wf(),
            tok_wf(old(self).lexer.src_view(), old(self).current_token@, old(self).lexer.at()),
        ensures
            final(self).lexer.wf(),
            final(self).lexer.src_view() == old(self).lexer.src_view(),
            final(self).ast@ == old(self).ast@,
            final(self).next_mem_location == old(self).next_mem_location,
            ({
                let o = spec_args(
                    old(self).lexer.src_view(),
                    old(self).lexer.at(),
                    old(self).current_token@,
                    jspan,
                    perr_views(old(diags)@),
                    wide,
                );
                &&& arg_views(r.0@) == o.args
                &&& r.1 == o.jspan
                &&& final(self).lexer.at() == o.pos
                &&& final(self).current_token@ == o.cur
                &&& perr_views(final(diags)@) == o.diags
            }),
    {
        proof {
            old(self).lexer.wf_bounds();
        }
        let ghost s = self.lexer.src_view();
        let ghost o0 = spec_args(
            s,
            old(self).lexer.at(),
            old(self).current_token@,
            jspan,
            perr_views(old(diags)@),
            wide,
        );
        let mut args: Vec<Argument<u16>> = Vec::new();
        let mut jsp = jspan;
        proof {
            assert(arg_views(args@) =~= Seq::<SpecArg<u16>>::empty());
            assert(Seq::<SpecArg<u16>>::empty() + o0.args =~= o0.args);
        }
        loop
            invariant
                self.lexer.wf(),
                s == old(self).lexer.src_view(),
                o0 == spec_args(
                    s,
                    old(self).lexer.at(),
                    old(self).current_token@,
                    jspan,
                    perr_views(old(diags)@),
                    wide,
                ),
                self.lexer.src_view() == s,
                self.ast@ == old(self).ast@,
                self.next_mem_location == old(self).next_mem_location,
                tok_wf(s, self.current_token@, self.lexer.at()),
                o0 == args_prepend(
                    arg_views(args@),
                    spec_args(
                        s,
                        self.lexer.at(),
                        self.current_token@,
                        jsp,
                        perr_views(diags@),
                        wide,
                    ),
                ),
            decreases s.len() - self.current_token@.pos.start,
        {
            let ghost sti = (self.lexer.at(), self.current_token@, perr_views(diags@));
            proof {
                self.lexer.wf_bounds();
            }
            let k = self.current_token.kind;
            if k == TokenKind::Newline || k == TokenKind::Eof {
                proof {
                    assert(arg_views(args@) + Seq::<SpecArg<u16>>::empty() =~= arg_views(args@));
                }
                return (args, jsp);
            } else if k == TokenKind::Semicolon {
                proof {
                    lemma_skip_comment(s, self.lexer.at());
                }
                self.skip_comment();
            } else if k == TokenKind::Ident {
                let tok = self.current_token.duplicate();
                let ghost pre = arg_views(args@);
                let arg = Argument {
                    kind: ArgumentKind::<u16>::Label(tok.literal),
                    span: tok.position,
                };
                let ghost av = arg@;
                args.push(arg);
                jsp = jsp.join(&tok.position);
                self.advance(diags);
                proof {
                    lemma_read(s, sti.0, sti.2);
                    assert(arg_views(args@) =~= pre.push(av));
                    let rest = spec_args(
                        s,
                        self.lexer.at(),
                        self.current_token@,
                        jsp,
                        perr_views(diags@),
                        wide,
                    );
                    assert(pre + (seq![av] + rest.args) =~= pre.push(av) + rest.args);
                }
            } else {
                proof {
                    lemma_num_arg(s, sti.0, sti.1, sti.2, wide);
                }
                match self.parse_numeric_argument(wide, diags) {
                    Some(a) => {
                        let sp = a.span;
                        let ghost pre = arg_views(args@);
                        let ghost av = a@;
                        args.push(a);
                        jsp = jsp.join(&sp);
                        proof {
                            assert(arg_views(args@) =~= pre.push(av));
                            let rest = spec_args(
                                s,
                                self.lexer.at(),
                                self.current_token@,
                                jsp,
                                perr_views(diags@),
                                wide,
                            );
                            assert(pre + (seq![av] + rest.args) =~= pre.push(av) + rest.args);
                        }
                    },
                    None => {
                        proof {
                            assert(arg_views(args@) + Seq::<SpecArg<u16>>::empty() =~= arg_views(
                                args@,
                            ));
                        }
                        return (args, jsp);
                    },
                }
            }
        }
    }
}


impl Parser {
    /// Narrows an argument list parsed at 8-bit width into 8-bit arguments.
    fn demote_arguments(v: Vec<Argument<u16>>) -> (r: Vec<Argument<u8>>)
        requires
            forall|k: int|
                0 <= k < v@.len() ==> match (#[trigger] v@[k])@.kind {
                    SpecArgKind::ImmediateNumber(x) => x <= 0xFF,
                    SpecArgKind::IndirectNumber(x) => x <= 0xFF,
                    SpecArgKind::Label(_) => true,
                },
        ensures
            r@.map_values(|a: Argument<u8>| a@) == demote_args(arg_views(v@)),
    {
        let mut out: Vec<Argument<u8>> = Vec::new();
        let n = v.len();
        proof {
            assert(out@.map_values(|a: Argument<u8>| a@) =~= demote_args(arg_views(v@).take(0)));
        }
        let mut i: usize = 0;
        while i < n
            invariant
                i <= n,
                n == v@.len(),
                forall|k: int|
                    0 <= k < v@.len() ==> match (#[trigger] v@[k])@.kind {
                        SpecArgKind::ImmediateNumber(x) => x <= 0xFF,
                        SpecArgKind::IndirectNumber(x) => x <= 0xFF,
                        SpecArgKind::Label(_) => true,
                    },
                out@.map_values(|a: Argument<u8>| a@) == demote_args(arg_views(v@).take(i as int)),
            decreases n - i,
        {
            let ghost pre = out@.map_values(|a: Argument<u8>| a@);
            let span = v[i].span;
            let a8: Argument<u8> = match &v[i].kind {
                ArgumentKind::ImmediateNumber(x) => Argument {
                    kind: ArgumentKind::<u8>::ImmediateNumber(*x as u8),
                    span,
                },
                ArgumentKind::IndirectNumber(x) => Argument {
                    kind: ArgumentKind::<u8>::IndirectNumber(*x as u8),
                    span,
                },
                ArgumentKind::Label(l) => Argument {
                    kind: ArgumentKind::<u8>::Label(l.clone()),
                    span,
                },
            };
            let ghost a8v = a8@;
            out.push(a8);
            proof {
                assert(out@.map_values(|a: Argument<u8>| a@) =~= pre.push(a8v));
                assert(arg_views(v@).take(i + 1).drop_last() =~= arg_views(v@).take(i as int));
                assert(arg_views(v@).take(i + 1).last() == v@[i as int]@);
                assert(demote_args(arg_views(v@).take(i + 1)) =~= demote_args(
                    arg_views(v@).take(i as int),
                ).push(a8v));
            }
            i = i + 1;
        }
        proof {
            assert(arg_views(v@).take(n as int) =~= arg_views(v@));
        }
        out
    }

    /// Case-insensitive match against `.byte`.
    fn kw_is_byte(lit: &String) -> (b: bool)
        ensures
            b == is_byte_kw(lit@),
    {
        let st = lit.as_str();
        let n = st.unicode_len();
        if n != 5 {
            return false;
        }
        let c0 = st.get_char(0);
        let c1 = st.get_char(1);
        let c2 = st.get_char(2);
        let c3 = st.get_char(3);
        let c4 = st.get_char(4);
        c0 == '.' && (c1 == 'b' || c1 == 'B') && (c2 == 'y' || c2 == 'Y') && (c3 == 't' || c3
            == 'T') && (c4 == 'e' || c4 == 'E')
    }

    /// Case-insensitive match against `.org`.
    fn kw_is_org(lit: &String) -> (b: bool)
        ensures
            b == is_org_kw(lit@),
    {
        let st = lit.as_str();
        let n = st.unicode_len();
        if n != 4 {
            return false;
        }
        let c0 = st.get_char(0);
        let c1 = st.get_char(1);
        let c2 = st.get_char(2);
        let c3 = st.get_char(3);
        c0 == '.' && (c1 == 'o' || c1 == 'O') && (c2 == 'r' || c2 == 'R') && (c3 == 'g' || c3
            == 'G')
    }

    /// Parses the whole source: the statement list and symbol table when no
    /// diagnostic was found, or every diagnostic otherwise. The parse never
    /// stops at the first problem: a bad token costs at most the rest of its
    /// line, and parsing resumes at the next statement.
    pub fn parse(self) -> (r: Result<Ast, Vec<ParsingError>>)
        requires
            self.fresh(),
        ensures
            ({
                let po = spec_parse(self.src());
                match r {
                    Ok(ast) => {
                        &&& po.diags.len() == 0
                        &&& ast@.instructions == po.instrs
                        &&& ast@.symbols == po.syms
                    },
                    Err(ds) => {
                        &&& po.diags.len() > 0
                        &&& perr_views(ds@) == po.diags
                    },
                }
            }),
    {
        let ghost s = self.src();
        let mut me = self;
        let mut diags: Vec<ParsingError> = Vec::new();
        proof {
            me.lexer.wf_bounds();
            assert(perr_views(diags@) =~= Seq::<SpecParsingError>::empty());
        }
        me.advance(&mut diags);
        proof {
            lemma_read(s, 0, Seq::empty());
            assert(me.ast@.instructions =~= Seq::<SpecInstruction>::empty());
            assert(me.ast@.symbols =~= Seq::<(Seq<char>, u16)>::empty());
            assert(me.st(perr_views(diags@)) == spec_init_state(s));
        }
        loop
            invariant
                me.lexer.wf(),
                me.lexer.src_view() == s,
                s.len() <= u32::MAX,
                tok_wf(s, me.current_token@, me.lexer.at()),
                spec_parse_from(s, me.st(perr_views(diags@))) == spec_parse(s),
            ensures
                me.lexer.wf(),
                me.lexer.src_view() == s,
                s.len() <= u32::MAX,
                tok_wf(s, me.current_token@, me.lexer.at()),
                spec_parse_from(s, me.st(perr_views(diags@))) == spec_parse(s),
                me.current_token@.kind == TokenKind::Eof,
            decreases s.len() - me.current_token@.pos.start,
        {
            let ghost st0 = me.st(perr_views(diags@));
            proof {
                me.lexer.wf_bounds();
            }
            let k = me.current_token.kind;
            if k == TokenKind::Eof {
                break ;
            } else if k == TokenKind::Newline {
                proof {
                    lemma_read(s, me.lexer.at(), perr_views(diags@));
                }
                me.advance(&mut diags);
            } else if k == TokenKind::Semicolon {
                proof {
                    lemma_skip_comment(s, me.lexer.at());
                }
                me.skip_comment();
            } else if k == TokenKind::Ident {
                let ident_tok = me.current_token.duplicate();
                proof {
                    lemma_read(s, me.lexer.at(), perr_views(diags@));
                }
                me.advance(&mut diags);
                if me.current_token.kind == TokenKind::Colon {
                    let colon_pos = me.current_token.position;
                    let instr = Instruction::new(
                        InstructionKind::Label(ident_tok.literal.clone()),
                        ident_tok.position.join(&colon_pos),
                        ident_tok.position,
                    );
                    let ghost iv = instr@;
                    let ghost pre_instrs = me.ast@.instructions;
                    let ghost pre_syms = me.ast@.symbols;
                    me.ast.symbols.insert(ident_tok.literal, me.next_mem_location);
                    proof {
                        lemma_read(s, me.lexer.at(), perr_views(diags@));
                    }
                    me.advance(&mut diags);
                    me.ast.instructions.push(instr);
                    proof {
                        assert(me.ast@.instructions =~= pre_instrs.push(iv));
                    }
                } else {
                    let ghost st1 = me.st(perr_views(diags@));
                    proof {
                        lemma_args(
                            s,
                            st1.pos,
                            st1.cur,
                            ident_tok@.pos,
                            st1.diags,
                            false,
                        );
                    }
                    let (args16, jsp) = me.parse_argument_list(
                        ident_tok.position,
                        false,
                        &mut diags,
                    );
                    proof {
                        let o = spec_args(s, st1.pos, st1.cur, ident_tok@.pos, st1.diags, false);
                        assert forall|k: int| 0 <= k < args16@.len() implies match (
                        #[trigger] args16@[k])@.kind {
                            SpecArgKind::ImmediateNumber(x) => x <= 0xFF,
                            SpecArgKind::IndirectNumber(x) => x <= 0xFF,
                            SpecArgKind::Label(_) => true,
                        } by {
                            assert(args16@[k]@ == arg_views(args16@)[k]);
                            assert(arg_views(args16@)[k] == o.args[k]);
                        }
                    }
                    let args8 = Self::demote_arguments(args16);
                    let instr = Instruction::new(
                        InstructionKind::Opcode { mnemonic: ident_tok.literal, arguments: args8 },
                        jsp,
                        ident_tok.position,
                    );
                    let ghost iv = instr@;
                    let ghost pre_instrs = me.ast@.instructions;
                    let blen = instr.binary_len();
                    me.next_mem_location = crate::ast::sat_add16_exec(me.next_mem_location, blen);
                    me.ast.instructions.push(instr);
                    proof {
                        assert(me.ast@.instructions =~= pre_instrs.push(iv));
                    }
                }
            } else if k == TokenKind::Keyword {
                let kw_tok = me.current_token.duplicate();
                proof {
                    lemma_read(s, me.lexer.at(), perr_views(diags@));
                }
                me.advance(&mut diags);
                let ghost st1 = me.st(perr_views(diags@));
                proof {
                    lemma_args(s, st1.pos, st1.cur, kw_tok@.pos, st1.diags, true);
                }
                let (args16, jsp) = me.parse_argument_list(kw_tok.position, true, &mut diags);
                if Self::kw_is_byte(&kw_tok.literal) {
                    let instr = Instruction::new(
                        InstructionKind::Keyword { keyword: Keyword::Byte, arguments: args16 },
                        jsp,
                        kw_tok.position,
                    );
                    let ghost iv = instr@;
                    let ghost pre_instrs = me.ast@.instructions;
                    let blen = instr.binary_len();
                    me.next_mem_location = crate::ast::sat_add16_exec(me.next_mem_location, blen);
                    me.ast.instructions.push(instr);
                    proof {
                        assert(me.ast@.instructions =~= pre_instrs.push(iv));
                    }
                } else if Self::kw_is_org(&kw_tok.literal) {
                    if args16.len() >= 1 {
                        match &args16[0].kind {
                            ArgumentKind::ImmediateNumber(v) => {
                                me.next_mem_location = *v;
                            },
                            ArgumentKind::IndirectNumber(v) => {
                                me.next_mem_location = *v;
                            },
                            ArgumentKind::Label(_) => {},
                        }
                    }
                    let instr = Instruction::new(
                        InstructionKind::Keyword { keyword: Keyword::Org, arguments: args16 },
                        jsp,
                        kw_tok.position,
                    );
                    let ghost iv = instr@;
                    let ghost pre_instrs = me.ast@.instructions;
                    me.ast.instructions.push(instr);
                    proof {
                        assert(me.ast@.instructions =~= pre_instrs.push(iv));
                    }
                } else {
                    let ghost d1 = perr_views(diags@);
                    diags.push(
                        ParsingError::KeywordDNE {
                            mnemonic: kw_tok.literal,
                            span: kw_tok.position,
                        },
                    );
                    proof {
                        assert(perr_views(diags@) =~= d1.push(
                            SpecParsingError::KeywordDNE {
                                mnemonic: kw_tok@.lit,
                                span: kw_tok@.pos,
                            },
                        ));
                    }
                }
            } else {
                let found = k;
                let span = me.current_token.position;
                let ghost d1 = perr_views(diags@);
                let expected: Vec<TokenKind> = vec![
                    TokenKind::Ident,
                    TokenKind::Keyword,
                    TokenKind::Newline,
                    TokenKind::Semicolon,
                ];
                proof {
                    assert(expected@ =~= stmt_expected());
                }
                diags.push(ParsingError::Unexpected { expected, found, span });
                proof {
                    assert(perr_views(diags@) =~= d1.push(
                        SpecParsingError::Unexpected { expected: stmt_expected(), found, span },
                    ));
                    lemma_skip_comment(s, me.lexer.at());
                }
                me.resync();
            }
            proof {
                assert(spec_parse_from(s, st0) == spec_parse_from(s, me.st(perr_views(diags@))));
            }
        }
        proof {
            assert(spec_parse(s) == (ParseOut {
                instrs: me.ast@.instructions,
                syms: me.ast@.symbols,
                diags: perr_views(diags@),
            }));
        }
        if diags.len() == 0 {
            proof {
                assert(perr_views(diags@) =~= Seq::<SpecParsingError>::empty());
            }
            Ok(me.ast)
        } else {
            Err(diags)
        }
    }
}


} // verus!
