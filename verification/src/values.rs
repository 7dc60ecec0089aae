//! Numeric literal parsing: the text of a number token, prefix and all,
//! turned into its value at a given width, with width- and sign-aware
//! overflow detection across all four bases.

use vstd::prelude::*;

use crate::errors::{ParsingError, SpecParsingError};
use crate::lexer::{
    in_class, lemma_scan_end, scan_end, skip_ws_end, spec_token_at, CharClass, SpecLexRes,
};
use crate::position::Position;
use crate::token::TokenKind;

verus! {

/// The value of one digit character, in any base up to 16.
pub open spec fn digit_val(c: char) -> int {
    if '0' as u32 <= c as u32 && c as u32 <= '9' as u32 {
        c as u32 - '0' as u32
    } else if 'a' as u32 <= c as u32 && c as u32 <= 'f' as u32 {
        c as u32 - 'a' as u32 + 10
    } else if 'A' as u32 <= c as u32 && c as u32 <= 'F' as u32 {
        c as u32 - 'A' as u32 + 10
    } else {
        0
    }
}

/// The value of a digit string read in base `radix`.
pub open spec fn digits_val(ds: Seq<char>, radix: int) -> int
    decreases ds.len(),
{
    if ds.len() == 0 {
        0
    } else {
        digits_val(ds.drop_last(), radix) * radix + digit_val(ds.last())
    }
}

/// A digit string's value is never negative.
pub proof fn lemma_digits_val_nonneg(ds: Seq<char>, radix: int)
    requires
        radix >= 2,
    ensures
        digits_val(ds, radix) >= 0,
    decreases ds.len(),
{
    if ds.len() > 0 {
        lemma_digits_val_nonneg(ds.drop_last(), radix);
        assert(digits_val(ds.drop_last(), radix) * radix >= 0) by (nonlinear_arith)
            requires
                digits_val(ds.drop_last(), radix) >= 0,
                radix >= 2,
        ;
    }
}

/// The base a number literal is written in, derived from its first two
/// characters: `0x` or `0X` is hexadecimal, `0o`/`0O` octal, `0b`/`0B`
/// binary, anything else decimal.
pub open spec fn lit_radix(lit: Seq<char>) -> int {
    if lit.len() >= 2 && lit[0] == '0' && (lit[1] == 'x' || lit[1] == 'X') {
        16
    } else if lit.len() >= 2 && lit[0] == '0' && (lit[1] == 'o' || lit[1] == 'O') {
        8
    } else if lit.len() >= 2 && lit[0] == '0' && (lit[1] == 'b' || lit[1] == 'B') {
        2
    } else {
        10
    }
}

/// The digit characters of a number literal: everything after the base
/// prefix, or the whole literal for decimal.
pub open spec fn lit_digits(lit: Seq<char>) -> Seq<char> {
    if lit_radix(lit) == 10 {
        lit
    } else {
        lit.skip(2)
    }
}

/// The digit class of a base.
pub open spec fn radix_class(radix: int) -> CharClass {
    if radix == 16 {
        CharClass::Hex
    } else if radix == 8 {
        CharClass::Oct
    } else if radix == 2 {
        CharClass::Bin
    } else {
        CharClass::Dec
    }
}

/// What the scanner guarantees of every number token's text: each digit
/// belongs to the base the prefix announces.
pub open spec fn number_lit_wf(lit: Seq<char>) -> bool {
    forall|k: int|
        0 <= k < lit_digits(lit).len() ==> in_class(
            #[trigger] lit_digits(lit)[k],
            radix_class(lit_radix(lit)),
        )
}

/// A digit of a base's class has a value below the base.
pub proof fn lemma_digit_val_bound(c: char, radix: int)
    requires
        radix == 2 || radix == 8 || radix == 10 || radix == 16,
        in_class(c, radix_class(radix)),
    ensures
        0 <= digit_val(c) < radix,
{
}

/// The value of a number literal at width `bound`: empty digits are an
/// error; a magnitude above `bound` overflows (or underflows, when the
/// literal carried a minus sign); anything else is the magnitude itself.
pub open spec fn spec_parse_number(
    lit: Seq<char>,
    span: Position,
    bound: u16,
    neg: bool,
) -> Result<u16, SpecParsingError> {
    let ds = lit_digits(lit);
    let v = digits_val(ds, lit_radix(lit));
    if ds.len() == 0 {
        Err(SpecParsingError::EmptyLiteral { span })
    } else if v > bound {
        if neg {
            Err(SpecParsingError::Underflow { literal: lit, span })
        } else {
            Err(SpecParsingError::Overflow { literal: lit, span })
        }
    } else {
        Ok(v as u16)
    }
}

/// The value of one digit character; the executable mirror of
/// [`digit_val`].
fn digit_val_exec(c: char) -> (r: u32)
    ensures
        r == digit_val(c),
{
    let u = c as u32;
    if 48 <= u && u <= 57 {
        u - 48
    } else if 97 <= u && u <= 102 {
        u - 97 + 10
    } else if 65 <= u && u <= 70 {
        u - 65 + 10
    } else {
        0
    }
}

/// Parses the text of a number token into its value, rejecting magnitudes
/// above `bound`. `neg` only picks which error a too-large magnitude gets:
/// `Underflow` for a literal behind a minus sign, `Overflow` otherwise.
pub fn parse_number(lit: &str, span: Position, bound: u16, neg: bool) -> (r: Result<
    u16,
    ParsingError,
>)
    requires
        number_lit_wf(lit@),
    ensures
        match spec_parse_number(lit@, span, bound, neg) {
            Ok(v) => r is Ok && r->Ok_0 == v,
            Err(e) => r is Err && r->Err_0@ == e,
        },
        r is Ok ==> r->Ok_0 <= bound,
{
    let n = lit.unicode_len();
    let ghost radix_spec = lit_radix(lit@);
    let mut radix: u32 = 10;
    let mut start: usize = 0;
    if n >= 2 && lit.get_char(0) == '0' {
        let c1 = lit.get_char(1);
        if c1 == 'x' || c1 == 'X' {
            radix = 16;
            start = 2;
        } else if c1 == 'o' || c1 == 'O' {
            radix = 8;
            start = 2;
        } else if c1 == 'b' || c1 == 'B' {
            radix = 2;
            start = 2;
        }
    }
    proof {
        assert(radix == radix_spec);
        assert(lit_digits(lit@) =~= lit@.skip(start as int));
    }
    let ghost ds = lit_digits(lit@);
    if start >= n {
        return Err(ParsingError::EmptyLiteral { span });
    }
    let mut acc: u32 = 0;
    let mut i = start;
    proof {
        assert(ds.take(0) =~= Seq::<char>::empty());
    }
    while i < n
        invariant
            start <= i <= n,
            n == lit@.len(),
            2 <= radix <= 16,
            radix == radix_spec,
            radix_spec == lit_radix(lit@),
            ds == lit_digits(lit@),
            number_lit_wf(lit@),
            ds.len() == n - start,
            acc <= 0x10000,
            ({
                let v = digits_val(ds.take(i - start), radix as int);
                acc == if v > 0x10000 {
                    0x10000int
                } else {
                    v
                }
            }),
        decreases n - i,
    {
        let c = lit.get_char(i);
        let d = digit_val_exec(c);
        let ghost k = i - start;
        proof {
            assert(ds[k] == lit@[i as int]);
            assert(in_class(ds[k], radix_class(radix_spec)));
            lemma_digit_val_bound(c, radix_spec);
            assert(ds.take(k + 1).drop_last() =~= ds.take(k));
            assert(ds.take(k + 1).last() == ds[k]);
            lemma_digits_val_nonneg(ds.take(k), radix as int);
            let v = digits_val(ds.take(k), radix as int);
            let v2 = digits_val(ds.take(k + 1), radix as int);
            assert(v2 == v * radix + digit_val(c));
            if v > 0x10000 {
                assert(v * radix >= v * 2) by (nonlinear_arith)
                    requires
                        v >= 0,
                        radix >= 2,
                ;
            } else {
                assert(v * radix == acc * radix);
            }
        }
        let full = acc * radix + d;
        if full > 0x10000 {
            acc = 0x10000;
        } else {
            acc = full;
        }
        i = i + 1;
    }
    proof {
        assert(ds.take(n - start) =~= ds);
        lemma_digits_val_nonneg(ds, radix as int);
    }
    if acc > bound as u32 {
        if neg {
            Err(ParsingError::Underflow { literal: lit.to_owned(), span })
        } else {
            Err(ParsingError::Overflow { literal: lit.to_owned(), span })
        }
    } else {
        Ok(acc as u16)
    }
}

/// Every number token the scanner produces has well-formed literal text:
/// each digit character belongs to the base its prefix announces.
pub proof fn lemma_number_token_wf(s: Seq<char>, i0: int)
    requires
        0 <= i0 <= s.len(),
        s.len() <= u32::MAX,
    ensures
        match spec_token_at(s, i0).res {
            SpecLexRes::Tok(t) => t.kind == TokenKind::Number ==> number_lit_wf(t.lit),
            SpecLexRes::Bad(c, sp) => true,
        },
{
    lemma_scan_end(s, i0, CharClass::Ws);
    let i = skip_ws_end(s, i0);
    if i < s.len() {
        let c = s[i];
        if c == ':' || c == ';' || c == '#' || c == '+' || c == '-' || c == '\n' || c == '\r' {
        } else if crate::lexer::is_ident_start(c) {
        } else if c == '.' {
        } else if crate::lexer::is_digit(c) {
            if c == '0' && i + 1 < s.len() && (s[i + 1] == 'x' || s[i + 1] == 'X') {
                lemma_scan_end(s, i + 2, CharClass::Hex);
                let j = scan_end(s, i + 2, CharClass::Hex);
                let lit = s.subrange(i, j);
                assert(lit.len() >= 2 && lit[0] == '0' && (lit[1] == 'x' || lit[1] == 'X'));
                assert(lit_radix(lit) == 16);
                assert forall|k: int| 0 <= k < lit_digits(lit).len() implies in_class(
                    #[trigger] lit_digits(lit)[k],
                    radix_class(lit_radix(lit)),
                ) by {
                    assert(lit_digits(lit)[k] == s[i + 2 + k]);
                }
            } else if c == '0' && i + 1 < s.len() && (s[i + 1] == 'o' || s[i + 1] == 'O') {
                lemma_scan_end(s, i + 2, CharClass::Oct);
                let j = scan_end(s, i + 2, CharClass::Oct);
                let lit = s.subrange(i, j);
                assert(lit.len() >= 2 && lit[0] == '0' && (lit[1] == 'o' || lit[1] == 'O'));
                assert(lit_radix(lit) == 8);
                assert forall|k: int| 0 <= k < lit_digits(lit).len() implies in_class(
                    #[trigger] lit_digits(lit)[k],
                    radix_class(lit_radix(lit)),
                ) by {
                    assert(lit_digits(lit)[k] == s[i + 2 + k]);
                }
            } else if c == '0' && i + 1 < s.len() && (s[i + 1] == 'b' || s[i + 1] == 'B') {
                lemma_scan_end(s, i + 2, CharClass::Bin);
                let j = scan_end(s, i + 2, CharClass::Bin);
                let lit = s.subrange(i, j);
                assert(lit.len() >= 2 && lit[0] == '0' && (lit[1] == 'b' || lit[1] == 'B'));
                assert(lit_radix(lit) == 2);
                assert forall|k: int| 0 <= k < lit_digits(lit).len() implies in_class(
                    #[trigger] lit_digits(lit)[k],
                    radix_class(lit_radix(lit)),
                ) by {
                    assert(lit_digits(lit)[k] == s[i + 2 + k]);
                }
            } else {
                lemma_scan_end(s, i, CharClass::Dec);
                let j = scan_end(s, i, CharClass::Dec);
                let lit = s.subrange(i, j);
                assert(lit.len() >= 1 && in_class(lit[0], CharClass::Dec));
                if lit.len() >= 2 {
                    assert(in_class(lit[1], CharClass::Dec));
                    assert(lit[1] != 'x' && lit[1] != 'X' && lit[1] != 'o' && lit[1] != 'O'
                        && lit[1] != 'b' && lit[1] != 'B');
                }
                assert(lit_radix(lit) == 10);
                assert forall|k: int| 0 <= k < lit_digits(lit).len() implies in_class(
                    #[trigger] lit_digits(lit)[k],
                    radix_class(lit_radix(lit)),
                ) by {
                    assert(lit_digits(lit)[k] == s[i + k]);
                }
            }
        }
    }
}

/// The two's-complement encoding of `-m` at the width whose modulus is
/// `modulus` (256 for 8 bits, 65536 for 16 bits).
pub open spec fn spec_negate(m: u16, modulus: int) -> u16 {
    (((modulus - m) % modulus) % 0x10000) as u16
}

/// Encodes a parsed magnitude `m` behind a minus sign into two's complement;
/// the executable mirror of [`spec_negate`].
pub fn negate_magnitude(m: u16, wide: bool) -> (r: u16)
    requires
        !wide ==> m <= 0x80,
        wide ==> m <= 0x8000,
    ensures
        r == spec_negate(m, if wide { 0x10000int } else { 0x100int }),
{
    if m == 0 {
        0
    } else if wide {
        proof {
            assert((0x10000 - m) % 0x10000 == 0x10000 - m);
        }
        (0x10000 - m as u32) as u16
    } else {
        proof {
            assert((0x100 - m) % 0x100 == 0x100 - m);
        }
        0x100 - m
    }
}

} // verus!
