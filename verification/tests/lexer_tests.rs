use nand7400::errors::ParsingError;
use nand7400::lexer::Lexer;
use nand7400::position::Position;
use nand7400::token::{Token, TokenKind};

/// Tests a list of tokens against the lexer's output.
fn lexes_as(input: &str, tests: Vec<Token>) {
    let mut lexer = Lexer::new(input);

    for (i, tt) in tests.iter().enumerate() {
        let token = lexer.next_token().unwrap();

        assert_eq!(token.kind, tt.kind, "tests[{}] failed - wrong token type.", i);

        assert_eq!(token.literal, tt.literal, "tests[{}] failed - wrong literal value.", i);

        assert_eq!(token.position, tt.position, "tests[{}] failed - wrong position.", i);
    }
}

/// Lexing until the EOF just returns an EOF token, even after "going past"
/// the end of the file.
#[test]
fn lex_eof() {
    let input = "";

    let tests = vec![
        Token::new(TokenKind::Eof, Position::new(0, 0), "\0".to_string()),
        Token::new(TokenKind::Eof, Position::new(0, 0), "\0".to_string()),
    ];

    lexes_as(input, tests)
}

/// The lexer tracks positions correctly, including newlines with `\n` and
/// `\r\n` (both count as one newline token).
#[test]
fn lex_positions() {
    let input = "abcde\nfghij\r\nklmno\r\n123\r 456\n789";

    let mut lexer = Lexer::new(input);

    let tests = vec![
        Position::new(0, 5),
        Position::new(5, 6),
        Position::new(6, 11),
        Position::new(11, 13),
        Position::new(13, 18),
        Position::new(18, 20),
        Position::new(20, 23),
        Position::new(23, 24),
        Position::new(25, 28),
    ];

    for (i, test) in tests.iter().enumerate() {
        let token = lexer.next_token();
        assert_eq!(&token.unwrap().position, test, "test[{}]: FAILED", i);
    }
}

/// The lexer handles the one-character special tokens.
#[test]
fn lex_special_characters() {
    let input = "+ : # -";

    let tests = vec![
        Token::new(TokenKind::Plus, Position::new(0, 1), "+".to_string()),
        Token::new(TokenKind::Colon, Position::new(2, 3), ":".to_string()),
        Token::new(TokenKind::Hash, Position::new(4, 5), "#".to_string()),
        Token::new(TokenKind::Minus, Position::new(6, 7), "-".to_string()),
    ];

    lexes_as(input, tests)
}

/// The lexer tokenizes keywords, dot included.
#[test]
fn lex_keywords() {
    let input = ".byte .org";

    let tests = vec![
        Token::new(TokenKind::Keyword, Position::new(0, 5), ".byte".to_string()),
        Token::new(TokenKind::Keyword, Position::new(6, 10), ".org".to_string()),
    ];

    lexes_as(input, tests)
}

/// The lexer tokenizes identifiers.
#[test]
fn lex_identifiers() {
    let input = "abcde fghij kl_mno OIE ab12CE";

    let tests = vec![
        Token::new(TokenKind::Ident, Position::new(0, 5), "abcde".to_string()),
        Token::new(TokenKind::Ident, Position::new(6, 11), "fghij".to_string()),
        Token::new(TokenKind::Ident, Position::new(12, 18), "kl_mno".to_string()),
        Token::new(TokenKind::Ident, Position::new(19, 22), "OIE".to_string()),
        Token::new(TokenKind::Ident, Position::new(23, 29), "ab12CE".to_string()),
    ];

    lexes_as(input, tests)
}

/// The lexer tokenizes numbers in all four bases, keeping the base prefix in
/// the literal text, and keeps an empty digit string after a prefix for the
/// parser to reject.
#[test]
fn lex_numeric_values() {
    let input = "0x3C 0b1010 0o156 0XFA 0B0101 0O123 1234 0x 0b 0o";

    let tests = vec![
        Token::new(TokenKind::Number, Position::new(0, 4), "0x3C".to_string()),
        Token::new(TokenKind::Number, Position::new(5, 11), "0b1010".to_string()),
        Token::new(TokenKind::Number, Position::new(12, 17), "0o156".to_string()),
        Token::new(TokenKind::Number, Position::new(18, 22), "0XFA".to_string()),
        Token::new(TokenKind::Number, Position::new(23, 29), "0B0101".to_string()),
        Token::new(TokenKind::Number, Position::new(30, 35), "0O123".to_string()),
        Token::new(TokenKind::Number, Position::new(36, 40), "1234".to_string()),
        Token::new(TokenKind::Number, Position::new(41, 43), "0x".to_string()),
        Token::new(TokenKind::Number, Position::new(44, 46), "0b".to_string()),
        Token::new(TokenKind::Number, Position::new(47, 49), "0o".to_string()),
    ];

    lexes_as(input, tests)
}

/// Unknown characters come back as errors, one per character, and the lexer
/// advances past each.
#[test]
fn lex_failing_conditions() {
    let input = "% !";

    let tests = vec![
        ParsingError::UnknownCharacter { character: '%', span: Position::new(0, 1) },
        ParsingError::UnknownCharacter { character: '!', span: Position::new(2, 3) },
    ];

    let mut lexer = Lexer::new(input);

    for (i, test) in tests.into_iter().enumerate() {
        let token = lexer.next_token();
        assert_eq!(token.unwrap_err(), test, "test[{}]: FAILED", i);
    }
}

/// Draining the lexer collects every illegal character in the source at
/// once.
#[test]
fn lex_collects_all_errors() {
    let input = "nop $ 5\n% !";

    let mut lexer = Lexer::new(input);
    let errors = lexer.errors();

    assert_eq!(
        errors,
        vec![
            ParsingError::UnknownCharacter { character: '$', span: Position::new(4, 5) },
            ParsingError::UnknownCharacter { character: '%', span: Position::new(8, 9) },
            ParsingError::UnknownCharacter { character: '!', span: Position::new(10, 11) },
        ]
    );
}

/// Token construction helpers give the token the span of its text.
#[test]
fn token_constructors() {
    let ident = Token::from_ident("loop_start".to_string(), 3);
    assert_eq!(ident.kind, TokenKind::Ident);
    assert_eq!(ident.position, Position::new(3, 13));
    assert_eq!(ident.literal, "loop_start");

    let kw = Token::from_keyword(".byte".to_string(), 7);
    assert_eq!(kw.kind, TokenKind::Keyword);
    assert_eq!(kw.position, Position::new(7, 12));
    assert_eq!(kw.literal, ".byte");
}

/// A keyword starts with `.` followed by an identifier-start character; a
/// `.` before anything else is an unknown character, and the digits after
/// it lex as their own number token.
#[test]
fn lex_dot_before_digit() {
    let input = ".5 ._a";

    let mut lexer = Lexer::new(input);

    assert_eq!(
        lexer.next_token().unwrap_err(),
        ParsingError::UnknownCharacter { character: '.', span: Position::new(0, 1) }
    );

    let number = lexer.next_token().unwrap();
    assert_eq!(number.kind, TokenKind::Number);
    assert_eq!(number.literal, "5");
    assert_eq!(number.position, Position::new(1, 2));

    let keyword = lexer.next_token().unwrap();
    assert_eq!(keyword.kind, TokenKind::Keyword);
    assert_eq!(keyword.literal, "._a");
    assert_eq!(keyword.position, Position::new(3, 6));
}

/// Draining the lexer leaves it at the end of the input: further calls
/// return the end-of-input token.
#[test]
fn lex_errors_drains_to_eof() {
    let input = "a % b";

    let mut lexer = Lexer::new(input);
    let errors = lexer.errors();

    assert_eq!(errors.len(), 1);
    assert_eq!(lexer.next_token().unwrap().kind, TokenKind::Eof);
}
