use krillscript::lexer::LexError;
use krillscript::lexer::Lexer;
use krillscript::lexer::Span;
use krillscript::token::Token;

fn lex_all(src: &str) -> Vec<Result<(Token, Span), LexError>> {
    let mut lex = Lexer::new(src.as_bytes().to_vec());
    let mut out = Vec::new();
    while let Some(item) = lex.next_token() {
        out.push(item);
    }
    out
}

fn lex_tokens(src: &str) -> Vec<Token> {
    lex_all(src).into_iter().map(|r| r.unwrap().0).collect()
}

#[test]
fn test_lexer() {
    let src = "let let0=1==+!0xaB-0o0456*34/^&|&&||";
    let expected = [
        Token::Let,
        Token::Ident,
        Token::Assign,
        Token::Integer(1),
        Token::Eq,
        Token::Plus,
        Token::Not,
        Token::Integer(0xab),
        Token::Minus,
        Token::Integer(0o456),
        Token::Asterisk,
        Token::Integer(34),
        Token::Divide,
        Token::Xor,
        Token::And,
        Token::Or,
        Token::AndAnd,
        Token::OrOr,
    ];
    let mut lex = Lexer::new(src.as_bytes().to_vec());
    let mut i = 0;
    while let Some(l) = lex.next_token() {
        let (got, _span) = l.unwrap();
        assert_eq!(got, expected[i]);
        i += 1;
    }
    assert_eq!(i, expected.len());
}

#[test]
fn test_end_to_end_let_binding() {
    let out = lex_all("let x = 1 + 2;");
    let expected = [
        (Token::Let, Span { start: 0, end: 3 }),
        (Token::Ident, Span { start: 4, end: 5 }),
        (Token::Assign, Span { start: 6, end: 7 }),
        (Token::Integer(1), Span { start: 8, end: 9 }),
        (Token::Plus, Span { start: 10, end: 11 }),
        (Token::Integer(2), Span { start: 12, end: 13 }),
        (Token::Semicolon, Span { start: 13, end: 14 }),
    ];
    assert_eq!(out.len(), expected.len());
    let mut prev_end = 0;
    for (got, want) in out.iter().zip(expected.iter()) {
        let (t, sp) = got.clone().unwrap();
        assert_eq!(t, want.0);
        assert_eq!(sp, want.1);
        assert!(sp.start >= prev_end);
        assert!(sp.start < sp.end);
        prev_end = sp.end;
    }
}

#[test]
fn test_decomposed_stream() {
    let mut decomposed = Vec::new();
    for t in lex_tokens("a == b") {
        let mut it = t.split_tokens();
        while let Some(p) = it.next() {
            decomposed.push(p);
        }
    }
    assert_eq!(
        decomposed,
        vec![Token::Ident, Token::Assign, Token::Assign, Token::Ident]
    );
}

#[test]
fn test_radix_round_trip_examples() {
    for src in ["255", "0xff", "0xFF", "0b11111111", "0o377"] {
        assert_eq!(lex_tokens(src), vec![Token::Integer(255)]);
    }
    for src in ["0", "0x0", "0b0", "0o0"] {
        assert_eq!(lex_tokens(src), vec![Token::Integer(0)]);
    }
    assert_eq!(
        lex_tokens("340282366920938463463374607431768211455"),
        vec![Token::Integer(u128::MAX)]
    );
}

#[test]
fn test_keyword_boundary() {
    assert_eq!(lex_tokens("let"), vec![Token::Let]);
    assert_eq!(lex_tokens("letx"), vec![Token::Ident]);
    assert_eq!(lex_tokens("let0"), vec![Token::Ident]);
    assert_eq!(lex_tokens("let_"), vec![Token::Ident]);
    assert_eq!(lex_tokens("le"), vec![Token::Ident]);
}

#[test]
fn test_maximal_munch() {
    assert_eq!(lex_tokens("&&"), vec![Token::AndAnd]);
    assert_eq!(lex_tokens("&"), vec![Token::And]);
    assert_eq!(lex_tokens("&x"), vec![Token::And, Token::Ident]);
    assert_eq!(lex_tokens("&&&"), vec![Token::AndAnd, Token::And]);
    assert_eq!(lex_tokens("<="), vec![Token::Le]);
    assert_eq!(lex_tokens("<1"), vec![Token::Lt, Token::Integer(1)]);
}

#[test]
fn test_integer_overflow_error() {
    // one unit above the 128-bit maximum
    let out = lex_all("340282366920938463463374607431768211456");
    assert_eq!(out.len(), 1);
    assert_eq!(
        out[0],
        Err(LexError::IntegerOverflow {
            span: Span { start: 0, end: 39 }
        })
    );

    let out = lex_all("0x100000000000000000000000000000000");
    assert_eq!(out.len(), 1);
    assert_eq!(
        out[0],
        Err(LexError::IntegerOverflow {
            span: Span { start: 0, end: 35 }
        })
    );
}

#[test]
fn test_unexpected_character_error() {
    let out = lex_all("@+");
    assert_eq!(out.len(), 2);
    assert_eq!(out[0], Err(LexError::UnexpectedCharacter { offset: 0 }));
    assert_eq!(out[1], Ok((Token::Plus, Span { start: 1, end: 2 })));
}

#[test]
fn test_underscore_separators() {
    assert_eq!(lex_tokens("1_000"), vec![Token::Integer(1000)]);
    assert_eq!(lex_tokens("0xa_b"), vec![Token::Integer(0xab)]);
    assert_eq!(lex_tokens("0b1_01"), vec![Token::Integer(5)]);
    assert_eq!(lex_tokens("_x"), vec![Token::Ident]);
    // `0x` with no real digit is not a radix literal: the zero, then an
    // identifier
    assert_eq!(lex_tokens("0x_"), vec![Token::Integer(0), Token::Ident]);
}

#[test]
fn test_comments_and_whitespace() {
    assert_eq!(
        lex_tokens("1 // comment\n 2"),
        vec![Token::Integer(1), Token::Integer(2)]
    );
    assert_eq!(lex_tokens("1 // trailing"), vec![Token::Integer(1)]);
    assert_eq!(lex_tokens("//"), Vec::new());
    assert_eq!(lex_tokens("\t\r\n "), Vec::new());
    assert_eq!(lex_tokens(""), Vec::new());
}

#[test]
fn test_divide_versus_comment() {
    assert_eq!(
        lex_tokens("1/2"),
        vec![Token::Integer(1), Token::Divide, Token::Integer(2)]
    );
    assert_eq!(lex_tokens("1//2"), vec![Token::Integer(1)]);
    assert_eq!(lex_tokens("/"), vec![Token::Divide]);
}

#[test]
fn test_radix_prefix_fallback() {
    // a prefix with no digit of its base falls back to the zero and an
    // identifier or a fresh lexeme
    assert_eq!(lex_tokens("0b2"), vec![Token::Integer(0), Token::Ident]);
    assert_eq!(lex_tokens("0x"), vec![Token::Integer(0), Token::Ident]);
    assert_eq!(lex_tokens("0o8"), vec![Token::Integer(0), Token::Ident]);
}

#[test]
fn test_float_lexemes() {
    let out = lex_all("1.5");
    assert_eq!(out, vec![Ok((Token::Float, Span { start: 0, end: 3 }))]);
    let text = "1.5";
    let (_, sp) = out[0].clone().unwrap();
    let value: f64 = text[sp.start..sp.end].parse().unwrap();
    assert_eq!(value, 1.5f64);

    assert_eq!(
        lex_all(".5"),
        vec![Ok((Token::Float, Span { start: 0, end: 2 }))]
    );
    // a dot with no fractional digits is not a float: the integer, then an
    // unexpected character
    assert_eq!(
        lex_all("1."),
        vec![
            Ok((Token::Integer(1), Span { start: 0, end: 1 })),
            Err(LexError::UnexpectedCharacter { offset: 1 }),
        ]
    );
}

#[test]
fn test_single_character_operators() {
    assert_eq!(
        lex_tokens("+-*/^!&|=<>;()[]{}"),
        vec![
            Token::Plus,
            Token::Minus,
            Token::Asterisk,
            Token::Divide,
            Token::Xor,
            Token::Not,
            Token::And,
            Token::Or,
            Token::Assign,
            Token::Lt,
            Token::Gt,
            Token::Semicolon,
            Token::LeftParen,
            Token::RightParen,
            Token::LeftSquare,
            Token::RightSquare,
            Token::LeftBrace,
            Token::RightBrace,
        ]
    );
}

#[test]
fn test_two_character_operators() {
    assert_eq!(
        lex_tokens("&& || == != <= >="),
        vec![
            Token::AndAnd,
            Token::OrOr,
            Token::Eq,
            Token::Ne,
            Token::Le,
            Token::Ge,
        ]
    );
}
