use krillscript::token::Token;

fn decomposition(t: Token) -> Vec<Token> {
    let mut it = t.split_tokens();
    let mut out = Vec::new();
    while let Some(p) = it.next() {
        out.push(p);
    }
    out
}

#[test]
fn test_split_compound_operators() {
    assert_eq!(decomposition(Token::AndAnd), vec![Token::And, Token::And]);
    assert_eq!(decomposition(Token::OrOr), vec![Token::Or, Token::Or]);
    assert_eq!(decomposition(Token::Eq), vec![Token::Assign, Token::Assign]);
    assert_eq!(decomposition(Token::Ne), vec![Token::Not, Token::Assign]);
    assert_eq!(decomposition(Token::Le), vec![Token::Lt, Token::Assign]);
    assert_eq!(decomposition(Token::Ge), vec![Token::Gt, Token::Assign]);
}

#[test]
fn test_split_primitive_tokens() {
    assert_eq!(decomposition(Token::Let), vec![Token::Let]);
    assert_eq!(decomposition(Token::Plus), vec![Token::Plus]);
    assert_eq!(decomposition(Token::Assign), vec![Token::Assign]);
    assert_eq!(decomposition(Token::Integer(7)), vec![Token::Integer(7)]);
    assert_eq!(decomposition(Token::Float), vec![Token::Float]);
    assert_eq!(decomposition(Token::Ident), vec![Token::Ident]);
    assert_eq!(decomposition(Token::LeftBrace), vec![Token::LeftBrace]);
}

#[test]
fn test_split_iter_exhausts() {
    let mut it = Token::Ne.split_tokens();
    assert_eq!(it.next(), Some(Token::Not));
    assert_eq!(it.next(), Some(Token::Assign));
    assert_eq!(it.next(), None);
    assert_eq!(it.next(), None);

    let mut once = Token::Xor.split_tokens();
    assert_eq!(once.next(), Some(Token::Xor));
    assert_eq!(once.next(), None);
}

#[test]
fn test_len_table() {
    assert_eq!(Token::Let.len(), Some(3));
    for t in [
        Token::Plus,
        Token::Minus,
        Token::Asterisk,
        Token::Divide,
        Token::Xor,
        Token::Not,
        Token::And,
        Token::Or,
        Token::Assign,
        Token::Lt,
        Token::Gt,
        Token::Semicolon,
        Token::LeftParen,
        Token::RightParen,
        Token::LeftSquare,
        Token::RightSquare,
        Token::LeftBrace,
        Token::RightBrace,
    ] {
        assert_eq!(t.len(), Some(1));
    }
    for t in [Token::AndAnd, Token::OrOr, Token::Eq, Token::Ne, Token::Le, Token::Ge] {
        assert_eq!(t.len(), Some(2));
    }
    assert_eq!(Token::Integer(34).len(), None);
    assert_eq!(Token::Float.len(), None);
    assert_eq!(Token::Ident.len(), None);
}

#[test]
fn test_split_preserves_length() {
    // the decomposition of each fixed-width token has the same total source
    // length as the token itself
    for t in [
        Token::Let,
        Token::Plus,
        Token::And,
        Token::AndAnd,
        Token::OrOr,
        Token::Eq,
        Token::Ne,
        Token::Le,
        Token::Ge,
        Token::Semicolon,
    ] {
        let total: usize = decomposition(t).iter().map(|p| p.len().unwrap()).sum();
        assert_eq!(total, t.len().unwrap());
    }
}
