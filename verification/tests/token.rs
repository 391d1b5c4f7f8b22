use ws_rpc::token::Token;

fn sample() -> Vec<Token> {
    vec![
        Token::Keyword("fn".to_string()),
        Token::Ident("f".to_string()),
        Token::Punct('('),
        Token::Literal("4".to_string()),
        Token::Punct(')'),
    ]
}

#[test]
fn duplicate_copies_every_kind_of_token() {
    for token in sample() {
        assert_eq!(token.duplicate(), token);
    }
}

#[test]
fn is_keyword_compares_kind_and_word() {
    assert!(Token::Keyword("fn".to_string()).is_keyword("fn"));
    assert!(!Token::Keyword("fn".to_string()).is_keyword("f"));
    assert!(!Token::Ident("fn".to_string()).is_keyword("fn"));
    assert!(!Token::Literal("fn".to_string()).is_keyword("fn"));
    assert!(!Token::Punct('f').is_keyword("f"));
}

#[test]
fn is_punct_compares_kind_and_character() {
    assert!(Token::Punct('(').is_punct('('));
    assert!(!Token::Punct('(').is_punct(')'));
    assert!(!Token::Ident("(".to_string()).is_punct('('));
}
