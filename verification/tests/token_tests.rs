use monkey_lexer::token::{lookup_ident, Token, TokenType};

#[test]
fn token_new_builds_single_char_literal() {
    let token = Token::new(TokenType::PLUS, b'+');
    assert_eq!(token.kind, TokenType::PLUS);
    assert_eq!(token.literal, "+");

    let token = Token::new(TokenType::ASSIGN, b'=');
    assert_eq!(token.kind, TokenType::ASSIGN);
    assert_eq!(token.literal, "=");

    let token = Token::new(TokenType::ILLEGAL, b'@');
    assert_eq!(token.kind, TokenType::ILLEGAL);
    assert_eq!(token.literal, "@");
}

#[test]
fn lookup_ident_finds_every_keyword() {
    assert_eq!(lookup_ident(&"fn".to_string()), TokenType::FUNCTION);
    assert_eq!(lookup_ident(&"let".to_string()), TokenType::LET);
    assert_eq!(lookup_ident(&"if".to_string()), TokenType::IF);
    assert_eq!(lookup_ident(&"else".to_string()), TokenType::ELSE);
    assert_eq!(lookup_ident(&"true".to_string()), TokenType::TRUE);
    assert_eq!(lookup_ident(&"false".to_string()), TokenType::FALSE);
    assert_eq!(lookup_ident(&"return".to_string()), TokenType::RETURN);
}

#[test]
fn lookup_ident_is_exact_and_case_sensitive() {
    assert_eq!(lookup_ident(&"foobar".to_string()), TokenType::IDENT);
    assert_eq!(lookup_ident(&"letter".to_string()), TokenType::IDENT);
    assert_eq!(lookup_ident(&"Let".to_string()), TokenType::IDENT);
    assert_eq!(lookup_ident(&"returns".to_string()), TokenType::IDENT);
    assert_eq!(lookup_ident(&"".to_string()), TokenType::IDENT);
}
