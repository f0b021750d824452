//! Token kinds, the token value type, and the keyword table.

use vstd::prelude::*;

verus! {

/// The closed set of token kinds the scanner can emit.
///
/// `ILLEGAL` flags an unrecognized character in-band; `EOF` terminates the
/// stream; `IDENT`, `INT` carry source-dependent literals; the rest are
/// fixed-spelling operators, delimiters and reserved words.
#[allow(non_camel_case_types)]
#[derive(Debug, PartialEq, Eq, Structural, Copy, Clone)]
pub enum TokenType {
    ILLEGAL,
    EOF,
    // Identifiers and literals
    IDENT,
    INT,
    // Operators
    ASSIGN,
    PLUS,
    MINUS,
    BANG,
    ASTERISK,
    SLASH,
    LT,
    GT,
    EQ,
    NOT_EQ,
    // Delimiters
    COMMA,
    SEMICOLON,
    LPAREN,
    RPAREN,
    LBRACE,
    RBRACE,
    // Keywords
    FUNCTION,
    LET,
    TRUE,
    FALSE,
    IF,
    ELSE,
    RETURN,
}

/// One lexical unit: a kind together with the exact source text that
/// produced it (empty for `EOF`).
#[derive(Debug)]
pub struct Token {
    pub kind: TokenType,
    pub literal: String,
}

/// Relies on `char::to_string` from std: the string holding exactly the one
/// given character.
#[verifier::external_body]
fn ascii_byte_to_string(ch: u8) -> (s: String)
    requires
        ch < 128,
    ensures
        s@ == seq![ch as char],
{
    (ch as char).to_string()
}

impl Token {
    /// Builds a token whose literal is the single ASCII character `ch`.
    pub fn new(token_type: TokenType, ch: u8) -> (token: Token)
        requires
            ch < 128,
        ensures
            token.kind == token_type,
            token.literal@ == seq![ch as char],
    {
        Token { kind: token_type, literal: ascii_byte_to_string(ch) }
    }
}

/// The token kind a letter-run lexeme denotes: each of the seven reserved
/// words maps to its keyword kind, every other spelling is an identifier.
pub open spec fn spec_lookup_ident(s: Seq<char>) -> TokenType {
    if s == "fn"@ {
        TokenType::FUNCTION
    } else if s == "let"@ {
        TokenType::LET
    } else if s == "if"@ {
        TokenType::IF
    } else if s == "else"@ {
        TokenType::ELSE
    } else if s == "true"@ {
        TokenType::TRUE
    } else if s == "false"@ {
        TokenType::FALSE
    } else if s == "return"@ {
        TokenType::RETURN
    } else {
        TokenType::IDENT
    }
}

/// Looks a lexeme up in the keyword table: the matching keyword kind for a
/// reserved word, `IDENT` for everything else (exact, case-sensitive match).
pub fn lookup_ident(ident: &String) -> (kind: TokenType)
    ensures
        kind == spec_lookup_ident(ident@),
{
    if *ident == "fn".to_owned() {
        TokenType::FUNCTION
    } else if *ident == "let".to_owned() {
        TokenType::LET
    } else if *ident == "if".to_owned() {
        TokenType::IF
    } else if *ident == "else".to_owned() {
        TokenType::ELSE
    } else if *ident == "true".to_owned() {
        TokenType::TRUE
    } else if *ident == "false".to_owned() {
        TokenType::FALSE
    } else if *ident == "return".to_owned() {
        TokenType::RETURN
    } else {
        TokenType::IDENT
    }
}

} // verus!
