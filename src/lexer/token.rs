use vstd::prelude::*;

verus! {

/// The kind of a token. Identifiers carry their name, integers their value.
#[allow(non_camel_case_types)]
#[derive(Debug, Clone)]
pub enum TokenTypes {
    ILLEGAL,
    EOF,
    // Identifiers + literals
    IDENT(String),
    INT(i64),
    // Operators
    ASSIGN,
    PLUS,
    MINUS,
    SLASH,
    ASTERISK,
    BANG,
    EQ,
    NOT_EQ,
    // Delimiters
    COMMA,
    SEMICOLON,
    LPAREN,
    RPAREN,
    LBRACE,
    RBRACE,
    LT,
    GT,
    // Keywords
    FUNCTION,
    LET,
    IF,
    ELSE,
    RETURN,
    TRUE,
    FALSE,
}

/// Mathematical value of a token kind: names are character sequences.
pub enum TokenKind {
    Illegal,
    Eof,
    Ident(Seq<char>),
    Int(i64),
    Assign,
    Plus,
    Minus,
    Slash,
    Asterisk,
    Bang,
    Eq,
    NotEq,
    Comma,
    Semicolon,
    LParen,
    RParen,
    LBrace,
    RBrace,
    Lt,
    Gt,
    Function,
    Let,
    If,
    Else,
    Return,
    True,
    False,
}

impl View for TokenTypes {
    type V = TokenKind;

    open spec fn view(&self) -> TokenKind {
        match self {
            TokenTypes::ILLEGAL => TokenKind::Illegal,
            TokenTypes::EOF => TokenKind::Eof,
            TokenTypes::IDENT(s) => TokenKind::Ident(s@),
            TokenTypes::INT(v) => TokenKind::Int(*v),
            TokenTypes::ASSIGN => TokenKind::Assign,
            TokenTypes::PLUS => TokenKind::Plus,
            TokenTypes::MINUS => TokenKind::Minus,
            TokenTypes::SLASH => TokenKind::Slash,
            TokenTypes::ASTERISK => TokenKind::Asterisk,
            TokenTypes::BANG => TokenKind::Bang,
            TokenTypes::EQ => TokenKind::Eq,
            TokenTypes::NOT_EQ => TokenKind::NotEq,
            TokenTypes::COMMA => TokenKind::Comma,
            TokenTypes::SEMICOLON => TokenKind::Semicolon,
            TokenTypes::LPAREN => TokenKind::LParen,
            TokenTypes::RPAREN => TokenKind::RParen,
            TokenTypes::LBRACE => TokenKind::LBrace,
            TokenTypes::RBRACE => TokenKind::RBrace,
            TokenTypes::LT => TokenKind::Lt,
            TokenTypes::GT => TokenKind::Gt,
            TokenTypes::FUNCTION => TokenKind::Function,
            TokenTypes::LET => TokenKind::Let,
            TokenTypes::IF => TokenKind::If,
            TokenTypes::ELSE => TokenKind::Else,
            TokenTypes::RETURN => TokenKind::Return,
            TokenTypes::TRUE => TokenKind::True,
            TokenTypes::FALSE => TokenKind::False,
        }
    }
}

impl PartialEq for TokenTypes {
    /// Two kinds are equal when their variants and payloads are.
    fn eq(&self, other: &TokenTypes) -> (r: bool) {
        match (self, other) {
            (TokenTypes::IDENT(a), TokenTypes::IDENT(b)) => a.eq(b),
            (TokenTypes::INT(a), TokenTypes::INT(b)) => *a == *b,
            (TokenTypes::ILLEGAL, TokenTypes::ILLEGAL) => true,
            (TokenTypes::EOF, TokenTypes::EOF) => true,
            (TokenTypes::ASSIGN, TokenTypes::ASSIGN) => true,
            (TokenTypes::PLUS, TokenTypes::PLUS) => true,
            (TokenTypes::MINUS, TokenTypes::MINUS) => true,
            (TokenTypes::SLASH, TokenTypes::SLASH) => true,
            (TokenTypes::ASTERISK, TokenTypes::ASTERISK) => true,
            (TokenTypes::BANG, TokenTypes::BANG) => true,
            (TokenTypes::EQ, TokenTypes::EQ) => true,
            (TokenTypes::NOT_EQ, TokenTypes::NOT_EQ) => true,
            (TokenTypes::COMMA, TokenTypes::COMMA) => true,
            (TokenTypes::SEMICOLON, TokenTypes::SEMICOLON) => true,
            (TokenTypes::LPAREN, TokenTypes::LPAREN) => true,
            (TokenTypes::RPAREN, TokenTypes::RPAREN) => true,
            (TokenTypes::LBRACE, TokenTypes::LBRACE) => true,
            (TokenTypes::RBRACE, TokenTypes::RBRACE) => true,
            (TokenTypes::LT, TokenTypes::LT) => true,
            (TokenTypes::GT, TokenTypes::GT) => true,
            (TokenTypes::FUNCTION, TokenTypes::FUNCTION) => true,
            (TokenTypes::LET, TokenTypes::LET) => true,
            (TokenTypes::IF, TokenTypes::IF) => true,
            (TokenTypes::ELSE, TokenTypes::ELSE) => true,
            (TokenTypes::RETURN, TokenTypes::RETURN) => true,
            (TokenTypes::TRUE, TokenTypes::TRUE) => true,
            (TokenTypes::FALSE, TokenTypes::FALSE) => true,
            _ => false,
        }
    }
}

impl vstd::std_specs::cmp::PartialEqSpecImpl for TokenTypes {
    open spec fn obeys_eq_spec() -> bool {
        true
    }

    open spec fn eq_spec(&self, other: &TokenTypes) -> bool {
        self@ == other@
    }
}

/// A token: its kind and the source text it was read from.
#[derive(PartialEq, Clone, Debug)]
pub struct Token {
    pub tokentype: TokenTypes,
    pub literal: String,
}

/// Mathematical value of a token.
pub struct TokenView {
    pub kind: TokenKind,
    pub literal: Seq<char>,
}

impl View for Token {
    type V = TokenView;

    open spec fn view(&self) -> TokenView {
        TokenView { kind: self.tokentype@, literal: self.literal@ }
    }
}

} // verus!
