use monkey_lib::lexer::token::{Token, TokenTypes};
use monkey_lib::lexer::Lexer;

#[test]
fn test_lexer() {
    let input = "=+(){},;";
    let mut lexer = Lexer::new(input);
    let tests = vec![
        TokenTypes::ASSIGN,
        TokenTypes::PLUS,
        TokenTypes::LPAREN,
        TokenTypes::RPAREN,
        TokenTypes::LBRACE,
        TokenTypes::RBRACE,
        TokenTypes::COMMA,
        TokenTypes::SEMICOLON,
        TokenTypes::EOF,
    ];
    for (_i, tt) in tests.iter().enumerate() {
        let tok = lexer.next_token();
        assert_eq!(tok.tokentype, *tt);
    }

}

#[test]
fn test_lexer_2() {
    let input = "
let five = 5;
let ten = 10;
   let add = fn(x, y) {
     x + y;
};
   let result = add(five, ten);
   !-/*5;
   5 < 10 > 5;
if (5 < 10) {
       return true;
   } else {
       return false;
}
10 == 10; 10 != 9;
";

    let mut lexer = Lexer::new(input);
    let tests = vec![
        TokenTypes::LET,
        TokenTypes::IDENT("five".to_string()),
        TokenTypes::ASSIGN,
        TokenTypes::INT(5),
        TokenTypes::SEMICOLON,
        TokenTypes::LET,
        TokenTypes::IDENT("ten".to_string()),
        TokenTypes::ASSIGN,
        TokenTypes::INT(10),
        TokenTypes::SEMICOLON,
        TokenTypes::LET,
        TokenTypes::IDENT("add".to_string()),
        TokenTypes::ASSIGN,
        TokenTypes::FUNCTION,
        TokenTypes::LPAREN,
        TokenTypes::IDENT("x".to_string()),
        TokenTypes::COMMA,
        TokenTypes::IDENT("y".to_string()),
        TokenTypes::RPAREN,
        TokenTypes::LBRACE,
        TokenTypes::IDENT("x".to_string()),
        TokenTypes::PLUS,
        TokenTypes::IDENT("y".to_string()),
        TokenTypes::SEMICOLON,
        TokenTypes::RBRACE,
        TokenTypes::SEMICOLON,
        TokenTypes::LET,
        TokenTypes::IDENT("result".to_string()),
        TokenTypes::ASSIGN,
        TokenTypes::IDENT("add".to_string()),
        TokenTypes::LPAREN,
        TokenTypes::IDENT("five".to_string()),
        TokenTypes::COMMA,
        TokenTypes::IDENT("ten".to_string()),
        TokenTypes::RPAREN,
        TokenTypes::SEMICOLON,
        TokenTypes::BANG,
        TokenTypes::MINUS,
        TokenTypes::SLASH,
        TokenTypes::ASTERISK,
        TokenTypes::INT(5),
        TokenTypes::SEMICOLON,
        TokenTypes::INT(5),
        TokenTypes::LT,
        TokenTypes::INT(10),
        TokenTypes::GT,
        TokenTypes::INT(5),
        TokenTypes::SEMICOLON,
        TokenTypes::IF,
        TokenTypes::LPAREN,
        TokenTypes::INT(5),
        TokenTypes::LT,
        TokenTypes::INT(10),
        TokenTypes::RPAREN,
        TokenTypes::LBRACE,
        TokenTypes::RETURN,
        TokenTypes::TRUE,
        TokenTypes::SEMICOLON,
        TokenTypes::RBRACE,
        TokenTypes::ELSE,
        TokenTypes::LBRACE,
        TokenTypes::RETURN,
        TokenTypes::FALSE,
        TokenTypes::SEMICOLON,
        TokenTypes::RBRACE,
        TokenTypes::INT(10),
        TokenTypes::EQ,
        TokenTypes::INT(10),
        TokenTypes::SEMICOLON,
        TokenTypes::INT(10),
        TokenTypes::NOT_EQ,
        TokenTypes::INT(9),
        TokenTypes::SEMICOLON,
        TokenTypes::EOF,
        
    ];
    for (_i, tt) in tests.iter().enumerate() {
        let tok = lexer.next_token();
        assert_eq!(tok.tokentype, *tt);
    }

}

fn kinds(input: &str, n: usize) -> Vec<TokenTypes> {
    let mut lexer = Lexer::new(input);
    let mut out = Vec::new();
    for _ in 0..n {
        out.push(lexer.next_token().tokentype);
    }
    out
}

#[test]
fn whitespace_only_is_eof() {
    for input in ["", " ", "\t", "\n", "\r\n", "   \t\n  \r "] {
        let mut lexer = Lexer::new(input);
        assert_eq!(lexer.next_token().tokentype, TokenTypes::EOF);
    }
}

#[test]
fn eof_repeats_forever() {
    let mut lexer = Lexer::new("x");
    assert_eq!(lexer.next_token().tokentype, TokenTypes::IDENT("x".to_string()));
    for _ in 0..5 {
        let tok = lexer.next_token();
        assert_eq!(tok.tokentype, TokenTypes::EOF);
        assert_eq!(tok.literal, "");
    }
}

#[test]
fn let_statement_tokens_and_literals() {
    let mut lexer = Lexer::new("let five = 5;");
    let expected = vec![
        (TokenTypes::LET, "let"),
        (TokenTypes::IDENT("five".to_string()), "five"),
        (TokenTypes::ASSIGN, "="),
        (TokenTypes::INT(5), "5"),
        (TokenTypes::SEMICOLON, ";"),
        (TokenTypes::EOF, ""),
    ];
    for (kind, literal) in expected {
        let tok: Token = lexer.next_token();
        assert_eq!(tok.tokentype, kind);
        assert_eq!(tok.literal, literal);
    }
}

#[test]
fn two_character_operators() {
    assert_eq!(
        kinds("10 == 10; 10 != 9;", 9),
        vec![
            TokenTypes::INT(10),
            TokenTypes::EQ,
            TokenTypes::INT(10),
            TokenTypes::SEMICOLON,
            TokenTypes::INT(10),
            TokenTypes::NOT_EQ,
            TokenTypes::INT(9),
            TokenTypes::SEMICOLON,
            TokenTypes::EOF,
        ]
    );
    assert_eq!(
        kinds("= ! =! !== ===", 8),
        vec![
            TokenTypes::ASSIGN,
            TokenTypes::BANG,
            TokenTypes::ASSIGN,
            TokenTypes::BANG,
            TokenTypes::NOT_EQ,
            TokenTypes::ASSIGN,
            TokenTypes::EQ,
            TokenTypes::ASSIGN,
        ]
    );
}

#[test]
fn equal_literal_text() {
    let mut lexer = Lexer::new("a!=b");
    lexer.next_token();
    let tok = lexer.next_token();
    assert_eq!(tok.tokentype, TokenTypes::NOT_EQ);
    assert_eq!(tok.literal, "!=");
}

#[test]
fn illegal_characters_do_not_stop_scanning() {
    let mut lexer = Lexer::new("a @ _b \u{e9} 1");
    let expected = vec![
        (TokenTypes::IDENT("a".to_string()), "a"),
        (TokenTypes::ILLEGAL, "@"),
        (TokenTypes::ILLEGAL, "_"),
        (TokenTypes::IDENT("b".to_string()), "b"),
        (TokenTypes::ILLEGAL, "\u{e9}"),
        (TokenTypes::INT(1), "1"),
        (TokenTypes::EOF, ""),
    ];
    for (kind, literal) in expected {
        let tok = lexer.next_token();
        assert_eq!(tok.tokentype, kind);
        assert_eq!(tok.literal, literal);
    }
}

#[test]
fn identifiers_stop_at_digits() {
    assert_eq!(
        kinds("abc123 letx", 4),
        vec![
            TokenTypes::IDENT("abc".to_string()),
            TokenTypes::INT(123),
            TokenTypes::IDENT("letx".to_string()),
            TokenTypes::EOF,
        ]
    );
}

#[test]
fn keywords() {
    assert_eq!(
        kinds("fn let true false if else return Let", 9),
        vec![
            TokenTypes::FUNCTION,
            TokenTypes::LET,
            TokenTypes::TRUE,
            TokenTypes::FALSE,
            TokenTypes::IF,
            TokenTypes::ELSE,
            TokenTypes::RETURN,
            TokenTypes::IDENT("Let".to_string()),
            TokenTypes::EOF,
        ]
    );
}

#[test]
fn largest_integer_and_overflow() {
    let mut lexer = Lexer::new("9223372036854775807 9223372036854775808 007");
    assert_eq!(lexer.next_token().tokentype, TokenTypes::INT(i64::MAX));
    let tok = lexer.next_token();
    assert_eq!(tok.tokentype, TokenTypes::ILLEGAL);
    assert_eq!(tok.literal, "9223372036854775808");
    assert_eq!(lexer.next_token().tokentype, TokenTypes::INT(7));
    assert_eq!(lexer.next_token().tokentype, TokenTypes::EOF);
}
