use monkey_lib::ast::{Expression, Ident, Prefix, Statement};
use monkey_lib::lexer::token::TokenTypes;
use monkey_lib::lexer::Lexer;
use monkey_lib::parser::{ParseErrorType, Parser};

fn check_parse_errors(parser: &mut Parser) {
    let errors = parser.errors().clone();

    if errors.len() == 0 {
        return;
    }

    println!("\n");

    println!("parser has {} errors", errors.len());

    for err in errors {
        println!("parse error: {:?}", err);
    }

    println!("\n");

    panic!("failed");
}

#[test]
fn test_parser_let() {
    let input = "
            let x = 5;
            let y = 10;
            let foobar = 838383;";
    let lexer = Lexer::new(input);
    let mut parser = Parser::new(lexer);

    let program = parser.parse_program();
    check_parse_errors(&mut parser);

    assert_eq!(program.len(), 3);

    assert_eq!(vec![
            Statement::Let(Ident(String::from("x")), Expression::Ident(Ident(String::from("")))),
            Statement::Let(Ident(String::from("y")), Expression::Ident(Ident(String::from("")))),
            Statement::Let(
                Ident(String::from("foobar")),
                Expression::Ident(Ident(String::from("")))
            ),
        ], program);
}

#[test]
fn test_parser_return() {
    let input = "
            return 5;
            return 10;
            return 838383;";
    let lexer = Lexer::new(input);
    let mut parser = Parser::new(lexer);

    let program = parser.parse_program();
    check_parse_errors(&mut parser);

    assert_eq!(program.len(), 3);

    assert_eq!(vec![
            Statement::Return(Expression::Ident(Ident(String::from("")))),
            Statement::Return(Expression::Ident(Ident(String::from("")))),
            Statement::Return(Expression::Ident(Ident(String::from("")))
            ),
        ], program);
}

#[test]
fn test_identifier_expression() {
    let input = "foobar;";
    let lexer = Lexer::new(input);
    let mut parser = Parser::new(lexer);

    let program = parser.parse_program();
    check_parse_errors(&mut parser);

    assert_eq!(program.len(), 1);

    assert_eq!(vec![
            Statement::Expression(Expression::Ident(Ident(String::from("foobar")))),
        ], program);
}

#[test]
fn test_integer_literal() {
    let input = "5;";
    let lexer = Lexer::new(input);
    let mut parser = Parser::new(lexer);

    let program = parser.parse_program();
    check_parse_errors(&mut parser);

    assert_eq!(program.len(), 1);

    assert_eq!(vec![
            Statement::Expression(Expression::IntegerLiteral(5)),
        ], program);
}

#[test]
fn test_parse_prefix_expression() {
    let tests = vec![
        (
            "!5;",
            Statement::Expression(Expression::Prefix(Prefix::Not, Box::new(Expression::IntegerLiteral(5)))),
        ),
        (
            "-15;",
            Statement::Expression(Expression::Prefix(Prefix::Minus, Box::new(Expression::IntegerLiteral(15)))),
        )
    ];

    for (input, expect) in tests {
        let mut parser = Parser::new(Lexer::new(input));
        let program = parser.parse_program();

        check_parse_errors(&mut parser);
        assert_eq!(vec![expect], program);
    }
}

fn parse(input: &str) -> (Vec<Statement>, Vec<ParseErrorType>) {
    let mut parser = Parser::new(Lexer::new(input));
    let program = parser.parse_program();
    let errors = parser.errors().iter().map(|e| e.error_type).collect();
    (program, errors)
}

fn placeholder() -> Expression {
    Expression::Ident(Ident(String::from("")))
}

#[test]
fn let_statements_have_names_and_no_errors() {
    let (program, errors) = parse("let x = 5; let y = 10; let foobar = 838383;");
    assert!(errors.is_empty());
    assert_eq!(
        program,
        vec![
            Statement::Let(Ident(String::from("x")), placeholder()),
            Statement::Let(Ident(String::from("y")), placeholder()),
            Statement::Let(Ident(String::from("foobar")), placeholder()),
        ]
    );
}

#[test]
fn two_return_statements() {
    let (program, errors) = parse("return 5; return 10;");
    assert!(errors.is_empty());
    assert_eq!(program, vec![Statement::Return(placeholder()), Statement::Return(placeholder())]);
}

#[test]
fn empty_and_blank_programs() {
    for input in ["", "   \n\t "] {
        let (program, errors) = parse(input);
        assert!(program.is_empty());
        assert!(errors.is_empty());
    }
}

#[test]
fn let_without_name_reports_and_returns() {
    let mut parser = Parser::new(Lexer::new("let = 5;"));
    let program = parser.parse_program();
    let errors = parser.errors();
    assert!(!errors.is_empty());
    assert_eq!(errors[0].error_type, ParseErrorType::MissingIdentifier);
    assert_eq!(errors[0].token.tokentype, TokenTypes::ASSIGN);
    assert_eq!(errors[1].error_type, ParseErrorType::NoPrefixParseFn);
    assert_eq!(errors.len(), 2);
    assert_eq!(program, vec![Statement::Expression(Expression::IntegerLiteral(5))]);
}

#[test]
fn let_without_assign_reports_expected_kind() {
    let mut parser = Parser::new(Lexer::new("let x 5;"));
    let program = parser.parse_program();
    let errors = parser.errors();
    assert_eq!(errors[0].error_type, ParseErrorType::UnexpectedToken);
    assert_eq!(errors[0].expected, Some(TokenTypes::ASSIGN));
    assert_eq!(errors[0].token.tokentype, TokenTypes::INT(5));
    assert_eq!(errors.len(), 1);
    assert_eq!(program, vec![Statement::Expression(Expression::IntegerLiteral(5))]);
}

#[test]
fn unterminated_statements_end_at_eof() {
    let (program, errors) = parse("let a = 1 + 2");
    assert!(errors.is_empty());
    assert_eq!(program, vec![Statement::Let(Ident(String::from("a")), placeholder())]);
    let (program, errors) = parse("return");
    assert!(errors.is_empty());
    assert_eq!(program, vec![Statement::Return(placeholder())]);
}

#[test]
fn expression_without_semicolon() {
    let (program, errors) = parse("foobar");
    assert!(errors.is_empty());
    assert_eq!(program, vec![Statement::Expression(Expression::Ident(Ident(String::from("foobar"))))]);
}

#[test]
fn nested_prefix_expression() {
    let (program, errors) = parse("!-x;");
    assert!(errors.is_empty());
    assert_eq!(
        program,
        vec![Statement::Expression(Expression::Prefix(
            Prefix::Not,
            Box::new(Expression::Prefix(
                Prefix::Minus,
                Box::new(Expression::Ident(Ident(String::from("x"))))
            ))
        ))]
    );
}

#[test]
fn prefix_without_operand_reports() {
    let (program, errors) = parse("-;");
    assert!(program.is_empty());
    assert_eq!(errors, vec![ParseErrorType::NoPrefixParseFn]);
}

#[test]
fn no_prefix_parse_function() {
    let mut parser = Parser::new(Lexer::new("+; x;"));
    let program = parser.parse_program();
    assert_eq!(parser.errors().len(), 1);
    assert_eq!(parser.errors()[0].error_type, ParseErrorType::NoPrefixParseFn);
    assert_eq!(parser.errors()[0].token.tokentype, TokenTypes::PLUS);
    assert_eq!(program, vec![Statement::Expression(Expression::Ident(Ident(String::from("x"))))]);
}

#[test]
fn integer_out_of_range() {
    let (program, errors) = parse("99999999999999999999; 9223372036854775807;");
    assert_eq!(errors, vec![ParseErrorType::IntegerOutOfRange]);
    assert_eq!(program, vec![Statement::Expression(Expression::IntegerLiteral(i64::MAX))]);
}

#[test]
fn parsing_is_deterministic() {
    let input = "let a = 1; return a; !b; -3; + 4; let = 2;";
    let (p1, e1) = parse(input);
    let (p2, e2) = parse(input);
    assert_eq!(p1, p2);
    assert_eq!(e1, e2);
    assert_eq!(e1.len(), 3);
}

#[test]
fn parser_window_starts_on_first_tokens() {
    let mut parser = Parser::new(Lexer::new("x y"));
    parser.next_token();
    let program = parser.parse_program();
    assert_eq!(program, vec![Statement::Expression(Expression::Ident(Ident(String::from("y"))))]);
}
