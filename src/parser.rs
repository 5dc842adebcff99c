use vstd::prelude::*;
use crate::ast::{
    ExprView, Expression, Ident, Precedence, Prefix, Program, Statement, StmtView,
    opt_expr_view, opt_stmt_view, program_view,
};
use crate::lexer::{
    Lexer, is_digit, is_space, lemma_blank_input_is_eof, lemma_eof_repeats, lemma_lex_progress, lex,
};
use crate::lexer::token::{Token, TokenKind, TokenTypes, TokenView};

verus! {

#[derive(Clone, Copy, Debug, PartialEq, Eq)]
pub enum ParseErrorType {
    /// The next token was not the one the grammar asks for.
    UnexpectedToken,
    /// `let` was not followed by a name.
    MissingIdentifier,
    /// No expression can start with the current token.
    NoPrefixParseFn,
    /// An integer literal does not fit in an `i64`.
    IntegerOutOfRange,
}

/// A diagnostic: what went wrong, the kind that was expected if any, and the token found.
#[derive(Clone, Debug)]
pub struct ParseError {
    pub error_type: ParseErrorType,
    pub expected: Option<TokenTypes>,
    pub token: Token,
}

pub struct ErrorView {
    pub error_type: ParseErrorType,
    pub expected: Option<TokenKind>,
    pub token: TokenView,
}

impl View for ParseError {
    type V = ErrorView;

    open spec fn view(&self) -> ErrorView {
        ErrorView {
            error_type: self.error_type,
            expected: match self.expected {
                Some(k) => Some(k@),
                None => None,
            },
            token: self.token@,
        }
    }
}

/// State of a parser: the scanner, the two-token window and the diagnostics so far.
pub struct ParserView {
    pub lexer: (Seq<char>, nat),
    pub cur: TokenView,
    pub peek: TokenView,
    pub errors: Seq<ErrorView>,
}

pub open spec fn eof_token() -> TokenView {
    TokenView { kind: TokenKind::Eof, literal: seq![] }
}

/// Shifts the window by one token, pulling the next one from the scanner.
pub open spec fn advance(p: ParserView) -> ParserView {
    let (t, next) = lex(p.lexer.0, p.lexer.1);
    ParserView { lexer: (p.lexer.0, next), cur: p.peek, peek: t, errors: p.errors }
}

/// A fresh parser over a scanner: the window holds its first two tokens.
pub open spec fn start(l: (Seq<char>, nat)) -> ParserView {
    advance(advance(ParserView { lexer: l, cur: eof_token(), peek: eof_token(), errors: seq![] }))
}

pub open spec fn with_error(p: ParserView, e: ErrorView) -> ParserView {
    ParserView { errors: p.errors.push(e), ..p }
}

pub open spec fn remaining(p: ParserView) -> nat {
    if p.lexer.1 <= p.lexer.0.len() {
        (p.lexer.0.len() - p.lexer.1) as nat
    } else {
        0
    }
}

pub open spec fn live(t: TokenView) -> nat {
    if t.kind is Eof {
        0
    } else {
        1
    }
}

/// Bounds the work left: no step raises it, and a shift off a window that holds
/// a token other than `EOF` lowers it.
pub open spec fn measure(p: ParserView) -> nat {
    3 * remaining(p) + 2 * live(p.peek) + live(p.cur)
}

pub proof fn lemma_advance_measure(p: ParserView)
    ensures
        measure(advance(p)) <= measure(p),
        !(p.cur.kind is Eof) || !(p.peek.kind is Eof) ==> measure(advance(p)) < measure(p),
{
    lemma_lex_progress(p.lexer.0, p.lexer.1);
}

/// Drops tokens up to the `;` that ends the statement, or to the end of the input.
pub open spec fn skip_statement(p: ParserView) -> ParserView
    decreases measure(p),
{
    if p.cur.kind is Semicolon || p.cur.kind is Eof {
        p
    } else {
        proof {
            lemma_advance_measure(p);
        }
        skip_statement(advance(p))
    }
}

/// The value that `let` and `return` statements hold: their expressions are skipped.
pub open spec fn placeholder() -> ExprView {
    ExprView::Ident(seq![])
}

pub open spec fn spec_parse_let(p: ParserView) -> (Option<StmtView>, ParserView) {
    if p.peek.kind is Ident {
        let p1 = advance(p);
        if p1.peek.kind is Assign {
            (Some(StmtView::Let(p1.cur.literal, placeholder())), skip_statement(advance(p1)))
        } else {
            (
                None,
                with_error(
                    p1,
                    ErrorView {
                        error_type: ParseErrorType::UnexpectedToken,
                        expected: Some(TokenKind::Assign),
                        token: p1.peek,
                    },
                ),
            )
        }
    } else {
        (
            None,
            with_error(
                p,
                ErrorView {
                    error_type: ParseErrorType::MissingIdentifier,
                    expected: None,
                    token: p.peek,
                },
            ),
        )
    }
}

pub open spec fn spec_parse_return(p: ParserView) -> (Option<StmtView>, ParserView) {
    (Some(StmtView::Return(placeholder())), skip_statement(advance(p)))
}

/// Whether a token is a run of digits too large for an `i64`.
pub open spec fn is_oversized_integer(t: TokenView) -> bool {
    t.kind is Illegal && t.literal.len() > 0 && is_digit(t.literal[0])
}

/// Parses the expression that starts at the current token; the window ends on its
/// last token.
pub open spec fn spec_parse_expression(p: ParserView) -> (Option<ExprView>, ParserView)
    decreases measure(p),
{
    if p.cur.kind is Ident {
        (Some(ExprView::Ident(p.cur.literal)), p)
    } else if p.cur.kind is Int {
        (Some(ExprView::IntegerLiteral(p.cur.kind->Int_0)), p)
    } else if p.cur.kind is Bang || p.cur.kind is Minus {
        let op = if p.cur.kind is Bang {
            Prefix::Not
        } else {
            Prefix::Minus
        };
        proof {
            lemma_advance_measure(p);
        }
        let (r, q) = spec_parse_expression(advance(p));
        match r {
            Some(e) => (Some(ExprView::Prefix(op, Box::new(e))), q),
            None => (None, q),
        }
    } else {
        let error_type = if is_oversized_integer(p.cur) {
            ParseErrorType::IntegerOutOfRange
        } else {
            ParseErrorType::NoPrefixParseFn
        };
        (None, with_error(p, ErrorView { error_type, expected: None, token: p.cur }))
    }
}

pub open spec fn spec_parse_expression_statement(p: ParserView) -> (Option<StmtView>, ParserView) {
    let (e, p1) = spec_parse_expression(p);
    let p2 = if p1.peek.kind is Semicolon {
        advance(p1)
    } else {
        p1
    };
    match e {
        Some(x) => (Some(StmtView::Expression(x)), p2),
        None => (None, p2),
    }
}

pub open spec fn spec_parse_statement(p: ParserView) -> (Option<StmtView>, ParserView) {
    if p.cur.kind is Let {
        spec_parse_let(p)
    } else if p.cur.kind is Return {
        spec_parse_return(p)
    } else {
        spec_parse_expression_statement(p)
    }
}

pub open spec fn option_seq(o: Option<StmtView>) -> Seq<StmtView> {
    match o {
        Some(st) => seq![st],
        None => seq![],
    }
}

/// Parses statements until the current token is `EOF`. A statement that fails to parse
/// is left out; its diagnostics stay. After each statement the window shifts once.
pub open spec fn spec_parse_program(p: ParserView) -> (Seq<StmtView>, ParserView)
    decreases measure(p),
{
    if p.cur.kind is Eof {
        (seq![], p)
    } else {
        let (st, p1) = spec_parse_statement(p);
        let p2 = advance(p1);
        proof {
            lemma_statement_measure(p);
            lemma_advance_measure(p1);
        }
        let (rest, p3) = if p2.cur.kind is Eof {
            (seq![], p2)
        } else {
            spec_parse_program(p2)
        };
        (option_seq(st) + rest, p3)
    }
}

/// The statements and the diagnostics that parsing the text `s` gives.
pub open spec fn parse_text(s: Seq<char>) -> (Seq<StmtView>, Seq<ErrorView>) {
    let (prog, q) = spec_parse_program(start((s, 0)));
    (prog, q.errors)
}

proof fn lemma_skip_measure(p: ParserView)
    ensures
        measure(skip_statement(p)) <= measure(p),
    decreases measure(p),
{
    if !(p.cur.kind is Semicolon || p.cur.kind is Eof) {
        lemma_advance_measure(p);
        lemma_skip_measure(advance(p));
    }
}

proof fn lemma_expression_measure(p: ParserView)
    ensures
        measure(spec_parse_expression(p).1) <= measure(p),
    decreases measure(p),
{
    if p.cur.kind is Bang || p.cur.kind is Minus {
        lemma_advance_measure(p);
        lemma_expression_measure(advance(p));
    }
}

pub proof fn lemma_statement_measure(p: ParserView)
    ensures
        measure(spec_parse_statement(p).1) <= measure(p),
{
    lemma_advance_measure(p);
    lemma_advance_measure(advance(p));
    lemma_skip_measure(advance(p));
    lemma_skip_measure(advance(advance(p)));
    lemma_expression_measure(p);
    lemma_advance_measure(spec_parse_expression(p).1);
}

/// A text made of whitespace alone parses to no statements and no diagnostics.
pub proof fn lemma_blank_text_parses_empty(s: Seq<char>)
    requires
        forall|k: int| 0 <= k < s.len() ==> is_space(#[trigger] s[k]),
    ensures
        parse_text(s) == (Seq::<StmtView>::empty(), Seq::<ErrorView>::empty()),
{
    lemma_blank_input_is_eof(s);
    lemma_eof_repeats(s, 0);
}

/// Parsing is deterministic: two fresh parsers over the same text give the same
/// statements, the same diagnostics and the same final state.
pub proof fn lemma_parse_deterministic(s: Seq<char>, a: ParserView, b: ParserView)
    requires
        a == start((s, 0)),
        b == start((s, 0)),
    ensures
        spec_parse_program(a) == spec_parse_program(b),
        parse_text(s) == (spec_parse_program(a).0, spec_parse_program(a).1.errors),
{
}

/// A `let` that is not followed by a name gives no statement and records exactly one
/// diagnostic, which names the token found in its place.
pub proof fn lemma_let_without_name_reports(p: ParserView)
    requires
        p.cur.kind is Let,
        !(p.peek.kind is Ident),
    ensures
        spec_parse_statement(p).0 is None,
        spec_parse_statement(p).1.errors == p.errors.push(
            ErrorView {
                error_type: ParseErrorType::MissingIdentifier,
                expected: None,
                token: p.peek,
            },
        ),
{
}

/// `a` is an initial part of `b`.
pub open spec fn extends(a: Seq<ErrorView>, b: Seq<ErrorView>) -> bool {
    a.len() <= b.len() && forall|i: int| 0 <= i < a.len() ==> a[i] == #[trigger] b[i]
}

proof fn lemma_skip_keeps_errors(p: ParserView)
    ensures
        skip_statement(p).errors == p.errors,
    decreases measure(p),
{
    if !(p.cur.kind is Semicolon || p.cur.kind is Eof) {
        lemma_advance_measure(p);
        lemma_skip_keeps_errors(advance(p));
    }
}

proof fn lemma_expression_extends_errors(p: ParserView)
    ensures
        extends(p.errors, spec_parse_expression(p).1.errors),
    decreases measure(p),
{
    if p.cur.kind is Bang || p.cur.kind is Minus {
        lemma_advance_measure(p);
        lemma_expression_extends_errors(advance(p));
    }
}

proof fn lemma_statement_extends_errors(p: ParserView)
    ensures
        extends(p.errors, spec_parse_statement(p).1.errors),
{
    lemma_skip_keeps_errors(advance(p));
    lemma_skip_keeps_errors(advance(advance(p)));
    lemma_expression_extends_errors(p);
}

/// Diagnostics are only ever appended: parsing a program keeps those recorded before
/// it, in their order, at the front of the list.
pub proof fn lemma_errors_append_only(p: ParserView)
    ensures
        extends(p.errors, spec_parse_program(p).1.errors),
    decreases measure(p),
{
    if !(p.cur.kind is Eof) {
        let p1 = spec_parse_statement(p).1;
        lemma_statement_extends_errors(p);
        lemma_statement_measure(p);
        lemma_advance_measure(p1);
        if !(advance(p1).cur.kind is Eof) {
            lemma_errors_append_only(advance(p1));
        }
    }
}

/// A copy of a token kind.
fn copy_kind(k: &TokenTypes) -> (r: TokenTypes)
    ensures
        r@ == k@,
{
    match k {
        TokenTypes::IDENT(name) => TokenTypes::IDENT(name.clone()),
        TokenTypes::INT(v) => TokenTypes::INT(*v),
        TokenTypes::ILLEGAL => TokenTypes::ILLEGAL,
        TokenTypes::EOF => TokenTypes::EOF,
        TokenTypes::ASSIGN => TokenTypes::ASSIGN,
        TokenTypes::PLUS => TokenTypes::PLUS,
        TokenTypes::MINUS => TokenTypes::MINUS,
        TokenTypes::SLASH => TokenTypes::SLASH,
        TokenTypes::ASTERISK => TokenTypes::ASTERISK,
        TokenTypes::BANG => TokenTypes::BANG,
        TokenTypes::EQ => TokenTypes::EQ,
        TokenTypes::NOT_EQ => TokenTypes::NOT_EQ,
        TokenTypes::COMMA => TokenTypes::COMMA,
        TokenTypes::SEMICOLON => TokenTypes::SEMICOLON,
        TokenTypes::LPAREN => TokenTypes::LPAREN,
        TokenTypes::RPAREN => TokenTypes::RPAREN,
        TokenTypes::LBRACE => TokenTypes::LBRACE,
        TokenTypes::RBRACE => TokenTypes::RBRACE,
        TokenTypes::LT => TokenTypes::LT,
        TokenTypes::GT => TokenTypes::GT,
        TokenTypes::FUNCTION => TokenTypes::FUNCTION,
        TokenTypes::LET => TokenTypes::LET,
        TokenTypes::IF => TokenTypes::IF,
        TokenTypes::ELSE => TokenTypes::ELSE,
        TokenTypes::RETURN => TokenTypes::RETURN,
        TokenTypes::TRUE => TokenTypes::TRUE,
        TokenTypes::FALSE => TokenTypes::FALSE,
    }
}

/// A copy of a token.
fn copy_token(t: &Token) -> (r: Token)
    ensures
        r@ == t@,
{
    Token { tokentype: copy_kind(&t.tokentype), literal: t.literal.clone() }
}

/// Whether a text starts with a decimal digit.
fn starts_with_digit(text: &String) -> (r: bool)
    ensures
        r == (text@.len() > 0 && is_digit(text@[0])),
{
    let s = text.as_str();
    if s.unicode_len() == 0 {
        false
    } else {
        let c = s.get_char(0);
        '0' <= c && c <= '9'
    }
}

impl ParseError {
    fn new(error_type: ParseErrorType, expected: Option<TokenTypes>, token: Token) -> (r: Self)
        ensures
            r.error_type == error_type,
            r.expected == expected,
            r.token == token,
    {
        ParseError { error_type, expected, token }
    }
}

/// A parser over the tokens of one scanner, with a window of two tokens.
#[derive(Debug)]
pub struct Parser {
    lexer: Lexer,
    cur_token: Token,
    peek_token: Token,
    errors: Vec<ParseError>,
}

impl View for Parser {
    type V = ParserView;

    closed spec fn view(&self) -> ParserView {
        ParserView {
            lexer: self.lexer@,
            cur: self.cur_token@,
            peek: self.peek_token@,
            errors: self.errors@.map_values(|e: ParseError| e@),
        }
    }
}

impl Parser {
    pub closed spec fn wf(&self) -> bool {
        self.lexer.wf()
    }

    /// A parser whose window holds the first two tokens of `input`.
    pub fn new(input: Lexer) -> (r: Self)
        requires
            input.wf(),
        ensures
            r.wf(),
            r@ == start(input@),
    {
        let mut parser = Parser {
            cur_token: Token { literal: String::new(), tokentype: TokenTypes::EOF },
            peek_token: Token { literal: String::new(), tokentype: TokenTypes::EOF },
            lexer: input,
            errors: Vec::new(),
        };
        assert(parser.errors@.map_values(|e: ParseError| e@) =~= Seq::<ErrorView>::empty());
        parser.next_token();
        parser.next_token();
        parser
    }

    /// The diagnostics recorded so far, oldest first.
    pub fn errors(&self) -> (r: &Vec<ParseError>)
        ensures
            r@.map_values(|e: ParseError| e@) == self@.errors,
    {
        &self.errors
    }

    /// Shifts the window by one token.
    pub fn next_token(&mut self)
        requires
            old(self).wf(),
        ensures
            final(self).wf(),
            final(self)@ == advance(old(self)@),
    {
        let mut t = self.lexer.next_token();
        std::mem::swap(&mut self.peek_token, &mut t);
        self.cur_token = t;
    }

    fn push_error(&mut self, e: ParseError)
        requires
            old(self).wf(),
        ensures
            final(self).wf(),
            final(self)@ == with_error(old(self)@, e@),
    {
        let ghost before = self.errors@;
        self.errors.push(e);
        assert(self.errors@.map_values(|e: ParseError| e@) =~= before.map_values(
            |e: ParseError| e@,
        ).push(e@));
    }

    /// Parses the statements up to the end of the input. Statements that fail to parse
    /// are left out, and their diagnostics are kept.
    pub fn parse_program(&mut self) -> (r: Program)
        requires
            old(self).wf(),
        ensures
            final(self).wf(),
            program_view(r) == spec_parse_program(old(self)@).0,
            final(self)@ == spec_parse_program(old(self)@).1,
    {
        let mut statements: Vec<Statement> = Vec::new();
        let ghost p0 = self@;
        if self.cur_token_is(TokenTypes::EOF) {
            assert(program_view(statements) =~= Seq::<StmtView>::empty());
            return statements;
        }
        loop
            invariant_except_break
                !(self@.cur.kind is Eof),
            invariant
                self.wf(),
                program_view(statements) + spec_parse_program(self@).0 == spec_parse_program(
                    p0,
                ).0,
                spec_parse_program(self@).1 == spec_parse_program(p0).1,
            ensures
                self.wf(),
                program_view(statements) == spec_parse_program(p0).0,
                self@ == spec_parse_program(p0).1,
            decreases measure(self@),
        {
            let ghost p = self@;
            let ghost before = statements@;
            let st = self.parse_statement();
            let ghost p1 = self@;
            match st {
                Some(x) => {
                    statements.push(x);
                },
                None => {},
            }
            assert(program_view(statements) =~= before.map_values(|st: Statement| st@)
                + option_seq(opt_stmt_view(st)));
            self.next_token();
            proof {
                lemma_statement_measure(p);
                lemma_advance_measure(p1);
            }
            if self.cur_token_is(TokenTypes::EOF) {
                assert(program_view(statements) =~= program_view(statements) + Seq::<
                    StmtView,
                >::empty());
                break;
            }
            assert((program_view(statements) + spec_parse_program(self@).0) =~= (before.map_values(
                |st: Statement| st@,
            ) + spec_parse_program(p).0));
        }
        statements
    }

    fn parse_statement(&mut self) -> (r: Option<Statement>)
        requires
            old(self).wf(),
        ensures
            final(self).wf(),
            (opt_stmt_view(r), final(self)@) == spec_parse_statement(old(self)@),
    {
        match self.cur_token.tokentype {
            TokenTypes::LET => self.parse_let(),
            TokenTypes::RETURN => self.parse_return(),
            _ => self.parse_expression_statement(),
        }
    }

    /// Moves on to the `;` that ends the statement, or to the end of the input.
    fn skip_to_semicolon(&mut self)
        requires
            old(self).wf(),
        ensures
            final(self).wf(),
            final(self)@ == skip_statement(old(self)@),
    {
        while !self.cur_token_is(TokenTypes::SEMICOLON) && !self.cur_token_is(TokenTypes::EOF)
            invariant
                self.wf(),
                skip_statement(self@) == skip_statement(old(self)@),
            decreases measure(self@),
        {
            proof {
                lemma_advance_measure(self@);
            }
            self.next_token();
        }
    }

    fn parse_let(&mut self) -> (r: Option<Statement>)
        requires
            old(self).wf(),
        ensures
            final(self).wf(),
            (opt_stmt_view(r), final(self)@) == spec_parse_let(old(self)@),
    {
        match self.peek_token.tokentype {
            TokenTypes::IDENT(_) => self.next_token(),
            _ => {
                let token = copy_token(&self.peek_token);
                self.push_error(ParseError::new(ParseErrorType::MissingIdentifier, None, token));
                return None;
            },
        }
        let ident = Ident(self.cur_token.literal.clone());
        if !self.expect_peek(TokenTypes::ASSIGN) {
            return None;
        }
        self.skip_to_semicolon();
        let value = Expression::Ident(Ident(String::new()));
        assert(value@ == placeholder());
        Some(Statement::Let(ident, value))
    }

    fn parse_return(&mut self) -> (r: Option<Statement>)
        requires
            old(self).wf(),
        ensures
            final(self).wf(),
            (opt_stmt_view(r), final(self)@) == spec_parse_return(old(self)@),
    {
        self.next_token();
        self.skip_to_semicolon();
        let value = Expression::Ident(Ident(String::new()));
        assert(value@ == placeholder());
        Some(Statement::Return(value))
    }

    fn parse_expression_statement(&mut self) -> (r: Option<Statement>)
        requires
            old(self).wf(),
        ensures
            final(self).wf(),
            (opt_stmt_view(r), final(self)@) == spec_parse_expression_statement(old(self)@),
    {
        let expression = self.parse_exression(Precedence::Lowest);
        if self.peek_token_is(&TokenTypes::SEMICOLON) {
            self.next_token();
        }
        match expression {
            Some(e) => Some(Statement::Expression(e)),
            None => None,
        }
    }

    /// Parses the expression that starts at the current token. Only prefix forms exist,
    /// so the binding strength that is passed in has no effect.
    fn parse_exression(&mut self, _precedence: Precedence) -> (r: Option<Expression>)
        requires
            old(self).wf(),
        ensures
            final(self).wf(),
            (opt_expr_view(r), final(self)@) == spec_parse_expression(old(self)@),
        decreases measure(old(self)@), 1nat,
    {
        match &self.cur_token.tokentype {
            TokenTypes::IDENT(_) => {
                return Some(Expression::Ident(Ident(self.cur_token.literal.clone())));
            },
            TokenTypes::INT(v) => {
                return Some(Expression::IntegerLiteral(*v));
            },
            _ => {},
        }
        match self.cur_token.tokentype {
            TokenTypes::BANG | TokenTypes::MINUS => self.parse_prefix_expression(),
            _ => {
                let error_type = if matches!(self.cur_token.tokentype, TokenTypes::ILLEGAL)
                    && starts_with_digit(&self.cur_token.literal) {
                    ParseErrorType::IntegerOutOfRange
                } else {
                    ParseErrorType::NoPrefixParseFn
                };
                let token = copy_token(&self.cur_token);
                self.push_error(ParseError::new(error_type, None, token));
                None
            },
        }
    }

    fn parse_prefix_expression(&mut self) -> (r: Option<Expression>)
        requires
            old(self).wf(),
            old(self)@.cur.kind is Bang || old(self)@.cur.kind is Minus,
        ensures
            final(self).wf(),
            (opt_expr_view(r), final(self)@) == spec_parse_expression(old(self)@),
        decreases measure(old(self)@), 0nat,
    {
        let prefix = match self.cur_token.tokentype {
            TokenTypes::BANG => Prefix::Not,
            _ => Prefix::Minus,
        };
        proof {
            lemma_advance_measure(self@);
        }
        self.next_token();
        let right = self.parse_exression(Precedence::Prefix);
        match right {
            Some(r) => Some(Expression::Prefix(prefix, Box::new(r))),
            None => None,
        }
    }

    /// Shifts the window when the next token has the kind `token_type`; records a
    /// diagnostic otherwise.
    fn expect_peek(&mut self, token_type: TokenTypes) -> (r: bool)
        requires
            old(self).wf(),
        ensures
            final(self).wf(),
            r == (old(self)@.peek.kind == token_type@),
            r ==> final(self)@ == advance(old(self)@),
            !r ==> final(self)@ == with_error(
                old(self)@,
                ErrorView {
                    error_type: ParseErrorType::UnexpectedToken,
                    expected: Some(token_type@),
                    token: old(self)@.peek,
                },
            ),
    {
        if self.peek_token_is(&token_type) {
            self.next_token();
            return true;
        }
        self.peek_error(token_type);
        false
    }

    fn cur_token_is(&self, token_type: TokenTypes) -> (r: bool)
        ensures
            r == (self@.cur.kind == token_type@),
    {
        self.cur_token.tokentype == token_type
    }

    fn peek_token_is(&self, token_type: &TokenTypes) -> (r: bool)
        ensures
            r == (self@.peek.kind == token_type@),
    {
        self.peek_token.tokentype == *token_type
    }

    fn peek_error(&mut self, token_type: TokenTypes)
        requires
            old(self).wf(),
        ensures
            final(self).wf(),
            final(self)@ == with_error(
                old(self)@,
                ErrorView {
                    error_type: ParseErrorType::UnexpectedToken,
                    expected: Some(token_type@),
                    token: old(self)@.peek,
                },
            ),
    {
        let token = copy_token(&self.peek_token);
        self.push_error(ParseError::new(ParseErrorType::UnexpectedToken, Some(token_type), token));
    }
}

} // verus!
