use vstd::prelude::*;

verus! {

pub type Program = Vec<Statement>;

#[derive(PartialEq, Debug)]
pub enum Statement {
    Let(Ident, Expression),
    Return(Expression),
    Expression(Expression),
}

#[derive(PartialEq, Clone, Copy, Debug)]
pub enum Prefix {
    Not,
    Minus,
}

#[derive(PartialEq, Debug, Eq, Clone)]
pub struct Ident(pub String);

#[derive(PartialEq, Debug)]
pub enum Expression {
    Ident(Ident),
    IntegerLiteral(i64),
    Prefix(Prefix, Box<Expression>),
}

/// Binding strength of operators, weakest first.
#[derive(PartialEq, PartialOrd, Debug, Clone)]
pub enum Precedence {
    Lowest,
    Equals,
    LessGreater,
    Sum,
    Product,
    Prefix,
    Call,
    Index,
}

/// Mathematical value of an expression: names are character sequences.
pub enum ExprView {
    Ident(Seq<char>),
    IntegerLiteral(i64),
    Prefix(Prefix, Box<ExprView>),
}

/// Mathematical value of a statement.
pub enum StmtView {
    Let(Seq<char>, ExprView),
    Return(ExprView),
    Expression(ExprView),
}

pub open spec fn expr_view(e: &Expression) -> ExprView
    decreases e,
{
    match e {
        Expression::Ident(id) => ExprView::Ident(id.0@),
        Expression::IntegerLiteral(v) => ExprView::IntegerLiteral(*v),
        Expression::Prefix(op, inner) => ExprView::Prefix(*op, Box::new(expr_view(inner))),
    }
}

impl View for Expression {
    type V = ExprView;

    open spec fn view(&self) -> ExprView {
        expr_view(self)
    }
}

impl View for Statement {
    type V = StmtView;

    open spec fn view(&self) -> StmtView {
        match self {
            Statement::Let(id, e) => StmtView::Let(id.0@, e@),
            Statement::Return(e) => StmtView::Return(e@),
            Statement::Expression(e) => StmtView::Expression(e@),
        }
    }
}

pub open spec fn opt_expr_view(o: Option<Expression>) -> Option<ExprView> {
    match o {
        Some(e) => Some(e@),
        None => None,
    }
}

pub open spec fn opt_stmt_view(o: Option<Statement>) -> Option<StmtView> {
    match o {
        Some(st) => Some(st@),
        None => None,
    }
}

/// Mathematical value of a program: its statements in order.
pub open spec fn program_view(p: Program) -> Seq<StmtView> {
    p@.map_values(|st: Statement| st@)
}

} // verus!
