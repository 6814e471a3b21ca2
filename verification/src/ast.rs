//! The syntax tree of the language.
use vstd::prelude::*;

use crate::token::{Token, TokenView};

verus! {

/// An expression.
#[derive(Debug, PartialEq)]
pub enum Expr {
    Literal(Token),
    Comparison(Box<Expr>, Token, Box<Expr>),
    Addition(Box<Expr>, Box<Expr>),
    Subtraction(Box<Expr>, Box<Expr>),
    Multiplication(Box<Expr>, Box<Expr>),
    Division(Box<Expr>, Box<Expr>),
}

/// A statement.
#[derive(Debug)]
pub enum Statement {
    LET(String, Expr),
    ASSIGN(String, Expr),
    Expr(Expr),
    IF(Expr, Vec<Statement>),
    WHILE(Expr, Vec<Statement>),
}

/// The value an [`Expr`] stands for.
pub enum ExprView {
    Literal(TokenView),
    Comparison(Box<ExprView>, TokenView, Box<ExprView>),
    Addition(Box<ExprView>, Box<ExprView>),
    Subtraction(Box<ExprView>, Box<ExprView>),
    Multiplication(Box<ExprView>, Box<ExprView>),
    Division(Box<ExprView>, Box<ExprView>),
}

/// The value a [`Statement`] stands for.
pub enum StmtView {
    LET(Seq<char>, ExprView),
    ASSIGN(Seq<char>, ExprView),
    Expr(ExprView),
    IF(ExprView, Seq<StmtView>),
    WHILE(ExprView, Seq<StmtView>),
}

/// The value of the expression `e`.
pub open spec fn expr_view(e: Expr) -> ExprView
    decreases e,
{
    match e {
        Expr::Literal(t) => ExprView::Literal(t@),
        Expr::Comparison(l, op, r) => ExprView::Comparison(
            Box::new(expr_view(*l)),
            op@,
            Box::new(expr_view(*r)),
        ),
        Expr::Addition(l, r) => ExprView::Addition(Box::new(expr_view(*l)), Box::new(expr_view(*r))),
        Expr::Subtraction(l, r) => ExprView::Subtraction(
            Box::new(expr_view(*l)),
            Box::new(expr_view(*r)),
        ),
        Expr::Multiplication(l, r) => ExprView::Multiplication(
            Box::new(expr_view(*l)),
            Box::new(expr_view(*r)),
        ),
        Expr::Division(l, r) => ExprView::Division(Box::new(expr_view(*l)), Box::new(expr_view(*r))),
    }
}

/// The value of the statement `s`.
pub open spec fn stmt_view(s: Statement) -> StmtView
    decreases s,
{
    match s {
        Statement::LET(name, e) => StmtView::LET(name@, expr_view(e)),
        Statement::ASSIGN(name, e) => StmtView::ASSIGN(name@, expr_view(e)),
        Statement::Expr(e) => StmtView::Expr(expr_view(e)),
        Statement::IF(c, body) => StmtView::IF(expr_view(c), block_view(body@)),
        Statement::WHILE(c, body) => StmtView::WHILE(expr_view(c), block_view(body@)),
    }
}

/// The values of the statements `b`.
pub open spec fn block_view(b: Seq<Statement>) -> Seq<StmtView>
    decreases b,
{
    if b.len() == 0 {
        Seq::empty()
    } else {
        block_view(b.subrange(0, b.len() - 1)).push(stmt_view(b[b.len() - 1]))
    }
}

/// `block_view` takes each statement to its value, in order.
pub proof fn lemma_block_view(b: Seq<Statement>)
    ensures
        block_view(b).len() == b.len(),
        forall|i: int| 0 <= i < b.len() ==> #[trigger] block_view(b)[i] == stmt_view(b[i]),
    decreases b.len(),
{
    if b.len() > 0 {
        let init = b.subrange(0, b.len() - 1);
        lemma_block_view(init);
        assert forall|i: int| 0 <= i < b.len() implies #[trigger] block_view(b)[i] == stmt_view(
            b[i],
        ) by {
            if i < b.len() - 1 {
                assert(init[i] == b[i]);
            }
        }
    }
}

impl View for Expr {
    type V = ExprView;

    open spec fn view(&self) -> ExprView {
        expr_view(*self)
    }
}

impl View for Statement {
    type V = StmtView;

    open spec fn view(&self) -> StmtView {
        stmt_view(*self)
    }
}

} // verus!
