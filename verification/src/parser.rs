//! A recursive-descent parser from tokens to statements.
use vstd::prelude::*;

use crate::ast::{block_view, stmt_view, Expr, ExprView, Statement, StmtView};
use crate::token::{duplicate_tokens, token_views, Token, TokenView};

verus! {

/// The token at `pos`, if any.
pub open spec fn peek_at(toks: Seq<TokenView>, pos: int) -> Option<TokenView> {
    if 0 <= pos < toks.len() {
        Some(toks[pos])
    } else {
        None
    }
}

/// The position after taking one token at `pos`, if there is one.
pub open spec fn after_next(toks: Seq<TokenView>, pos: int) -> int {
    if 0 <= pos < toks.len() {
        pos + 1
    } else {
        pos
    }
}

/// Tokens that stand for themselves as an expression.
pub open spec fn is_literal_token(t: TokenView) -> bool {
    t is Number || t is Str || t is Var
}

/// The comparison operators.
pub open spec fn is_comparison_op(t: TokenView) -> bool {
    t is EQ || t is UNEQ || t is GE || t is LE || t is GT || t is LT
}

/// A primary expression at `pos`, and the position after it.
pub open spec fn primary(toks: Seq<TokenView>, pos: int) -> (Option<ExprView>, int) {
    match peek_at(toks, pos) {
        Some(t) => if is_literal_token(t) {
            (Some(ExprView::Literal(t)), pos + 1)
        } else {
            (None, pos)
        },
        None => (None, pos),
    }
}

/// Continues a product whose left part `acc` ends before `pos`: each `*` or `/`
/// and the primary after it extend it, left to right.
pub open spec fn mul_tail(toks: Seq<TokenView>, pos: int, acc: ExprView) -> (Option<ExprView>, int)
    decreases toks.len() - pos,
{
    match peek_at(toks, pos) {
        Some(TokenView::STAR) => {
            let (r, p) = primary(toks, pos + 1);
            match r {
                Some(r) => mul_tail(toks, p, ExprView::Multiplication(Box::new(acc), Box::new(r))),
                None => (None, p),
            }
        },
        Some(TokenView::SLASH) => {
            let (r, p) = primary(toks, pos + 1);
            match r {
                Some(r) => mul_tail(toks, p, ExprView::Division(Box::new(acc), Box::new(r))),
                None => (None, p),
            }
        },
        _ => (Some(acc), pos),
    }
}

/// A product at `pos`, and the position after it.
pub open spec fn multiplication(toks: Seq<TokenView>, pos: int) -> (Option<ExprView>, int) {
    let (e, p) = primary(toks, pos);
    match e {
        Some(e) => mul_tail(toks, p, e),
        None => (None, p),
    }
}

proof fn lemma_mul_tail_range(toks: Seq<TokenView>, pos: int, acc: ExprView)
    requires
        0 <= pos <= toks.len(),
    ensures
        pos <= mul_tail(toks, pos, acc).1 <= toks.len(),
    decreases toks.len() - pos,
{
    match peek_at(toks, pos) {
        Some(TokenView::STAR) => {
            let (r, p) = primary(toks, pos + 1);
            if let Some(r) = r {
                lemma_mul_tail_range(toks, p, ExprView::Multiplication(Box::new(acc), Box::new(r)));
            }
        },
        Some(TokenView::SLASH) => {
            let (r, p) = primary(toks, pos + 1);
            if let Some(r) = r {
                lemma_mul_tail_range(toks, p, ExprView::Division(Box::new(acc), Box::new(r)));
            }
        },
        _ => {},
    }
}

/// A product consumes at least one token when it succeeds and never runs past
/// the end.
pub proof fn lemma_multiplication_range(toks: Seq<TokenView>, pos: int)
    requires
        0 <= pos <= toks.len(),
    ensures
        pos <= multiplication(toks, pos).1 <= toks.len(),
        multiplication(toks, pos).0 is Some ==> pos < multiplication(toks, pos).1,
{
    let (e, p) = primary(toks, pos);
    if let Some(e) = e {
        lemma_mul_tail_range(toks, p, e);
    }
}

/// Continues a sum whose left part `acc` ends before `pos`: each `+` or `-` and
/// the product after it extend it, left to right.
pub open spec fn add_tail(toks: Seq<TokenView>, pos: int, acc: ExprView) -> (Option<ExprView>, int)
    decreases toks.len() - pos,
{
    if 0 <= pos <= toks.len() {
        match peek_at(toks, pos) {
            Some(TokenView::PLUS) => {
                let (r, p) = multiplication(toks, pos + 1);
                proof {
                    lemma_multiplication_range(toks, pos + 1);
                }
                match r {
                    Some(r) => add_tail(toks, p, ExprView::Addition(Box::new(acc), Box::new(r))),
                    None => (None, p),
                }
            },
            Some(TokenView::MINUS) => {
                let (r, p) = multiplication(toks, pos + 1);
                proof {
                    lemma_multiplication_range(toks, pos + 1);
                }
                match r {
                    Some(r) => add_tail(toks, p, ExprView::Subtraction(Box::new(acc), Box::new(r))),
                    None => (None, p),
                }
            },
            _ => (Some(acc), pos),
        }
    } else {
        (Some(acc), pos)
    }
}

/// A sum at `pos`, and the position after it.
pub open spec fn addition(toks: Seq<TokenView>, pos: int) -> (Option<ExprView>, int) {
    let (e, p) = multiplication(toks, pos);
    match e {
        Some(e) => add_tail(toks, p, e),
        None => (None, p),
    }
}

proof fn lemma_add_tail_range(toks: Seq<TokenView>, pos: int, acc: ExprView)
    requires
        0 <= pos <= toks.len(),
    ensures
        pos <= add_tail(toks, pos, acc).1 <= toks.len(),
    decreases toks.len() - pos,
{
    match peek_at(toks, pos) {
        Some(TokenView::PLUS) => {
            let (r, p) = multiplication(toks, pos + 1);
            lemma_multiplication_range(toks, pos + 1);
            if let Some(r) = r {
                lemma_add_tail_range(toks, p, ExprView::Addition(Box::new(acc), Box::new(r)));
            }
        },
        Some(TokenView::MINUS) => {
            let (r, p) = multiplication(toks, pos + 1);
            lemma_multiplication_range(toks, pos + 1);
            if let Some(r) = r {
                lemma_add_tail_range(toks, p, ExprView::Subtraction(Box::new(acc), Box::new(r)));
            }
        },
        _ => {},
    }
}

/// A sum consumes at least one token when it succeeds and never runs past the
/// end.
pub proof fn lemma_addition_range(toks: Seq<TokenView>, pos: int)
    requires
        0 <= pos <= toks.len(),
    ensures
        pos <= addition(toks, pos).1 <= toks.len(),
        addition(toks, pos).0 is Some ==> pos < addition(toks, pos).1,
{
    lemma_multiplication_range(toks, pos);
    let (e, p) = multiplication(toks, pos);
    if let Some(e) = e {
        lemma_add_tail_range(toks, p, e);
    }
}

/// A condition at `pos`: a sum, optionally compared with `true`, `false` or
/// another sum; and the position after it.
pub open spec fn condition(toks: Seq<TokenView>, pos: int) -> (Option<ExprView>, int) {
    let (l, p1) = addition(toks, pos);
    match l {
        None => (None, p1),
        Some(l) => match peek_at(toks, p1) {
            Some(op) => if is_comparison_op(op) {
                let p2 = p1 + 1;
                let (r, p3) = if peek_at(toks, p2) == Some(TokenView::Bool(true)) {
                    (Some(ExprView::Literal(TokenView::Bool(true))), p2 + 1)
                } else if peek_at(toks, p2) == Some(TokenView::Bool(false)) {
                    (Some(ExprView::Literal(TokenView::Bool(false))), p2 + 1)
                } else {
                    addition(toks, p2)
                };
                match r {
                    Some(r) => (Some(ExprView::Comparison(Box::new(l), op, Box::new(r))), p3),
                    None => (None, p3),
                }
            } else {
                (Some(l), p1)
            },
            None => (Some(l), p1),
        },
    }
}

/// A condition consumes at least one token when it succeeds and never runs
/// past the end.
pub proof fn lemma_condition_range(toks: Seq<TokenView>, pos: int)
    requires
        0 <= pos <= toks.len(),
    ensures
        pos <= condition(toks, pos).1 <= toks.len(),
        condition(toks, pos).0 is Some ==> pos < condition(toks, pos).1,
{
    lemma_addition_range(toks, pos);
    let (l, p1) = addition(toks, pos);
    if l is Some && p1 < toks.len() {
        lemma_addition_range(toks, p1 + 1);
    }
}

/// A statement at `pos`: `Some((parsed, position after))`, or `None` where
/// parsing panics (an `if` without `then` or `end`, a `while` without `do` or
/// `end`).
pub open spec fn statement(toks: Seq<TokenView>, pos: int) -> Option<(Option<StmtView>, int)>
    decreases toks.len() - pos, 3int,
{
    match peek_at(toks, pos) {
        Some(TokenView::LET) => {
            let p1 = pos + 1;
            match peek_at(toks, p1) {
                Some(TokenView::Var(name)) => {
                    let p2 = p1 + 1;
                    if peek_at(toks, p2) == Some(TokenView::ASSIGN) {
                        let (e, p3) = addition(toks, p2 + 1);
                        match e {
                            Some(e) => Some((Some(StmtView::LET(name, e)), p3)),
                            None => Some((None, p3)),
                        }
                    } else {
                        Some((None, p2))
                    }
                },
                Some(_) => Some((None, p1 + 1)),
                None => Some((None, p1)),
            }
        },
        Some(TokenView::Var(name)) => {
            if pos + 1 < toks.len() && toks[pos + 1] == TokenView::ASSIGN {
                let (e, p) = addition(toks, pos + 2);
                match e {
                    Some(e) => Some((Some(StmtView::ASSIGN(name, e)), p)),
                    None => Some((None, p)),
                }
            } else {
                expression_statement(toks, pos)
            }
        },
        Some(TokenView::IF) => guarded(toks, pos, true),
        Some(TokenView::WHILE) => guarded(toks, pos, false),
        _ => expression_statement(toks, pos),
    }
}

/// A sum at `pos` taken as a statement.
pub open spec fn expression_statement(toks: Seq<TokenView>, pos: int) -> Option<(Option<StmtView>, int)> {
    let (e, p) = addition(toks, pos);
    match e {
        Some(e) => Some((Some(StmtView::Expr(e)), p)),
        None => Some((None, p)),
    }
}

/// An `if c then ... end` (when `is_if`) or a `while c do ... end` whose keyword
/// stands at `pos`.
pub open spec fn guarded(toks: Seq<TokenView>, pos: int, is_if: bool) -> Option<(Option<StmtView>, int)>
    decreases toks.len() - pos, 2int,
{
    let p1 = after_next(toks, pos);
    let (c, p2) = condition(toks, p1);
    match c {
        None => Some((None, p2)),
        Some(c) => {
            let opener = if is_if {
                TokenView::THEN
            } else {
                TokenView::DO
            };
            if 0 <= pos <= toks.len() && peek_at(toks, p2) == Some(opener) {
                proof {
                    lemma_condition_range(toks, p1);
                }
                match body(toks, p2 + 1, Seq::empty()) {
                    None => None,
                    Some((b, p4)) => if peek_at(toks, p4) == Some(TokenView::END) {
                        Some(
                            (
                                Some(
                                    if is_if {
                                        StmtView::IF(c, b)
                                    } else {
                                        StmtView::WHILE(c, b)
                                    },
                                ),
                                p4 + 1,
                            ),
                        )
                    } else {
                        None
                    },
                }
            } else {
                None
            }
        },
    }
}

/// The statements of a body from `pos` on, after those in `acc`: parsed until
/// `end`, the end of the tokens, or a statement that does not parse.
pub open spec fn body(toks: Seq<TokenView>, pos: int, acc: Seq<StmtView>) -> Option<(Seq<StmtView>, int)>
    decreases toks.len() - pos, 4int,
{
    match peek_at(toks, pos) {
        None => Some((acc, pos)),
        Some(TokenView::END) => Some((acc, pos)),
        Some(_) => match statement(toks, pos) {
            None => None,
            Some((None, p)) => Some((acc, p)),
            Some((Some(s), p)) => if pos < p <= toks.len() {
                body(toks, p, acc.push(s))
            } else {
                Some((acc.push(s), p))
            },
        },
    }
}


/// A statement that parses consumes at least one token; parsing never runs past
/// the end of the tokens.
pub proof fn lemma_statement_range(toks: Seq<TokenView>, pos: int)
    requires
        0 <= pos <= toks.len(),
    ensures
        statement(toks, pos) matches Some((r, p)) ==> pos <= p <= toks.len() && (r is Some ==> pos
            < p),
    decreases toks.len() - pos, 3int,
{
    match peek_at(toks, pos) {
        Some(TokenView::LET) => {
            if pos + 2 < toks.len() {
                lemma_addition_range(toks, pos + 3);
            }
        },
        Some(TokenView::Var(name)) => {
            if pos + 1 < toks.len() && toks[pos + 1] == TokenView::ASSIGN {
                lemma_addition_range(toks, pos + 2);
            } else {
                lemma_addition_range(toks, pos);
            }
        },
        Some(TokenView::IF) => lemma_guarded_range(toks, pos, true),
        Some(TokenView::WHILE) => lemma_guarded_range(toks, pos, false),
        _ => lemma_addition_range(toks, pos),
    }
}

proof fn lemma_guarded_range(toks: Seq<TokenView>, pos: int, is_if: bool)
    requires
        0 <= pos <= toks.len(),
    ensures
        guarded(toks, pos, is_if) matches Some((r, p)) ==> pos <= p <= toks.len() && (r is Some
            ==> pos < p),
    decreases toks.len() - pos, 2int,
{
    let p1 = after_next(toks, pos);
    lemma_condition_range(toks, p1);
    let (c, p2) = condition(toks, p1);
    if c is Some && p2 < toks.len() {
        lemma_body_range(toks, p2 + 1, Seq::empty());
    }
}

proof fn lemma_body_range(toks: Seq<TokenView>, pos: int, acc: Seq<StmtView>)
    requires
        0 <= pos <= toks.len(),
    ensures
        body(toks, pos, acc) matches Some((b, p)) ==> pos <= p <= toks.len(),
    decreases toks.len() - pos, 4int,
{
    match peek_at(toks, pos) {
        None => {},
        Some(TokenView::END) => {},
        Some(_) => {
            lemma_statement_range(toks, pos);
            match statement(toks, pos) {
                Some((Some(s), p)) => {
                    if pos < p <= toks.len() {
                        lemma_body_range(toks, p, acc.push(s));
                    }
                },
                _ => {},
            }
        },
    }
}

/// A statement that parsing cannot take: an `if` without `then` or `end`, or a
/// `while` without `do` or `end`.
#[derive(Debug, PartialEq, Eq, Structural)]
pub struct SyntaxError;

/// The parser's state: the tokens and the position of the next one.
#[derive(Debug)]
pub struct Parser {
    tokens: Vec<Token>,
    curr_pos: usize,
}

/// The values a [`Parser`] holds.
pub struct ParserView {
    pub tokens: Seq<TokenView>,
    pub pos: int,
}

impl View for Parser {
    type V = ParserView;

    closed spec fn view(&self) -> ParserView {
        ParserView { tokens: token_views(self.tokens@), pos: self.curr_pos as int }
    }
}

/// The value of an optional expression.
pub open spec fn opt_expr_view(e: Option<Expr>) -> Option<ExprView> {
    match e {
        Some(e) => Some(e@),
        None => None,
    }
}

/// The value of an optional statement.
pub open spec fn opt_stmt_view(s: Option<Statement>) -> Option<StmtView> {
    match s {
        Some(s) => Some(s@),
        None => None,
    }
}

impl Parser {
    #[verifier::type_invariant]
    spec fn inv(self) -> bool {
        self.curr_pos <= self.tokens@.len()
    }

    /// A parser at the first of `toks`.
    pub fn new(toks: Vec<Token>) -> (p: Self)
        ensures
            p@.tokens == token_views(toks@),
            p@.pos == 0,
    {
        Self { tokens: toks, curr_pos: 0 }
    }

    /// The token at the current position, if any.
    pub fn peek(&self) -> (r: Option<&Token>)
        ensures
            opt_token_view(r) == peek_at(self@.tokens, self@.pos),
    {
        proof {
            use_type_invariant(self);
        }
        if self.curr_pos < self.tokens.len() {
            Some(&self.tokens[self.curr_pos])
        } else {
            None
        }
    }

    /// Takes the token at the current position, if any, and moves past it.
    pub fn next(&mut self) -> (r: Option<&Token>)
        ensures
            final(self)@.tokens == old(self)@.tokens,
            final(self)@.pos == after_next(old(self)@.tokens, old(self)@.pos),
            opt_token_view(r) == peek_at(old(self)@.tokens, old(self)@.pos),
    {
        proof {
            use_type_invariant(&*self);
        }
        if self.curr_pos < self.tokens.len() {
            self.curr_pos = self.curr_pos + 1;
            Some(&self.tokens[self.curr_pos - 1])
        } else {
            None
        }
    }

    /// Moves past the current token, if any.
    fn advance(&mut self)
        ensures
            final(self)@.tokens == old(self)@.tokens,
            final(self)@.pos == after_next(old(self)@.tokens, old(self)@.pos),
    {
        proof {
            use_type_invariant(&*self);
        }
        if self.curr_pos < self.tokens.len() {
            self.curr_pos = self.curr_pos + 1;
        }
    }

    /// A copy of the current token, if any.
    fn peek_token(&self) -> (r: Option<Token>)
        ensures
            match r {
                Some(t) => peek_at(self@.tokens, self@.pos) == Some(t@),
                None => peek_at(self@.tokens, self@.pos) is None,
            },
            0 <= self@.pos <= self@.tokens.len(),
    {
        proof {
            use_type_invariant(self);
        }
        if self.curr_pos < self.tokens.len() {
            Some(self.tokens[self.curr_pos].duplicate())
        } else {
            None
        }
    }

    /// Parses a sum (the whole expression grammar).
    pub fn parse(&mut self) -> (r: Option<Expr>)
        ensures
            final(self)@.tokens == old(self)@.tokens,
            (opt_expr_view(r), final(self)@.pos) == addition(old(self)@.tokens, old(self)@.pos),
    {
        self.parse_addition()
    }

    /// Parses a number, text or variable.
    pub fn parse_primary(&mut self) -> (r: Option<Expr>)
        ensures
            final(self)@.tokens == old(self)@.tokens,
            (opt_expr_view(r), final(self)@.pos) == primary(old(self)@.tokens, old(self)@.pos),
    {
        let token = match self.peek_token() {
            Some(t) => t,
            None => return None,
        };
        match token {
            Token::Number(_) | Token::Str(_) | Token::Var(_) => {
                self.advance();
                Some(Expr::Literal(token))
            },
            _ => None,
        }
    }

    /// Parses primaries joined by `*` and `/`, left to right.
    pub fn parse_multiplication(&mut self) -> (r: Option<Expr>)
        ensures
            final(self)@.tokens == old(self)@.tokens,
            (opt_expr_view(r), final(self)@.pos) == multiplication(
                old(self)@.tokens,
                old(self)@.pos,
            ),
    {
        let ghost toks = self@.tokens;
        let ghost start = self@.pos;
        let mut expr = match self.parse_primary() {
            Some(e) => e,
            None => return None,
        };
        loop
            invariant
                toks == old(self)@.tokens,
                start == old(self)@.pos,
                self@.tokens == toks,
                0 <= self@.pos <= toks.len(),
                mul_tail(toks, self@.pos, expr@) == multiplication(toks, start),
            ensures
                self@.tokens == toks,
                (Some(expr@), self@.pos) == multiplication(toks, start),
            decreases toks.len() - self@.pos,
        {
            let is_star = match self.peek_token() {
                Some(Token::STAR) => true,
                Some(Token::SLASH) => false,
                _ => break,
            };
            self.advance();
            let right = match self.parse_primary() {
                Some(r) => r,
                None => return None,
            };
            expr = if is_star {
                Expr::Multiplication(Box::new(expr), Box::new(right))
            } else {
                Expr::Division(Box::new(expr), Box::new(right))
            };
        }
        Some(expr)
    }

    /// Parses products joined by `+` and `-`, left to right.
    pub fn parse_addition(&mut self) -> (r: Option<Expr>)
        ensures
            final(self)@.tokens == old(self)@.tokens,
            (opt_expr_view(r), final(self)@.pos) == addition(old(self)@.tokens, old(self)@.pos),
    {
        let ghost toks = self@.tokens;
        let ghost start = self@.pos;
        let mut expr = match self.parse_multiplication() {
            Some(e) => e,
            None => return None,
        };
        proof {
            lemma_multiplication_range(toks, start);
        }
        loop
            invariant
                toks == old(self)@.tokens,
                start == old(self)@.pos,
                self@.tokens == toks,
                0 <= self@.pos <= toks.len(),
                add_tail(toks, self@.pos, expr@) == addition(toks, start),
            ensures
                self@.tokens == toks,
                (Some(expr@), self@.pos) == addition(toks, start),
            decreases toks.len() - self@.pos,
        {
            let is_plus = match self.peek_token() {
                Some(Token::PLUS) => true,
                Some(Token::MINUS) => false,
                _ => break,
            };
            let ghost at = self@.pos;
            self.advance();
            proof {
                lemma_multiplication_range(toks, at + 1);
            }
            let right = match self.parse_multiplication() {
                Some(r) => r,
                None => return None,
            };
            expr = if is_plus {
                Expr::Addition(Box::new(expr), Box::new(right))
            } else {
                Expr::Subtraction(Box::new(expr), Box::new(right))
            };
        }
        Some(expr)
    }

    /// Parses a sum, optionally compared (`==`, `!=`, `>=`, `<=`, `>`, `<`) with
    /// `true`, `false` or another sum.
    pub fn parse_cond(&mut self) -> (r: Option<Expr>)
        ensures
            final(self)@.tokens == old(self)@.tokens,
            (opt_expr_view(r), final(self)@.pos) == condition(old(self)@.tokens, old(self)@.pos),
    {
        let left = match self.parse_addition() {
            Some(e) => e,
            None => return None,
        };
        let op = match self.peek_token() {
            Some(t) => {
                match t {
                    Token::EQ | Token::UNEQ | Token::GE | Token::LE | Token::GT | Token::LT => t,
                    _ => return Some(left),
                }
            },
            None => return Some(left),
        };
        self.advance();
        let right = match self.peek_token() {
            Some(Token::Bool(true)) => {
                self.advance();
                Expr::Literal(Token::Bool(true))
            },
            Some(Token::Bool(false)) => {
                self.advance();
                Expr::Literal(Token::Bool(false))
            },
            _ => match self.parse_addition() {
                Some(e) => e,
                None => return None,
            },
        };
        let r = Expr::Comparison(Box::new(left), op, Box::new(right));
        assert(r@ == ExprView::Comparison(Box::new(left@), op@, Box::new(right@)));
        Some(r)
    }

    /// Whether the token after the current one is `=`.
    fn assign_follows(&self) -> (r: bool)
        ensures
            r == (self@.pos + 1 < self@.tokens.len() && self@.tokens[self@.pos + 1]
                == TokenView::ASSIGN),
    {
        proof {
            use_type_invariant(self);
        }
        if self.tokens.len() > 0 && self.curr_pos < self.tokens.len() - 1 {
            match self.tokens[self.curr_pos + 1] {
                Token::ASSIGN => true,
                _ => false,
            }
        } else {
            false
        }
    }

    /// Parses a sum and takes it as a statement.
    fn parse_expression_statement(&mut self) -> (r: Option<Statement>)
        ensures
            final(self)@.tokens == old(self)@.tokens,
            expression_statement(old(self)@.tokens, old(self)@.pos) == Some(
                (opt_stmt_view(r), final(self)@.pos),
            ),
    {
        match self.parse_addition() {
            Some(e) => Some(Statement::Expr(e)),
            None => None,
        }
    }

    /// Parses a statement: `let x = sum`, `x = sum`, an `if`, a `while`, or a
    /// sum; `Err` where parsing reaches an `if` without `then` or `end`, or a
    /// `while` without `do` or `end`.
    pub fn try_parse_statement(&mut self) -> (r: Result<Option<Statement>, SyntaxError>)
        ensures
            final(self)@.tokens == old(self)@.tokens,
            r is Err <==> statement(old(self)@.tokens, old(self)@.pos) is None,
            r matches Ok(s) ==> statement(old(self)@.tokens, old(self)@.pos) == Some(
                (opt_stmt_view(s), final(self)@.pos),
            ),
        decreases old(self)@.tokens.len() - old(self)@.pos, 3int,
    {
        match self.peek_token() {
            Some(Token::LET) => {
                self.advance();
                match self.peek_token() {
                    Some(Token::Var(name)) => {
                        self.advance();
                        match self.peek_token() {
                            Some(Token::ASSIGN) => {
                                self.advance();
                                match self.parse_addition() {
                                    Some(e) => Ok(Some(Statement::LET(name, e))),
                                    None => Ok(None),
                                }
                            },
                            _ => Ok(None),
                        }
                    },
                    Some(_) => {
                        self.advance();
                        Ok(None)
                    },
                    None => Ok(None),
                }
            },
            Some(Token::Var(name)) => {
                if self.assign_follows() {
                    self.advance();
                    self.advance();
                    match self.parse_addition() {
                        Some(e) => Ok(Some(Statement::ASSIGN(name, e))),
                        None => Ok(None),
                    }
                } else {
                    Ok(self.parse_expression_statement())
                }
            },
            Some(Token::IF) => self.parse_guarded(true),
            Some(Token::WHILE) => self.parse_guarded(false),
            _ => Ok(self.parse_expression_statement()),
        }
    }

    /// Parses a statement (see [`Parser::try_parse_statement`]); the tokens must
    /// not hold an `if` without `then` or `end`, nor a `while` without `do` or
    /// `end`, where parsing reaches them.
    pub fn parse_statement(&mut self) -> (r: Option<Statement>)
        requires
            statement(old(self)@.tokens, old(self)@.pos) is Some,
        ensures
            final(self)@.tokens == old(self)@.tokens,
            statement(old(self)@.tokens, old(self)@.pos) == Some(
                (opt_stmt_view(r), final(self)@.pos),
            ),
    {
        match self.try_parse_statement() {
            Ok(s) => s,
            Err(_) => None,
        }
    }

    /// Parses `if condition then statements end`, the `if` being the current
    /// token; `then` and `end` must be there.
    pub fn parse_if_cond(&mut self) -> (r: Option<Statement>)
        requires
            guarded(old(self)@.tokens, old(self)@.pos, true) is Some,
        ensures
            final(self)@.tokens == old(self)@.tokens,
            guarded(old(self)@.tokens, old(self)@.pos, true) == Some(
                (opt_stmt_view(r), final(self)@.pos),
            ),
    {
        match self.parse_guarded(true) {
            Ok(s) => s,
            Err(_) => None,
        }
    }

    /// Parses `while condition do statements end`, the `while` being the current
    /// token; `do` and `end` must be there.
    pub fn parse_while_cond(&mut self) -> (r: Option<Statement>)
        requires
            guarded(old(self)@.tokens, old(self)@.pos, false) is Some,
        ensures
            final(self)@.tokens == old(self)@.tokens,
            guarded(old(self)@.tokens, old(self)@.pos, false) == Some(
                (opt_stmt_view(r), final(self)@.pos),
            ),
    {
        match self.parse_guarded(false) {
            Ok(s) => s,
            Err(_) => None,
        }
    }

    /// Parses an `if` (when `is_if`) or a `while` statement.
    fn parse_guarded(&mut self, is_if: bool) -> (r: Result<Option<Statement>, SyntaxError>)
        ensures
            final(self)@.tokens == old(self)@.tokens,
            r is Err <==> guarded(old(self)@.tokens, old(self)@.pos, is_if) is None,
            r matches Ok(s) ==> guarded(old(self)@.tokens, old(self)@.pos, is_if) == Some(
                (opt_stmt_view(s), final(self)@.pos),
            ),
        decreases old(self)@.tokens.len() - old(self)@.pos, 2int,
    {
        let ghost toks = self@.tokens;
        let ghost start = self@.pos;
        proof {
            use_type_invariant(&*self);
        }
        self.advance();
        let ghost p1 = self@.pos;
        proof {
            lemma_condition_range(toks, p1);
        }
        let condition = match self.parse_cond() {
            Some(c) => c,
            None => return Ok(None),
        };
        let ghost p2 = self@.pos;
        let opener_found = match self.peek_token() {
            Some(Token::THEN) => is_if,
            Some(Token::DO) => !is_if,
            _ => false,
        };
        if !opener_found {
            return Err(SyntaxError);
        }
        self.advance();
        let ghost p3 = self@.pos;
        let mut stmts: Vec<Statement> = Vec::new();
        assert(block_view(stmts@) =~= Seq::<StmtView>::empty());
        loop
            invariant_except_break
                body(toks, self@.pos, block_view(stmts@)) == body(toks, p3, Seq::empty()),
            invariant
                toks == old(self)@.tokens,
                start == old(self)@.pos,
                self@.tokens == toks,
                start < p3 <= self@.pos <= toks.len(),
                body(toks, p3, Seq::empty()) is None ==> guarded(toks, start, is_if) is None,
            ensures
                self@.tokens == toks,
                start < self@.pos <= toks.len(),
                body(toks, p3, Seq::empty()) == Some((block_view(stmts@), self@.pos)),
            decreases toks.len() - self@.pos,
        {
            let ghost at = self@.pos;
            match self.peek_token() {
                None => break,
                Some(Token::END) => break,
                _ => {},
            }
            proof {
                lemma_statement_range(toks, at);
            }
            match self.try_parse_statement() {
                Ok(Some(stmt)) => {
                    let ghost before = stmts@;
                    stmts.push(stmt);
                    assert(stmts@.subrange(0, stmts@.len() - 1) =~= before);
                    assert(block_view(stmts@) == block_view(before).push(stmt_view(stmts@.last())));
                },
                Ok(None) => break,
                Err(e) => return Err(e),
            }
        }
        match self.peek_token() {
            Some(Token::END) => {},
            _ => return Err(SyntaxError),
        }
        self.advance();
        if is_if {
            Ok(Some(Statement::IF(condition, stmts)))
        } else {
            Ok(Some(Statement::WHILE(condition, stmts)))
        }
    }
}

impl Clone for Parser {
    fn clone(&self) -> (r: Self)
        ensures
            r@ == self@,
    {
        proof {
            use_type_invariant(self);
        }
        let tokens = duplicate_tokens(&self.tokens);
        assert(token_views(tokens@).len() == token_views(self.tokens@).len());
        Parser { tokens, curr_pos: self.curr_pos }
    }
}

/// The value of an optional token reference.
pub open spec fn opt_token_view(t: Option<&Token>) -> Option<TokenView> {
    match t {
        Some(t) => Some(t@),
        None => None,
    }
}


/// Whether the token `t` would continue a sum: `+`, `-`, `*` or `/`.
pub open spec fn continues_sum(t: Option<TokenView>) -> bool {
    t == Some(TokenView::PLUS) || t == Some(TokenView::MINUS) || t == Some(TokenView::STAR) || t
        == Some(TokenView::SLASH)
}

proof fn lemma_mul_tail_stops(toks: Seq<TokenView>, pos: int, acc: ExprView)
    requires
        0 <= pos <= toks.len(),
    ensures
        mul_tail(toks, pos, acc).0 is Some ==> peek_at(toks, mul_tail(toks, pos, acc).1) != Some(
            TokenView::STAR,
        ) && peek_at(toks, mul_tail(toks, pos, acc).1) != Some(TokenView::SLASH),
    decreases toks.len() - pos,
{
    match peek_at(toks, pos) {
        Some(TokenView::STAR) => {
            let (r, p) = primary(toks, pos + 1);
            if let Some(r) = r {
                lemma_mul_tail_stops(toks, p, ExprView::Multiplication(Box::new(acc), Box::new(r)));
            }
        },
        Some(TokenView::SLASH) => {
            let (r, p) = primary(toks, pos + 1);
            if let Some(r) = r {
                lemma_mul_tail_stops(toks, p, ExprView::Division(Box::new(acc), Box::new(r)));
            }
        },
        _ => {},
    }
}

proof fn lemma_multiplication_stops(toks: Seq<TokenView>, pos: int)
    requires
        0 <= pos <= toks.len(),
    ensures
        multiplication(toks, pos).0 is Some ==> peek_at(toks, multiplication(toks, pos).1) != Some(
            TokenView::STAR,
        ) && peek_at(toks, multiplication(toks, pos).1) != Some(TokenView::SLASH),
{
    let (e, p) = primary(toks, pos);
    if let Some(e) = e {
        lemma_mul_tail_stops(toks, p, e);
    }
}

proof fn lemma_add_tail_stops(toks: Seq<TokenView>, pos: int, acc: ExprView)
    requires
        0 <= pos <= toks.len(),
        peek_at(toks, pos) != Some(TokenView::STAR),
        peek_at(toks, pos) != Some(TokenView::SLASH),
    ensures
        add_tail(toks, pos, acc).0 is Some ==> !continues_sum(peek_at(toks, add_tail(toks, pos, acc).1)),
    decreases toks.len() - pos,
{
    match peek_at(toks, pos) {
        Some(TokenView::PLUS) => {
            let (r, p) = multiplication(toks, pos + 1);
            lemma_multiplication_range(toks, pos + 1);
            lemma_multiplication_stops(toks, pos + 1);
            if let Some(r) = r {
                lemma_add_tail_stops(toks, p, ExprView::Addition(Box::new(acc), Box::new(r)));
            }
        },
        Some(TokenView::MINUS) => {
            let (r, p) = multiplication(toks, pos + 1);
            lemma_multiplication_range(toks, pos + 1);
            lemma_multiplication_stops(toks, pos + 1);
            if let Some(r) = r {
                lemma_add_tail_stops(toks, p, ExprView::Subtraction(Box::new(acc), Box::new(r)));
            }
        },
        _ => {},
    }
}

/// A sum takes every operand it can: where a sum parses, the token after it
/// is no `+`, `-`, `*` or `/`.
pub proof fn lemma_sum_is_maximal(toks: Seq<TokenView>, pos: int)
    requires
        0 <= pos <= toks.len(),
    ensures
        addition(toks, pos).0 is Some ==> !continues_sum(peek_at(toks, addition(toks, pos).1)),
{
    lemma_multiplication_range(toks, pos);
    lemma_multiplication_stops(toks, pos);
    let (e, p) = multiplication(toks, pos);
    if let Some(e) = e {
        lemma_add_tail_stops(toks, p, e);
    }
}

/// `let n = ...` parses as the assignment `n = ...` does, the same expression
/// up to the same position, and that expression is the whole sum after `=`.
pub proof fn lemma_let_parses_as_assignment(toks: Seq<TokenView>, pos: int, name: Seq<char>)
    requires
        0 <= pos,
        pos + 2 < toks.len(),
        toks[pos] == TokenView::LET,
        toks[pos + 1] == TokenView::Var(name),
        toks[pos + 2] == TokenView::ASSIGN,
    ensures
        statement(toks, pos) == match statement(toks, pos + 1) {
            Some((Some(StmtView::ASSIGN(n, e)), p)) => Some((Some(StmtView::LET(n, e)), p)),
            other => other,
        },
        statement(toks, pos) matches Some((Some(s), _)) ==> s matches StmtView::LET(n, _) && n == name,
        statement(toks, pos) matches Some((Some(_), p)) ==> !continues_sum(peek_at(toks, p)),
{
    lemma_sum_is_maximal(toks, pos + 3);
}

/// A `true` or `false` right after a comparison operator is kept as read: it
/// is the comparison's right operand.
pub proof fn lemma_comparison_keeps_boolean(toks: Seq<TokenView>, pos: int, b: bool)
    requires
        0 <= pos <= toks.len(),
        addition(toks, pos).0 is Some,
        addition(toks, pos).1 + 1 < toks.len(),
        is_comparison_op(toks[addition(toks, pos).1]),
        toks[addition(toks, pos).1 + 1] == TokenView::Bool(b),
    ensures
        condition(toks, pos) == (
            Some(
                ExprView::Comparison(
                    Box::new(addition(toks, pos).0->0),
                    toks[addition(toks, pos).1],
                    Box::new(ExprView::Literal(TokenView::Bool(b))),
                ),
            ),
            addition(toks, pos).1 + 2,
        ),
{
    lemma_addition_range(toks, pos);
}

/// A product as the grammar builds it: a literal, or a product times or
/// divided by a literal (products group to the left).
pub open spec fn product_form(e: ExprView) -> bool
    decreases e,
{
    match e {
        ExprView::Literal(_) => true,
        ExprView::Multiplication(l, r) => (*r) is Literal && product_form(*l),
        ExprView::Division(l, r) => (*r) is Literal && product_form(*l),
        _ => false,
    }
}

/// A sum as the grammar builds it: a product, or a sum plus or minus a
/// product (sums group to the left, products bind tighter).
pub open spec fn sum_form(e: ExprView) -> bool
    decreases e,
{
    match e {
        ExprView::Addition(l, r) => product_form(*r) && sum_form(*l),
        ExprView::Subtraction(l, r) => product_form(*r) && sum_form(*l),
        _ => product_form(e),
    }
}

/// A condition as the grammar builds it: a sum, or a sum compared with a sum
/// (a boolean literal among them).
pub open spec fn condition_form(e: ExprView) -> bool {
    match e {
        ExprView::Comparison(l, op, r) => is_comparison_op(op) && sum_form(*l) && sum_form(*r),
        _ => sum_form(e),
    }
}

proof fn lemma_mul_tail_form(toks: Seq<TokenView>, pos: int, acc: ExprView)
    requires
        0 <= pos <= toks.len(),
        product_form(acc),
    ensures
        mul_tail(toks, pos, acc).0 matches Some(e) ==> product_form(e),
    decreases toks.len() - pos,
{
    match peek_at(toks, pos) {
        Some(TokenView::STAR) => {
            let (r, p) = primary(toks, pos + 1);
            if let Some(r) = r {
                let n = ExprView::Multiplication(Box::new(acc), Box::new(r));
                assert(product_form(n));
                lemma_mul_tail_form(toks, p, n);
            }
        },
        Some(TokenView::SLASH) => {
            let (r, p) = primary(toks, pos + 1);
            if let Some(r) = r {
                let n = ExprView::Division(Box::new(acc), Box::new(r));
                assert(product_form(n));
                lemma_mul_tail_form(toks, p, n);
            }
        },
        _ => {},
    }
}

proof fn lemma_multiplication_form(toks: Seq<TokenView>, pos: int)
    requires
        0 <= pos <= toks.len(),
    ensures
        multiplication(toks, pos).0 matches Some(e) ==> product_form(e),
{
    let (e, p) = primary(toks, pos);
    if let Some(e) = e {
        lemma_mul_tail_form(toks, p, e);
    }
}

proof fn lemma_add_tail_form(toks: Seq<TokenView>, pos: int, acc: ExprView)
    requires
        0 <= pos <= toks.len(),
        sum_form(acc),
    ensures
        add_tail(toks, pos, acc).0 matches Some(e) ==> sum_form(e),
    decreases toks.len() - pos,
{
    match peek_at(toks, pos) {
        Some(TokenView::PLUS) => {
            let (r, p) = multiplication(toks, pos + 1);
            lemma_multiplication_range(toks, pos + 1);
            lemma_multiplication_form(toks, pos + 1);
            if let Some(r) = r {
                let n = ExprView::Addition(Box::new(acc), Box::new(r));
                assert(sum_form(n));
                lemma_add_tail_form(toks, p, n);
            }
        },
        Some(TokenView::MINUS) => {
            let (r, p) = multiplication(toks, pos + 1);
            lemma_multiplication_range(toks, pos + 1);
            lemma_multiplication_form(toks, pos + 1);
            if let Some(r) = r {
                let n = ExprView::Subtraction(Box::new(acc), Box::new(r));
                assert(sum_form(n));
                lemma_add_tail_form(toks, p, n);
            }
        },
        _ => {},
    }
}

proof fn lemma_product_is_sum(e: ExprView)
    requires
        product_form(e),
    ensures
        sum_form(e),
{
}

/// Parsed expressions have the grammar's shape: a product is a left-grouped
/// chain of literals joined by `*` and `/`; a sum a left-grouped chain of
/// products joined by `+` and `-`, so `*` and `/` bind tighter than `+` and
/// `-`; a condition a sum, or two sums joined by one comparison operator.
pub proof fn lemma_expression_shapes(toks: Seq<TokenView>, pos: int)
    requires
        0 <= pos <= toks.len(),
    ensures
        multiplication(toks, pos).0 matches Some(e) ==> product_form(e),
        addition(toks, pos).0 matches Some(e) ==> sum_form(e),
        condition(toks, pos).0 matches Some(e) ==> condition_form(e),
{
    lemma_multiplication_form(toks, pos);
    lemma_multiplication_range(toks, pos);
    let (e, p) = multiplication(toks, pos);
    if let Some(e) = e {
        lemma_product_is_sum(e);
        lemma_add_tail_form(toks, p, e);
    }
    lemma_addition_range(toks, pos);
    let (l, p1) = addition(toks, pos);
    if l is Some && p1 + 1 <= toks.len() {
        lemma_multiplication_form(toks, p1 + 1);
        lemma_multiplication_range(toks, p1 + 1);
        let (e2, q) = multiplication(toks, p1 + 1);
        if let Some(e2) = e2 {
            lemma_product_is_sum(e2);
            lemma_add_tail_form(toks, q, e2);
        }
        assert(sum_form(ExprView::Literal(TokenView::Bool(true))));
        assert(sum_form(ExprView::Literal(TokenView::Bool(false))));
    }
}

} // verus!
