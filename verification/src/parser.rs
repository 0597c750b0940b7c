//! The recursive-descent parser: tokens to syntax trees, proved to follow
//! the grammar of `parser_spec`.

use vstd::prelude::*;
use crate::expr::{lemma_exprs_view_push, Binding, BindingView, Expr, ExprView, FunExpr};
use crate::lox::fmt_error_at;
use crate::parser_spec::{
    assignment, at_eof, binary, binary_tail, call, call_tail, check_at, comma_tail, conditional,
    consume_at, declaration, error_at, failed_with, parsed_as, expression, finish_call, fun_rest, kind_name, level_operator, primary, program,
    tokens_wf, unary, in_range, forward, no_progress, parameters, block_items, function, class_methods,
    class_declaration, var_declaration, statement, expression_statement, print_statement, return_statement,
    while_statement, if_statement, for_statement, for_loop, for_initializer, for_condition, for_increment,
};
use crate::scanner::tokens_view;
use crate::stmt::{lemma_fun_decls_view_push, lemma_stmts_view_push, ClassDecl, ClassDeclView, FunDecl, FunDeclView, Stmt, StmtView};
use crate::text::text_of;
use crate::token::{Literal, Token, TokenType, TokenType as TT, TokenView};

verus! {

/// A keyword that starts a statement.
pub open spec fn starts_statement(tt: TokenType) -> bool {
    tt == TT::CLASS || tt == TT::FUN || tt == TT::VAR || tt == TT::FOR || tt == TT::IF || tt == TT::WHILE
        || tt == TT::PRINT || tt == TT::RETURN
}

/// Where recovery from a syntax error stops, looking from `p` on: at the end
/// of file, right after a `;`, or before a keyword that starts a statement.
#[verifier::opaque]
pub open spec fn sync_from(ts: Seq<TokenView>, p: int) -> int
    decreases ts.len() - p,
{
    if p <= 0 || p >= ts.len() || at_eof(ts, p) {
        p
    } else if ts[p - 1].token_type == TT::SEMICOLON || starts_statement(ts[p].token_type) {
        p
    } else {
        sync_from(ts, p + 1)
    }
}

/// Recovery from a syntax error at `p`: the token there is skipped, then
/// tokens up to where `sync_from` stops.
pub open spec fn synchronized(ts: Seq<TokenView>, p: int) -> int {
    if at_eof(ts, p) {
        p
    } else {
        sync_from(ts, p + 1)
    }
}

/// A syntax error, holding its report.
#[derive(Debug)]
pub struct ParseError(pub String);

/// The parser's state: the tokens, and the position of the next one.
pub struct Parser {
    tokens: Vec<Token>,
    current: usize,
}

/// The kind of a named function declaration, as the reports name it.
pub enum FunctionKind {
    Function,
    Method,
}

impl FunctionKind {
    pub open spec fn is_method(&self) -> bool {
        self is Method
    }

    /// `function` or `method`.
    pub fn name(&self) -> (s: String)
        ensures
            s@ == kind_name(self.is_method()),
    {
        match self {
            FunctionKind::Function => text_of("function"),
            FunctionKind::Method => text_of("method"),
        }
    }
}

impl Parser {
    pub const FUN_ARGS_MAX: usize = 255;

    /// The tokens, as plain values.
    pub closed spec fn token_views(&self) -> Seq<TokenView> {
        tokens_view(self.tokens@)
    }

    /// The position of the next token.
    pub closed spec fn position(&self) -> int {
        self.current as int
    }

    /// The tokens can be walked and the position is on one of them.
    pub closed spec fn wf(&self) -> bool {
        &&& tokens_wf(self.token_views())
        &&& self.current < self.tokens.len()
    }

    /// `new` is `old` after some parsing: same tokens, not moved back.
    pub open spec fn advanced(old: Parser, new: Parser) -> bool {
        &&& new.wf()
        &&& new.token_views() == old.token_views()
        &&& old.position() <= new.position()
    }

    /// A parser at the first of `tokens`.
    pub fn new(tokens: Vec<Token>) -> (r: Parser)
        requires
            tokens_wf(tokens_view(tokens@)),
        ensures
            r.wf(),
            r.token_views() == tokens_view(tokens@),
            r.position() == 0,
    {
        Parser { tokens, current: 0 }
    }

    /// The declarations up to the end of file, or the first syntax error.
    pub fn parse(&mut self) -> (r: Result<Vec<Stmt>, ParseError>)
        requires
            old(self).wf(),
        ensures
            Self::advanced(*old(self), *final(self)),
            r matches Ok(v) ==> program(old(self).token_views(), old(self).position(), Seq::empty())
                == Ok::<Seq<StmtView>, Seq<char>>(crate::stmt::stmts_view(v@)),
            r matches Err(e) ==> program(old(self).token_views(), old(self).position(), Seq::empty())
                == Err::<Seq<StmtView>, Seq<char>>(e.0@),
    {
        let ghost ts = self.token_views();
        let ghost p0 = self.position();
        let mut statements: Vec<Stmt> = Vec::new();
        while !self.is_at_end()
            invariant
                Self::advanced(*old(self), *self),
                ts == old(self).token_views(),
                p0 == old(self).position(),
                program(ts, p0, Seq::empty()) == program(ts, self.position(), crate::stmt::stmts_view(statements@)),
            decreases self.tokens.len() - self.current,
        {
            assert(ts == self.token_views());
            let ghost before = statements@;
            let ghost p = self.position();
            let s = match self.declaration() { Ok(v) => v, Err(e) => { return Err(e); } };
            proof {
                lemma_stmts_view_push(before, s);
            }
            statements.push(s);
        }
        Ok(statements)
    }

    /// One expression from the current token on.
    pub fn parse_expr(&mut self) -> (r: Result<Expr, ParseError>)
        requires
            old(self).wf(),
        ensures
            Self::advanced(*old(self), *final(self)),
            r matches Ok(e) ==> parsed_as(expression(old(self).token_views(), old(self).position()), e@, final(self).position()),
            r matches Err(e) ==> failed_with(expression(old(self).token_views(), old(self).position()), e.0@),
    {
        self.expression()
    }

    fn peek(&self) -> (t: &Token)
        requires
            self.wf(),
        ensures
            t@ == self.token_views()[self.position()],
    {
        &self.tokens[self.current]
    }

    fn check(&self, token_type: TokenType) -> (r: bool)
        requires
            self.wf(),
        ensures
            r == check_at(self.token_views(), self.position(), token_type),
    {
        if self.is_at_end() {
            return false;
        }
        self.peek().token_type == token_type
    }

    fn match_next(&mut self, token_type: TokenType) -> (r: bool)
        requires
            old(self).wf(),
        ensures
            final(self).wf(),
            final(self).tokens == old(self).tokens,
            r == check_at(old(self).token_views(), old(self).position(), token_type),
            final(self).position() == if r { old(self).position() + 1 } else { old(self).position() },
    {
        if self.check(token_type) {
            self.advance();
            return true;
        }
        false
    }

    fn advance(&mut self) -> (t: &Token)
        requires
            old(self).wf(),
        ensures
            final(self).wf(),
            final(self).tokens == old(self).tokens,
            final(self).position() == if at_eof(old(self).token_views(), old(self).position()) {
                old(self).position()
            } else {
                old(self).position() + 1
            },
            !at_eof(old(self).token_views(), old(self).position()) ==> t@ == old(self).token_views()[old(self).position()],
    {
        proof {
            self.lemma_not_last();
        }
        if !self.is_at_end() {
            self.current = self.current + 1;
        }
        if self.current > 0 {
            &self.tokens[self.current - 1]
        } else {
            &self.tokens[0]
        }
    }

    proof fn lemma_not_last(&self)
        requires
            self.wf(),
        ensures
            !at_eof(self.token_views(), self.position()) ==> self.current + 1 < self.tokens.len(),
    {
    }

    fn is_at_end(&self) -> (r: bool)
        requires
            self.wf(),
        ensures
            r == at_eof(self.token_views(), self.position()),
    {
        self.peek().token_type == TT::EOF
    }

    fn previous(&self) -> (t: &Token)
        requires
            self.wf(),
            self.current > 0,
        ensures
            t@ == self.token_views()[self.position() - 1],
    {
        &self.tokens[self.current - 1]
    }

    fn consume(&mut self, token_type: TokenType, message: &str) -> (r: Result<Token, ParseError>)
        requires
            old(self).wf(),
        ensures
            Self::advanced(*old(self), *final(self)),
            r matches Ok(t) ==> parsed_as(consume_at(old(self).token_views(), old(self).position(), token_type, message@), t@, final(self).position()),
            r matches Err(e) ==> failed_with(consume_at(old(self).token_views(), old(self).position(), token_type, message@), e.0@),
    {
        if self.check(token_type) {
            let t = self.advance().clone();
            return Ok(t);
        }
        Err(Self::mk_error(self.peek(), message))
    }

    /// Skips tokens up to what looks like the start of the next statement.
    fn synchronize(&mut self)
        requires
            old(self).wf(),
        ensures
            Self::advanced(*old(self), *final(self)),
            final(self).position() == synchronized(old(self).token_views(), old(self).position()),
    {
        let ghost ts = self.token_views();
        proof {
            reveal(sync_from);
        }
        self.advance();
        while !self.is_at_end()
            invariant
                Self::advanced(*old(self), *self),
                ts == self.token_views(),
                at_eof(ts, old(self).position()) ==> self.position() == old(self).position(),
                !at_eof(ts, old(self).position()) ==> self.position() > 0
                    && synchronized(ts, old(self).position()) == sync_from(ts, self.position()),
            decreases self.tokens.len() - self.current,
        {
            proof {
                reveal(sync_from);
            }
            if self.current > 0 && self.previous().token_type == TT::SEMICOLON {
                return;
            }
            match self.peek().token_type {
                TT::CLASS | TT::FUN | TT::VAR | TT::FOR | TT::IF | TT::WHILE | TT::PRINT | TT::RETURN => {
                    return;
                }
                _ => {
                    self.advance();
                }
            }
        }
    }

    /// The report of a syntax error at `token`.
    fn mk_error(token: &Token, message: &str) -> (e: ParseError)
        ensures
            e.0@ == error_at(token@, message@),
    {
        if token.token_type == TT::EOF {
            ParseError(fmt_error_at(token.line, " at end", message))
        } else {
            let mut at = text_of(" at '");
            at.append(token.lexeme.as_str());
            at.append("'");
            ParseError(fmt_error_at(token.line, at.as_str(), message))
        }
    }

    // -----------------------------------------------------------------------
    // Expressions.

    fn expression(&mut self) -> (r: Result<Expr, ParseError>)
        requires
            old(self).wf(),
        ensures
            r is Ok ==> old(self).position() < final(self).position(),
            Self::advanced(*old(self), *final(self)),
            r matches Ok(e) ==> parsed_as(expression(old(self).token_views(), old(self).position()), e@, final(self).position()),
            r matches Err(e) ==> failed_with(expression(old(self).token_views(), old(self).position()), e.0@),
        decreases old(self).tokens@.len() - old(self).current, 19nat,
    {
        self.comma()
    }

    #[verifier::rlimit(60)]
    fn comma(&mut self) -> (r: Result<Expr, ParseError>)
        requires
            old(self).wf(),
        ensures
            r is Ok ==> old(self).position() < final(self).position(),
            Self::advanced(*old(self), *final(self)),
            r matches Ok(e) ==> parsed_as(expression(old(self).token_views(), old(self).position()), e@, final(self).position()),
            r matches Err(e) ==> failed_with(expression(old(self).token_views(), old(self).position()), e.0@),
        decreases old(self).tokens@.len() - old(self).current, 18nat,
    {
        let ghost ts = self.token_views();
        let ghost p0 = self.position();
        let mut expr = match self.assignment() { Ok(v) => v, Err(e) => { return Err(e); } };
        while self.check(TT::COMMA)
            invariant
                Self::advanced(*old(self), *self),
                ts == old(self).token_views(),
                p0 == old(self).position(),
                old(self).position() < self.position(),
                expression(ts, p0) == comma_tail(ts, self.position(), expr@),
            decreases self.tokens.len() - self.current,
        {
            let operator = self.advance().clone();
            let right = match self.assignment() { Ok(v) => v, Err(e) => { return Err(e); } };
            expr = Expr::Binary { left: expr.boxed(), operator, right: right.boxed() };
        }
        Ok(expr)
    }

    fn assignment(&mut self) -> (r: Result<Expr, ParseError>)
        requires
            old(self).wf(),
        ensures
            r is Ok ==> old(self).position() < final(self).position(),
            Self::advanced(*old(self), *final(self)),
            r matches Ok(e) ==> parsed_as(assignment(old(self).token_views(), old(self).position()), e@, final(self).position()),
            r matches Err(e) ==> failed_with(assignment(old(self).token_views(), old(self).position()), e.0@),
        decreases old(self).tokens@.len() - old(self).current, 17nat,
    {
        let expr = match self.conditional() { Ok(v) => v, Err(e) => { return Err(e); } };
        if self.check(TT::EQUAL) {
            let ghost p1 = self.position();
            self.advance();
            return match expr {
                Expr::Variable(variable) => {
                    let value = match self.assignment() { Ok(v) => v, Err(e) => { return Err(e); } };
                    Ok(Expr::Assign { variable, value: value.boxed() })
                }
                Expr::Get { object, name } => {
                    let value = match self.assignment() { Ok(v) => v, Err(e) => { return Err(e); } };
                    Ok(Expr::SetField { object, name, value: value.boxed() })
                }
                _ => Err(Self::mk_error(self.previous(), "Invalid assignment target.")),
            };
        }
        Ok(expr)
    }

    fn conditional(&mut self) -> (r: Result<Expr, ParseError>)
        requires
            old(self).wf(),
        ensures
            r is Ok ==> old(self).position() < final(self).position(),
            Self::advanced(*old(self), *final(self)),
            r matches Ok(e) ==> parsed_as(conditional(old(self).token_views(), old(self).position()), e@, final(self).position()),
            r matches Err(e) ==> failed_with(conditional(old(self).token_views(), old(self).position()), e.0@),
        decreases old(self).tokens@.len() - old(self).current, 16nat,
    {
        let cond = match self.binary_level(13) { Ok(v) => v, Err(e) => { return Err(e); } };
        if self.match_next(TT::QUESTION) {
            let left = match self.binary_level(13) { Ok(v) => v, Err(e) => { return Err(e); } };
            match self.consume(TT::COLON, "Expect ':' after then branch of conditional expression.") { Ok(v) => v, Err(e) => { return Err(e); } };
            let right = match self.conditional() { Ok(v) => v, Err(e) => { return Err(e); } };
            Ok(Expr::Conditional { cond: cond.boxed(), left: left.boxed(), right: right.boxed() })
        } else {
            Ok(cond)
        }
    }

    fn level_operator(level: u8, tt: TokenType) -> (r: bool)
        ensures
            r == level_operator(level as nat, tt),
    {
        if level == 13 {
            tt == TT::OR
        } else if level == 12 {
            tt == TT::AND
        } else if level == 11 {
            tt == TT::BANG_EQUAL || tt == TT::EQUAL_EQUAL
        } else if level == 10 {
            tt == TT::GREATER || tt == TT::GREATER_EQUAL || tt == TT::LESS || tt == TT::LESS_EQUAL
        } else if level == 9 {
            tt == TT::MINUS || tt == TT::PLUS
        } else {
            tt == TT::SLASH || tt == TT::STAR
        }
    }

    /// The binary levels of the grammar: 13 `or`, 12 `and`, 11 equality,
    /// 10 comparison, 9 term, 8 factor; each left-associative over the next.
    fn binary_level(&mut self, level: u8) -> (r: Result<Expr, ParseError>)
        requires
            old(self).wf(),
            8 <= level <= 13,
        ensures
            r is Ok ==> old(self).position() < final(self).position(),
            Self::advanced(*old(self), *final(self)),
            r matches Ok(e) ==> parsed_as(binary(old(self).token_views(), old(self).position(), level as nat), e@, final(self).position()),
            r matches Err(e) ==> failed_with(binary(old(self).token_views(), old(self).position(), level as nat), e.0@),
        decreases old(self).tokens@.len() - old(self).current, level as nat,
    {
        let ghost ts = self.token_views();
        let ghost p0 = self.position();
        let mut expr = if level == 8 { match self.unary() { Ok(v) => v, Err(e) => { return Err(e); } } } else { match self.binary_level(level - 1) { Ok(v) => v, Err(e) => { return Err(e); } } };
        while !self.is_at_end() && Self::level_operator(level, self.peek().token_type)
            invariant
                Self::advanced(*old(self), *self),
                ts == old(self).token_views(),
                p0 == old(self).position(),
                8 <= level <= 13,
                old(self).position() < self.position(),
                binary(ts, p0, level as nat) == binary_tail(ts, self.position(), level as nat, expr@),
            decreases self.tokens.len() - self.current,
        {
            let operator = self.advance().clone();
            let right = if level == 8 { match self.unary() { Ok(v) => v, Err(e) => { return Err(e); } } } else { match self.binary_level(level - 1) { Ok(v) => v, Err(e) => { return Err(e); } } };
            expr = if level >= 12 {
                Expr::Logical { left: expr.boxed(), operator, right: right.boxed() }
            } else {
                Expr::Binary { left: expr.boxed(), operator, right: right.boxed() }
            };
        }
        Ok(expr)
    }

    fn unary(&mut self) -> (r: Result<Expr, ParseError>)
        requires
            old(self).wf(),
        ensures
            r is Ok ==> old(self).position() < final(self).position(),
            Self::advanced(*old(self), *final(self)),
            r matches Ok(e) ==> parsed_as(unary(old(self).token_views(), old(self).position()), e@, final(self).position()),
            r matches Err(e) ==> failed_with(unary(old(self).token_views(), old(self).position()), e.0@),
        decreases old(self).tokens@.len() - old(self).current, 7nat,
    {
        if self.check(TT::BANG) || self.check(TT::MINUS) {
            let operator = self.advance().clone();
            let right = match self.unary() { Ok(v) => v, Err(e) => { return Err(e); } };
            return Ok(Expr::Unary { operator, right: right.boxed() });
        }
        self.call()
    }

    #[verifier::rlimit(80)]
    fn call(&mut self) -> (r: Result<Expr, ParseError>)
        requires
            old(self).wf(),
        ensures
            r is Ok ==> old(self).position() < final(self).position(),
            Self::advanced(*old(self), *final(self)),
            r matches Ok(e) ==> parsed_as(call(old(self).token_views(), old(self).position()), e@, final(self).position()),
            r matches Err(e) ==> failed_with(call(old(self).token_views(), old(self).position()), e.0@),
        decreases old(self).tokens@.len() - old(self).current, 6nat,
    {
        let ghost ts = self.token_views();
        let ghost p0 = self.position();
        let mut expr = match self.primary() {
            Ok(e) => e,
            Err(e) => {
                assert(in_range(ts, p0));
                assert(failed_with(primary(ts, p0), e.0@));
                assert(call(ts, p0) == match primary(ts, p0) {
                    Err(e) => Err(e),
                    Ok((expr, p1)) => if !forward(ts, p0, p1) { no_progress() } else { call_tail(ts, p1, expr) },
                });
                return Err(e);
            }
        };
        loop
            invariant
                Self::advanced(*old(self), *self),
                ts == old(self).token_views(),
                p0 == old(self).position(),
                old(self).position() < self.position(),
                call(ts, p0) == call_tail(ts, self.position(), expr@),
            ensures
                Self::advanced(*old(self), *self),
                ts == old(self).token_views(),
                p0 == old(self).position(),
                old(self).position() < self.position(),
                parsed_as(call(ts, p0), expr@, self.position()),
            decreases self.tokens.len() - self.current,
        {
            if self.match_next(TT::LEFT_PAREN) {
                expr = match self.finish_call(expr) { Ok(v) => v, Err(e) => { return Err(e); } };
            } else if self.match_next(TT::DOT) {
                let name = match self.consume(TT::IDENTIFIER, "Expect property name after '.'.") { Ok(v) => v, Err(e) => { return Err(e); } };
                expr = Expr::Get { object: expr.boxed(), name };
            } else {
                break;
            }
        }
        Ok(expr)
    }

    /// The arguments and the closing parenthesis of a call of `callee`.
    fn finish_call(&mut self, callee: Expr) -> (r: Result<Expr, ParseError>)
        requires
            old(self).wf(),
        ensures
            r is Ok ==> old(self).position() < final(self).position(),
            Self::advanced(*old(self), *final(self)),
            r matches Ok(e) ==> (match finish_call(old(self).token_views(), old(self).position()) {
                Ok(((args, paren), p)) => e@ == ExprView::Call { callee: Box::new(callee@), paren, arguments: args }
                    && p == final(self).position(),
                Err(_) => false,
            }),
            r matches Err(e) ==> finish_call(old(self).token_views(), old(self).position()) == Err::<((Seq<ExprView>, TokenView), int), Seq<char>>(e.0@),
        decreases old(self).tokens@.len() - old(self).current, 21nat,
    {
        let ghost ts = self.token_views();
        let ghost p0 = self.position();
        let mut arguments: Vec<Expr> = Vec::new();
        if !self.check(TT::RIGHT_PAREN) {
            loop
                invariant_except_break
                    crate::parser_spec::arguments(ts, p0, Seq::empty()) == crate::parser_spec::arguments(ts, self.position(), crate::expr::exprs_view(arguments@)),
                invariant
                    Self::advanced(*old(self), *self),
                ts == old(self).token_views(),
                p0 == old(self).position(),
                    arguments@.len() <= 255,
                    !check_at(ts, p0, TT::RIGHT_PAREN),
                ensures
                    Self::advanced(*old(self), *self),
                ts == old(self).token_views(),
                p0 == old(self).position(),
                    parsed_as(crate::parser_spec::arguments(ts, p0, Seq::empty()), crate::expr::exprs_view(arguments@), self.position()),
                decreases self.tokens.len() - self.current,
            {
                proof {
                    crate::expr::lemma_exprs_view_len(arguments@);
                }
                let ghost p_before = self.position();
                let ghost acc_before = crate::expr::exprs_view(arguments@);
                if arguments.len() >= Self::FUN_ARGS_MAX {
                    proof {
                        crate::expr::lemma_exprs_view_len(arguments@);
                    }
                    return Err(Self::mk_error(self.peek(), "Can't have more than 255 arguments."));
                }
                let ghost before = arguments@;
                let arg = match self.assignment() { Ok(v) => v, Err(e) => { return Err(e); } };
                proof {
                    lemma_exprs_view_push(before, arg);
                    crate::expr::lemma_exprs_view_len(before);
                }
                arguments.push(arg);
                if !self.match_next(TT::COMMA) {
                    assert(crate::parser_spec::arguments(ts, p_before, acc_before) == Ok::<(Seq<ExprView>, int), Seq<char>>((crate::expr::exprs_view(arguments@), self.position())));
                    break;
                }
            }
        }
        let paren = match self.consume(TT::RIGHT_PAREN, "Expect ')' after arguments.") {
            Ok(v) => v,
            Err(e) => {
                return Err(e);
            },
        };
        Ok(Expr::Call { callee: callee.boxed(), paren, arguments })
    }

    #[verifier::rlimit(40)]
    fn primary(&mut self) -> (r: Result<Expr, ParseError>)
        requires
            old(self).wf(),
        ensures
            r is Ok ==> old(self).position() < final(self).position(),
            Self::advanced(*old(self), *final(self)),
            r matches Ok(e) ==> parsed_as(primary(old(self).token_views(), old(self).position()), e@, final(self).position()),
            r matches Err(e) ==> failed_with(primary(old(self).token_views(), old(self).position()), e.0@),
        decreases old(self).tokens@.len() - old(self).current, 5nat,
    {
        let ghost ts = self.token_views();
        if self.match_next(TT::FALSE) {
            return Ok(Expr::Literal(Literal::Bool(false)));
        }
        if self.match_next(TT::TRUE) {
            return Ok(Expr::Literal(Literal::Bool(true)));
        }
        if self.match_next(TT::NIL) {
            return Ok(Expr::Literal(Literal::Nil));
        }
        if self.check(TT::NUMBER) || self.check(TT::STRING) {
            let token = self.advance();
            return match &token.literal {
                Some(l) => Ok(Expr::Literal(l.clone())),
                None => {
                    assert(false);
                    Err(ParseError(String::new()))
                }
            };
        }
        if self.check(TT::THIS) {
            let keyword = self.advance().clone();
            return Ok(Expr::This(Binding { name: keyword, depth: None }));
        }
        if self.check(TT::SUPER) {
            let keyword = self.advance().clone();
            match self.consume(TT::DOT, "Expect '.' after 'super'.") { Ok(v) => v, Err(e) => { return Err(e); } };
            let method = match self.consume(TT::IDENTIFIER, "Expect superclass method name.") { Ok(v) => v, Err(e) => { return Err(e); } };
            return Ok(Expr::Super { keyword: Binding { name: keyword, depth: None }, method });
        }
        if self.check(TT::IDENTIFIER) {
            let name = self.advance().clone();
            return Ok(Expr::Variable(Binding { name, depth: None }));
        }
        if self.match_next(TT::LEFT_PAREN) {
            let ghost p1 = self.position();
            assert(check_at(ts, p1 - 1, TT::LEFT_PAREN));
            let expr = match self.expression() {
                Ok(v) => v,
                Err(e) => {
                    assert(failed_with(expression(ts, p1), e.0@));
                    return Err(e);
                },
            };
            match self.consume(TT::RIGHT_PAREN, "Expect ')' after expression.") {
                Ok(_) => {},
                Err(e) => {
                    return Err(e);
                },
            }
            return Ok(Expr::Grouping(expr.boxed()));
        }
        if self.match_next(TT::FUN) {
            let f = match self.fun_rest(text_of("Expect '(' after 'fun'."), text_of("Expect '{' before lambda body.")) {
                Ok(v) => v,
                Err(e) => {
                    return Err(e);
                },
            };
            return Ok(Expr::Lambda(f));
        }
        Err(Self::mk_error(self.peek(), "Expect expression."))
    }

    /// The parameter list, the `)` and the body of a function, from its `(` on.
    fn fun_rest(&mut self, paren_message: String, brace_message: String) -> (r: Result<FunExpr, ParseError>)
        requires
            old(self).wf(),
        ensures
            r is Ok ==> old(self).position() < final(self).position(),
            Self::advanced(*old(self), *final(self)),
            r matches Ok(f) ==> parsed_as(fun_rest(old(self).token_views(), old(self).position(), paren_message@, brace_message@),
                crate::expr::fun_view(&f), final(self).position()),
            r matches Err(e) ==> failed_with(fun_rest(old(self).token_views(), old(self).position(), paren_message@, brace_message@), e.0@),
        decreases old(self).tokens@.len() - old(self).current, 1nat,
    {
        let ghost ts = self.token_views();
        let ghost p0 = self.position();
        match self.consume(TT::LEFT_PAREN, paren_message.as_str()) {
            Ok(_) => {},
            Err(e) => {
                return Err(e);
            },
        }
        let ghost p1 = self.position();
        let mut params: Vec<Token> = Vec::new();
        assert(crate::expr::tokens_seq_view(params@) =~= Seq::<TokenView>::empty());
        if !self.check(TT::RIGHT_PAREN) {
            loop
                invariant_except_break
                    parameters(ts, p1, Seq::empty()) == parameters(ts, self.position(), crate::expr::tokens_seq_view(params@)),
                invariant
                    Self::advanced(*old(self), *self),
                    ts == old(self).token_views(),
                    p0 == old(self).position(),
                    p1 == p0 + 1,
                    check_at(ts, p0, TT::LEFT_PAREN),
                    !check_at(ts, p1, TT::RIGHT_PAREN),
                    p1 <= self.position(),
                    params@.len() <= 255,
                    crate::expr::tokens_seq_view(params@).len() == params@.len(),
                ensures
                    Self::advanced(*old(self), *self),
                    ts == old(self).token_views(),
                    p1 <= self.position(),
                    parsed_as(parameters(ts, p1, Seq::empty()), crate::expr::tokens_seq_view(params@), self.position()),
                decreases self.tokens.len() - self.current,
            {
                let ghost p_before = self.position();
                let ghost acc_before = crate::expr::tokens_seq_view(params@);
                if params.len() >= Self::FUN_ARGS_MAX {
                    return Err(Self::mk_error(self.peek(), "Can't have more than 255 parameters."));
                }
                let name = match self.consume(TT::IDENTIFIER, "Expect parameter name.") {
                    Ok(v) => v,
                    Err(e) => {
                        return Err(e);
                    },
                };
                params.push(name);
                assert(crate::expr::tokens_seq_view(params@) =~= acc_before.push(name@));
                if !self.match_next(TT::COMMA) {
                    break;
                }
            }
        }
        match self.consume(TT::RIGHT_PAREN, "Expect ')' after parameters.") {
            Ok(_) => {},
            Err(e) => {
                return Err(e);
            },
        }
        match self.consume(TT::LEFT_BRACE, brace_message.as_str()) {
            Ok(_) => {},
            Err(e) => {
                return Err(e);
            },
        }
        let body = match self.block() {
            Ok(v) => v,
            Err(e) => {
                return Err(e);
            },
        };
        assert(crate::expr::tokens_seq_view(params@).len() == params@.len());
        Ok(FunExpr { params, body })
    }

    /// The declarations of a block up to its closing brace, and the brace.
    fn block(&mut self) -> (r: Result<Vec<Stmt>, ParseError>)
        requires
            old(self).wf(),
        ensures
            r is Ok ==> old(self).position() < final(self).position(),
            Self::advanced(*old(self), *final(self)),
            r matches Ok(v) ==> parsed_as(block_items(old(self).token_views(), old(self).position(), Seq::empty()),
                crate::stmt::stmts_view(v@), final(self).position()),
            r matches Err(e) ==> failed_with(block_items(old(self).token_views(), old(self).position(), Seq::empty()), e.0@),
        decreases old(self).tokens@.len() - old(self).current, 23nat,
    {
        let ghost ts = self.token_views();
        let ghost p0 = self.position();
        let mut statements: Vec<Stmt> = Vec::new();
        while !self.check(TT::RIGHT_BRACE) && !self.is_at_end()
            invariant
                Self::advanced(*old(self), *self),
                ts == old(self).token_views(),
                p0 == old(self).position(),
                block_items(ts, p0, Seq::empty()) == block_items(ts, self.position(), crate::stmt::stmts_view(statements@)),
            decreases self.tokens.len() - self.current,
        {
            let ghost before = statements@;
            let s = match self.declaration() {
                Ok(v) => v,
                Err(e) => {
                    return Err(e);
                },
            };
            proof {
                lemma_stmts_view_push(before, s);
            }
            statements.push(s);
        }
        match self.consume(TT::RIGHT_BRACE, "Expect '}' after block.") {
            Ok(_) => {},
            Err(e) => {
                return Err(e);
            },
        }
        Ok(statements)
    }

    /// A named function (or method) from its name on.
    fn function(&mut self, kind: FunctionKind) -> (r: Result<FunDecl, ParseError>)
        requires
            old(self).wf(),
        ensures
            r is Ok ==> old(self).position() < final(self).position(),
            Self::advanced(*old(self), *final(self)),
            r matches Ok(d) ==> parsed_as(function(old(self).token_views(), old(self).position(), kind.is_method()),
                crate::stmt::fun_decl_view(&d), final(self).position()),
            r matches Err(e) ==> failed_with(function(old(self).token_views(), old(self).position(), kind.is_method()), e.0@),
        decreases old(self).tokens@.len() - old(self).current, 2nat,
    {
        let kind_text = kind.name();
        let mut name_message = text_of("Expect ");
        name_message.append(kind_text.as_str());
        name_message.append(" name.");
        let name = match self.consume(TT::IDENTIFIER, name_message.as_str()) {
            Ok(v) => v,
            Err(e) => {
                return Err(e);
            },
        };
        let mut paren_message = text_of("Expect '(' after ");
        paren_message.append(kind_text.as_str());
        paren_message.append(" name.");
        let mut brace_message = text_of("Expect '{' before ");
        brace_message.append(kind_text.as_str());
        brace_message.append(" body.");
        let expr = match self.fun_rest(paren_message, brace_message) {
            Ok(v) => v,
            Err(e) => {
                return Err(e);
            },
        };
        Ok(FunDecl { name, expr })
    }

    fn check_next(&self, token_type: TokenType) -> (r: bool)
        requires
            self.wf(),
        ensures
            r == (in_range(self.token_views(), self.position() + 1) && check_at(self.token_views(), self.position() + 1, token_type)),
    {
        if self.current + 1 < self.tokens.len() {
            let t = &self.tokens[self.current + 1];
            t.token_type != TT::EOF && t.token_type == token_type
        } else {
            false
        }
    }

    fn declaration(&mut self) -> (r: Result<Stmt, ParseError>)
        requires
            old(self).wf(),
        ensures
            r is Ok ==> old(self).position() < final(self).position(),
            Self::advanced(*old(self), *final(self)),
            r matches Ok(s) ==> parsed_as(declaration(old(self).token_views(), old(self).position()), s@, final(self).position()),
            r matches Err(e) ==> failed_with(declaration(old(self).token_views(), old(self).position()), e.0@),
        decreases old(self).tokens@.len() - old(self).current, 22nat,
    {
        if self.match_next(TT::CLASS) {
            return self.class_declaration();
        }
        if self.check(TT::FUN) {
            if self.check_next(TT::LEFT_PAREN) {
                return Err(Self::mk_error(self.peek(), "Lambda functions are forbidden in statements"));
            }
            self.advance();
            let d = match self.function(FunctionKind::Function) {
                Ok(v) => v,
                Err(e) => {
                    return Err(e);
                },
            };
            return Ok(Stmt::Function(d));
        }
        if self.match_next(TT::VAR) {
            let decl = self.var_declaration();
            if decl.is_err() {
                self.synchronize();
            }
            return decl;
        }
        self.statement()
    }

    /// A class declaration from its name on.
    fn class_declaration(&mut self) -> (r: Result<Stmt, ParseError>)
        requires
            old(self).wf(),
        ensures
            r is Ok ==> old(self).position() < final(self).position(),
            Self::advanced(*old(self), *final(self)),
            r matches Ok(s) ==> parsed_as(class_declaration(old(self).token_views(), old(self).position()), s@, final(self).position()),
            r matches Err(e) ==> failed_with(class_declaration(old(self).token_views(), old(self).position()), e.0@),
        decreases old(self).tokens@.len() - old(self).current, 4nat,
    {
        let ghost ts = self.token_views();
        let name = match self.consume(TT::IDENTIFIER, "Expect class name.") {
            Ok(v) => v,
            Err(e) => {
                return Err(e);
            },
        };
        let mut superclass: Option<Binding> = None;
        if self.match_next(TT::LESS) {
            let s = match self.consume(TT::IDENTIFIER, "Expect superclass name.") {
                Ok(v) => v,
                Err(e) => {
                    return Err(e);
                },
            };
            superclass = Some(Binding { name: s, depth: None });
        }
        match self.consume(TT::LEFT_BRACE, "Expect '{' before class body.") {
            Ok(_) => {},
            Err(e) => {
                return Err(e);
            },
        }
        let ghost p3 = self.position();
        let ghost sup_v: Option<BindingView> = match &superclass {
            Some(b) => Some(b@),
            None => None,
        };
        let ghost whole = class_declaration(ts, old(self).position());
        assert(whole == match class_methods(ts, p3, Seq::empty()) {
            Err(e) => Err(e),
            Ok((m, p4)) => Ok((StmtView::Class(ClassDeclView { name: name@, superclass: sup_v, methods: m }), p4)),
        });
        let mut methods: Vec<FunDecl> = Vec::new();
        assert(crate::stmt::fun_decls_view(methods@) =~= Seq::<FunDeclView>::empty());
        while !self.check(TT::RIGHT_BRACE) && !self.is_at_end()
            invariant
                Self::advanced(*old(self), *self),
                ts == old(self).token_views(),
                whole == class_declaration(ts, old(self).position()),
                whole == match class_methods(ts, p3, Seq::empty()) {
                    Err(e) => Err(e),
                    Ok((m, p4)) => Ok((StmtView::Class(ClassDeclView { name: name@, superclass: sup_v, methods: m }), p4)),
                },
                p3 <= self.position(),
                class_methods(ts, p3, Seq::empty()) == class_methods(ts, self.position(), crate::stmt::fun_decls_view(methods@)),
            decreases self.tokens.len() - self.current,
        {
            let ghost before = methods@;
            let m = match self.function(FunctionKind::Method) {
                Ok(v) => v,
                Err(e) => {
                    return Err(e);
                },
            };
            proof {
                lemma_fun_decls_view_push(before, m);
            }
            methods.push(m);
        }
        match self.consume(TT::RIGHT_BRACE, "Expect '}' after class body.") {
            Ok(_) => {},
            Err(e) => {
                return Err(e);
            },
        }
        let d = ClassDecl { name, superclass, methods };
        assert(crate::stmt::class_decl_view(&d) == ClassDeclView {
            name: d.name@,
            superclass: sup_v,
            methods: crate::stmt::fun_decls_view(d.methods@),
        });
        Ok(Stmt::Class(d))
    }

    /// A variable declaration from its name on.
    #[verifier::rlimit(50)]
    #[verifier::spinoff_prover]
    fn var_declaration(&mut self) -> (r: Result<Stmt, ParseError>)
        requires
            old(self).wf(),
        ensures
            r is Ok ==> old(self).position() < final(self).position(),
            Self::advanced(*old(self), *final(self)),
            r matches Ok(s) ==> parsed_as(var_declaration(old(self).token_views(), old(self).position()), s@, final(self).position()),
            r matches Err(e) ==> failed_with(var_declaration(old(self).token_views(), old(self).position()), e.0@),
        decreases old(self).tokens@.len() - old(self).current, 20nat,
    {
        let name = match self.consume(TT::IDENTIFIER, "Expect variable name.") {
            Ok(v) => v,
            Err(e) => {
                return Err(e);
            },
        };
        let mut initializer: Option<Expr> = None;
        if self.match_next(TT::EQUAL) {
            let v = match self.expression() {
                Ok(v) => v,
                Err(e) => {
                    return Err(e);
                },
            };
            initializer = Some(v);
        }
        match self.consume(TT::SEMICOLON, "Expect ';' after variable declaration.") {
            Ok(_) => {},
            Err(e) => {
                return Err(e);
            },
        }
        Ok(Stmt::Var { name, initializer })
    }

    fn statement(&mut self) -> (r: Result<Stmt, ParseError>)
        requires
            old(self).wf(),
        ensures
            r is Ok ==> old(self).position() < final(self).position(),
            Self::advanced(*old(self), *final(self)),
            r matches Ok(s) ==> parsed_as(statement(old(self).token_views(), old(self).position()), s@, final(self).position()),
            r matches Err(e) ==> failed_with(statement(old(self).token_views(), old(self).position()), e.0@),
        decreases old(self).tokens@.len() - old(self).current, 21nat,
    {
        if self.match_next(TT::FOR) {
            self.for_statement()
        } else if self.match_next(TT::IF) {
            self.if_statement()
        } else if self.match_next(TT::PRINT) {
            self.print_statement()
        } else if self.match_next(TT::RETURN) {
            self.return_statement()
        } else if self.match_next(TT::WHILE) {
            self.while_statement()
        } else if self.match_next(TT::LEFT_BRACE) {
            match self.block() {
                Ok(b) => Ok(Stmt::Block(b)),
                Err(e) => Err(e),
            }
        } else {
            self.expression_statement()
        }
    }

    fn expression_statement(&mut self) -> (r: Result<Stmt, ParseError>)
        requires
            old(self).wf(),
        ensures
            r is Ok ==> old(self).position() < final(self).position(),
            Self::advanced(*old(self), *final(self)),
            r matches Ok(s) ==> parsed_as(expression_statement(old(self).token_views(), old(self).position()), s@, final(self).position()),
            r matches Err(e) ==> failed_with(expression_statement(old(self).token_views(), old(self).position()), e.0@),
        decreases old(self).tokens@.len() - old(self).current, 20nat,
    {
        let expr = match self.expression() {
            Ok(v) => v,
            Err(e) => {
                return Err(e);
            },
        };
        match self.consume(TT::SEMICOLON, "Expect ';' after expression.") {
            Ok(_) => {},
            Err(e) => {
                return Err(e);
            },
        }
        Ok(Stmt::Expression(expr))
    }

    #[verifier::rlimit(50)]
    fn print_statement(&mut self) -> (r: Result<Stmt, ParseError>)
        requires
            old(self).wf(),
        ensures
            r is Ok ==> old(self).position() < final(self).position(),
            Self::advanced(*old(self), *final(self)),
            r matches Ok(s) ==> parsed_as(print_statement(old(self).token_views(), old(self).position()), s@, final(self).position()),
            r matches Err(e) ==> failed_with(print_statement(old(self).token_views(), old(self).position()), e.0@),
        decreases old(self).tokens@.len() - old(self).current, 20nat,
    {
        let value = match self.expression() {
            Ok(v) => v,
            Err(e) => {
                return Err(e);
            },
        };
        match self.consume(TT::SEMICOLON, "Expect ';' after value.") {
            Ok(_) => {},
            Err(e) => {
                return Err(e);
            },
        }
        Ok(Stmt::Print(value))
    }

    /// A return statement after its keyword.
    #[verifier::rlimit(50)]
    #[verifier::spinoff_prover]
    fn return_statement(&mut self) -> (r: Result<Stmt, ParseError>)
        requires
            old(self).wf(),
            old(self).position() >= 1,
        ensures
            r is Ok ==> old(self).position() < final(self).position(),
            Self::advanced(*old(self), *final(self)),
            r matches Ok(s) ==> parsed_as(return_statement(old(self).token_views(), old(self).position()), s@, final(self).position()),
            r matches Err(e) ==> failed_with(return_statement(old(self).token_views(), old(self).position()), e.0@),
        decreases old(self).tokens@.len() - old(self).current, 20nat,
    {
        let keyword = self.previous().clone();
        let mut value: Option<Expr> = None;
        if !self.check(TT::SEMICOLON) {
            let v = match self.expression() {
                Ok(v) => v,
                Err(e) => {
                    return Err(e);
                },
            };
            value = Some(v);
        }
        match self.consume(TT::SEMICOLON, "Expect ';' after return value.") {
            Ok(_) => {},
            Err(e) => {
                return Err(e);
            },
        }
        Ok(Stmt::Return { keyword, value })
    }

    fn while_statement(&mut self) -> (r: Result<Stmt, ParseError>)
        requires
            old(self).wf(),
        ensures
            r is Ok ==> old(self).position() < final(self).position(),
            Self::advanced(*old(self), *final(self)),
            r matches Ok(s) ==> parsed_as(while_statement(old(self).token_views(), old(self).position()), s@, final(self).position()),
            r matches Err(e) ==> failed_with(while_statement(old(self).token_views(), old(self).position()), e.0@),
        decreases old(self).tokens@.len() - old(self).current, 0nat,
    {
        match self.consume(TT::LEFT_PAREN, "Expect '(' after 'while'.") {
            Ok(_) => {},
            Err(e) => {
                return Err(e);
            },
        }
        let condition = match self.expression() {
            Ok(v) => v,
            Err(e) => {
                return Err(e);
            },
        };
        match self.consume(TT::RIGHT_PAREN, "Expect ')' after condition.") {
            Ok(_) => {},
            Err(e) => {
                return Err(e);
            },
        }
        let body = match self.statement() {
            Ok(v) => v,
            Err(e) => {
                return Err(e);
            },
        };
        Ok(Stmt::While { condition, body: body.boxed() })
    }

    fn if_statement(&mut self) -> (r: Result<Stmt, ParseError>)
        requires
            old(self).wf(),
        ensures
            r is Ok ==> old(self).position() < final(self).position(),
            Self::advanced(*old(self), *final(self)),
            r matches Ok(s) ==> parsed_as(if_statement(old(self).token_views(), old(self).position()), s@, final(self).position()),
            r matches Err(e) ==> failed_with(if_statement(old(self).token_views(), old(self).position()), e.0@),
        decreases old(self).tokens@.len() - old(self).current, 0nat,
    {
        match self.consume(TT::LEFT_PAREN, "Expect '(' after 'if'.") {
            Ok(_) => {},
            Err(e) => {
                return Err(e);
            },
        }
        let condition = match self.expression() {
            Ok(v) => v,
            Err(e) => {
                return Err(e);
            },
        };
        match self.consume(TT::RIGHT_PAREN, "Expect ')' after if condition.") {
            Ok(_) => {},
            Err(e) => {
                return Err(e);
            },
        }
        let then_branch = match self.statement() {
            Ok(v) => v,
            Err(e) => {
                return Err(e);
            },
        };
        let mut else_branch: Option<Box<Stmt>> = None;
        if self.match_next(TT::ELSE) {
            let e = match self.statement() {
                Ok(v) => v,
                Err(e) => {
                    return Err(e);
                },
            };
            else_branch = Some(e.boxed());
        }
        Ok(Stmt::If { condition, then_branch: then_branch.boxed(), else_branch })
    }

    /// The initializer clause of a `for`, with its `;`.
    fn for_initializer(&mut self) -> (r: Result<Option<Stmt>, ParseError>)
        requires
            old(self).wf(),
        ensures
            r is Ok ==> old(self).position() < final(self).position(),
            Self::advanced(*old(self), *final(self)),
            r matches Ok(s) ==> parsed_as(for_initializer(old(self).token_views(), old(self).position()),
                match s { Some(x) => Some(x@), None => None }, final(self).position()),
            r matches Err(e) ==> failed_with(for_initializer(old(self).token_views(), old(self).position()), e.0@),
        decreases old(self).tokens@.len() - old(self).current, 21nat,
    {
        if self.match_next(TT::SEMICOLON) {
            Ok(None)
        } else if self.match_next(TT::VAR) {
            match self.var_declaration() {
                Ok(v) => Ok(Some(v)),
                Err(e) => Err(e),
            }
        } else {
            match self.expression_statement() {
                Ok(v) => Ok(Some(v)),
                Err(e) => Err(e),
            }
        }
    }

    /// The condition clause of a `for` (true when left out), with its `;`.
    fn for_condition(&mut self) -> (r: Result<Expr, ParseError>)
        requires
            old(self).wf(),
        ensures
            r is Ok ==> old(self).position() < final(self).position(),
            Self::advanced(*old(self), *final(self)),
            r matches Ok(c) ==> parsed_as(for_condition(old(self).token_views(), old(self).position()), c@, final(self).position()),
            r matches Err(e) ==> failed_with(for_condition(old(self).token_views(), old(self).position()), e.0@),
        decreases old(self).tokens@.len() - old(self).current, 20nat,
    {
        let condition = if !self.check(TT::SEMICOLON) {
            match self.expression() {
                Ok(v) => v,
                Err(e) => {
                    return Err(e);
                },
            }
        } else {
            Expr::Literal(Literal::Bool(true))
        };
        match self.consume(TT::SEMICOLON, "Expect ';' after loop condition.") {
            Ok(_) => {},
            Err(e) => {
                return Err(e);
            },
        }
        Ok(condition)
    }

    /// The increment clause of a `for`, with the `)` that closes the clauses.
    fn for_increment(&mut self) -> (r: Result<Option<Expr>, ParseError>)
        requires
            old(self).wf(),
        ensures
            r is Ok ==> old(self).position() < final(self).position(),
            Self::advanced(*old(self), *final(self)),
            r matches Ok(i) ==> parsed_as(for_increment(old(self).token_views(), old(self).position()),
                match i { Some(x) => Some(x@), None => None }, final(self).position()),
            r matches Err(e) ==> failed_with(for_increment(old(self).token_views(), old(self).position()), e.0@),
        decreases old(self).tokens@.len() - old(self).current, 20nat,
    {
        let increment: Option<Expr> = if !self.check(TT::RIGHT_PAREN) {
            match self.expression() {
                Ok(v) => Some(v),
                Err(e) => {
                    return Err(e);
                },
            }
        } else {
            None
        };
        match self.consume(TT::RIGHT_PAREN, "Expect ')' after for clauses.") {
            Ok(_) => {},
            Err(e) => {
                return Err(e);
            },
        }
        Ok(increment)
    }

    /// The `while` loop that a `for` stands for, from its parts.
    fn for_loop(initializer: Option<Stmt>, condition: Expr, increment: Option<Expr>, body: Stmt) -> (s: Stmt)
        ensures
            s@ == for_loop(
                match initializer { Some(x) => Some(x@), None => None },
                condition@,
                match increment { Some(x) => Some(x@), None => None },
                body@,
            ),
    {
        let ghost init_v: Option<StmtView> = match &initializer {
            Some(i) => Some(i@),
            None => None,
        };
        let ghost inc_v: Option<ExprView> = match &increment {
            Some(i) => Some(i@),
            None => None,
        };
        let ghost body_v = body@;
        let body = match increment {
            Some(inc) => {
                let mut v: Vec<Stmt> = Vec::new();
                v.push(body);
                v.push(Stmt::Expression(inc));
                proof {
                    lemma_stmts_view_push(Seq::empty(), v@[0]);
                    lemma_stmts_view_push(seq![v@[0]], v@[1]);
                    assert(Seq::<Stmt>::empty().push(v@[0]) =~= seq![v@[0]]);
                    assert(seq![v@[0]].push(v@[1]) =~= v@);
                    assert(crate::stmt::stmts_view(Seq::empty()) =~= Seq::<StmtView>::empty());
                    assert(crate::stmt::stmts_view(v@) =~= seq![body_v, StmtView::Expression(inc_v->0)]);
                }
                Stmt::Block(v)
            },
            None => body,
        };
        let ghost looped_body_v = body@;
        let looped = Stmt::While { condition, body: body.boxed() };
        match initializer {
            Some(init) => {
                let mut v: Vec<Stmt> = Vec::new();
                v.push(init);
                v.push(looped);
                proof {
                    lemma_stmts_view_push(Seq::empty(), v@[0]);
                    lemma_stmts_view_push(seq![v@[0]], v@[1]);
                    assert(Seq::<Stmt>::empty().push(v@[0]) =~= seq![v@[0]]);
                    assert(seq![v@[0]].push(v@[1]) =~= v@);
                    assert(crate::stmt::stmts_view(Seq::empty()) =~= Seq::<StmtView>::empty());
                    assert(crate::stmt::stmts_view(v@) =~= seq![init_v->0, v@[1]@]);
                }
                Stmt::Block(v)
            },
            None => looped,
        }
    }

    #[verifier::rlimit(100)]
    fn for_statement(&mut self) -> (r: Result<Stmt, ParseError>)
        requires
            old(self).wf(),
        ensures
            r is Ok ==> old(self).position() < final(self).position(),
            Self::advanced(*old(self), *final(self)),
            r matches Ok(s) ==> parsed_as(for_statement(old(self).token_views(), old(self).position()), s@, final(self).position()),
            r matches Err(e) ==> failed_with(for_statement(old(self).token_views(), old(self).position()), e.0@),
        decreases old(self).tokens@.len() - old(self).current, 0nat,
    {
        match self.consume(TT::LEFT_PAREN, "Expect '(' after 'for'.") {
            Ok(_) => {},
            Err(e) => {
                return Err(e);
            },
        }
        let initializer = match self.for_initializer() {
            Ok(v) => v,
            Err(e) => {
                return Err(e);
            },
        };
        let condition = match self.for_condition() {
            Ok(v) => v,
            Err(e) => {
                return Err(e);
            },
        };
        let increment = match self.for_increment() {
            Ok(v) => v,
            Err(e) => {
                return Err(e);
            },
        };
        let body = match self.statement() {
            Ok(v) => v,
            Err(e) => {
                return Err(e);
            },
        };
        Ok(Self::for_loop(initializer, condition, increment, body))
    }
}

} // verus!
