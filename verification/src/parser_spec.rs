//! The grammar of Lox, as functions from a token sequence and a position to
//! the tree parsed there and the position after it, or the report of the
//! first syntax error.
//!
//! ```text
//! program        → declaration* EOF ;
//! declaration    → classDecl | funDecl | varDecl | statement ;
//! classDecl      → "class" IDENTIFIER ( "<" IDENTIFIER )? "{" function* "}" ;
//! funDecl        → "fun" function ;          // "fun" "(" here is refused
//! function       → IDENTIFIER "(" parameters? ")" block ;
//! varDecl        → "var" IDENTIFIER ( "=" expression )? ";" ;
//! statement      → exprStmt | forStmt | ifStmt | printStmt | returnStmt | whileStmt | block ;
//! expression     → comma ;
//! comma          → assignment ( "," assignment )* ;
//! assignment     → ( call "." )? IDENTIFIER "=" assignment | conditional ;
//! conditional    → logic_or ( "?" logic_or ":" conditional )? ;
//! logic_or … factor: left-associative binary levels ;
//! unary          → ( "!" | "-" ) unary | call ;
//! call           → primary ( "(" arguments? ")" | "." IDENTIFIER )* ;
//! arguments      → assignment ( "," assignment )* ;
//! primary        → literals | "this" | "super" "." IDENTIFIER | IDENTIFIER
//!                | "(" expression ")" | "fun" "(" parameters? ")" block ;
//! ```
//!
//! Each recursive call is either at a later position, or at the same
//! position on a lower grammar level; results that would not move forward
//! are never produced, and the checks for them only keep the definitions
//! well-founded.

use vstd::prelude::*;
use crate::expr::{BindingView, ExprView, FunView};
use crate::lox::error_text;
use crate::stmt::{ClassDeclView, FunDeclView, StmtView};
use crate::token::{LiteralView, TokenType, TokenType as TT, TokenView};

verus! {

/// A token sequence the parser can walk: it ends with the end-of-file token,
/// and its number and string tokens carry their values.
pub open spec fn tokens_wf(ts: Seq<TokenView>) -> bool {
    &&& ts.len() > 0
    &&& ts.last().token_type == TT::EOF
    &&& forall|i: int| 0 <= i < ts.len() && (#[trigger] ts[i].token_type == TT::NUMBER || ts[i].token_type == TT::STRING)
        ==> ts[i].literal is Some
}

pub open spec fn in_range(ts: Seq<TokenView>, p: int) -> bool {
    0 <= p < ts.len()
}

pub open spec fn at_eof(ts: Seq<TokenView>, p: int) -> bool {
    ts[p].token_type == TT::EOF
}

/// The token at `p` is of kind `tt` (never true of the end of file).
pub open spec fn check_at(ts: Seq<TokenView>, p: int, tt: TokenType) -> bool {
    in_range(ts, p) && !at_eof(ts, p) && ts[p].token_type == tt
}

/// A syntax error report located at token `t`.
pub open spec fn error_at(t: TokenView, message: Seq<char>) -> Seq<char> {
    if t.token_type == TT::EOF {
        error_text(t.line, " at end"@, message)
    } else {
        error_text(t.line, " at '"@ + t.lexeme + "'"@, message)
    }
}

/// A token of kind `tt` at `p`, or the report `message` located there.
pub open spec fn consume_at(ts: Seq<TokenView>, p: int, tt: TokenType, message: Seq<char>) -> Result<(TokenView, int), Seq<char>> {
    if check_at(ts, p, tt) {
        Ok((ts[p], p + 1))
    } else {
        Err(error_at(ts[p], message))
    }
}

/// The refusal of a result that does not move forward (never produced).
pub open spec fn no_progress<A>() -> Result<(A, int), Seq<char>> {
    Err(Seq::empty())
}

/// `p` is a position a parse may stop at after starting from `from`.
pub open spec fn forward(ts: Seq<TokenView>, from: int, p: int) -> bool {
    from <= p < ts.len()
}

/// `p` is strictly after `from`.
pub open spec fn beyond(ts: Seq<TokenView>, from: int, p: int) -> bool {
    from < p < ts.len()
}

/// The parse `r` succeeded with `v`, stopping at `p`.
pub open spec fn parsed_as<A>(r: Result<(A, int), Seq<char>>, v: A, p: int) -> bool {
    r == Ok::<(A, int), Seq<char>>((v, p))
}

/// The parse `r` failed with the report `e`.
pub open spec fn failed_with<A>(r: Result<(A, int), Seq<char>>, e: Seq<char>) -> bool {
    r == Err::<(A, int), Seq<char>>(e)
}

pub open spec fn binding_of(t: TokenView) -> BindingView {
    BindingView { name: t, depth: None }
}

// ---------------------------------------------------------------------------
// Expressions.

pub open spec fn expression(ts: Seq<TokenView>, pos: int) -> Result<(ExprView, int), Seq<char>>
    decreases ts.len() - pos, 19nat,
{
    if !in_range(ts, pos) {
        no_progress()
    } else {
        match assignment(ts, pos) {
            Err(e) => Err(e),
            Ok((left, p1)) => if !forward(ts, pos, p1) { no_progress() } else { comma_tail(ts, p1, left) },
        }
    }
}

pub open spec fn comma_tail(ts: Seq<TokenView>, p: int, left: ExprView) -> Result<(ExprView, int), Seq<char>>
    decreases ts.len() - p, 0nat,
{
    if !in_range(ts, p) {
        no_progress()
    } else if check_at(ts, p, TT::COMMA) {
        match assignment(ts, p + 1) {
            Err(e) => Err(e),
            Ok((right, p2)) => if !beyond(ts, p, p2) {
                no_progress()
            } else {
                comma_tail(ts, p2, ExprView::Binary { left: Box::new(left), operator: ts[p], right: Box::new(right) })
            },
        }
    } else {
        Ok((left, p))
    }
}

pub open spec fn assignment(ts: Seq<TokenView>, pos: int) -> Result<(ExprView, int), Seq<char>>
    decreases ts.len() - pos, 18nat,
{
    if !in_range(ts, pos) {
        no_progress()
    } else {
        match conditional(ts, pos) {
            Err(e) => Err(e),
            Ok((expr, p1)) => if !forward(ts, pos, p1) {
                no_progress()
            } else if check_at(ts, p1, TT::EQUAL) {
                match expr {
                    ExprView::Variable(b) => match assignment(ts, p1 + 1) {
                        Err(e) => Err(e),
                        Ok((value, p2)) => Ok((ExprView::Assign { variable: b, value: Box::new(value) }, p2)),
                    },
                    ExprView::Get { object, name } => match assignment(ts, p1 + 1) {
                        Err(e) => Err(e),
                        Ok((value, p2)) => Ok((ExprView::SetField { object, name, value: Box::new(value) }, p2)),
                    },
                    _ => Err(error_at(ts[p1], "Invalid assignment target."@)),
                }
            } else {
                Ok((expr, p1))
            },
        }
    }
}

pub open spec fn conditional(ts: Seq<TokenView>, pos: int) -> Result<(ExprView, int), Seq<char>>
    decreases ts.len() - pos, 17nat,
{
    if !in_range(ts, pos) {
        no_progress()
    } else {
        match binary(ts, pos, 13) {
            Err(e) => Err(e),
            Ok((cond, p1)) => if !forward(ts, pos, p1) {
                no_progress()
            } else if check_at(ts, p1, TT::QUESTION) {
                match binary(ts, p1 + 1, 13) {
                    Err(e) => Err(e),
                    Ok((left, p2)) => if !beyond(ts, p1, p2) {
                        no_progress()
                    } else {
                        match consume_at(ts, p2, TT::COLON, "Expect ':' after then branch of conditional expression."@) {
                            Err(e) => Err(e),
                            Ok((_, p3)) => match conditional(ts, p3) {
                                Err(e) => Err(e),
                                Ok((right, p4)) => Ok((ExprView::Conditional {
                                    cond: Box::new(cond),
                                    left: Box::new(left),
                                    right: Box::new(right),
                                }, p4)),
                            },
                        }
                    },
                }
            } else {
                Ok((cond, p1))
            },
        }
    }
}

/// The operators of the binary levels: 13 `or`, 12 `and`, 11 equality,
/// 10 comparison, 9 term, 8 factor.
pub open spec fn level_operator(level: nat, tt: TokenType) -> bool {
    if level == 13 {
        tt == TT::OR
    } else if level == 12 {
        tt == TT::AND
    } else if level == 11 {
        tt == TT::BANG_EQUAL || tt == TT::EQUAL_EQUAL
    } else if level == 10 {
        tt == TT::GREATER || tt == TT::GREATER_EQUAL || tt == TT::LESS || tt == TT::LESS_EQUAL
    } else if level == 9 {
        tt == TT::MINUS || tt == TT::PLUS
    } else {
        tt == TT::SLASH || tt == TT::STAR
    }
}

/// The node of a binary level: logical for `or` and `and`, binary below.
pub open spec fn level_node(level: nat, left: ExprView, operator: TokenView, right: ExprView) -> ExprView {
    if level >= 12 {
        ExprView::Logical { left: Box::new(left), operator, right: Box::new(right) }
    } else {
        ExprView::Binary { left: Box::new(left), operator, right: Box::new(right) }
    }
}

/// A left-associative binary level (8 to 13), over the level below it.
pub open spec fn binary(ts: Seq<TokenView>, pos: int, level: nat) -> Result<(ExprView, int), Seq<char>>
    decreases ts.len() - pos, level,
{
    if !in_range(ts, pos) || level < 8 || level > 13 {
        no_progress()
    } else {
        let first = if level == 8 { unary(ts, pos) } else { binary(ts, pos, (level - 1) as nat) };
        match first {
            Err(e) => Err(e),
            Ok((left, p1)) => if !forward(ts, pos, p1) { no_progress() } else { binary_tail(ts, p1, level, left) },
        }
    }
}

pub open spec fn binary_tail(ts: Seq<TokenView>, p: int, level: nat, left: ExprView) -> Result<(ExprView, int), Seq<char>>
    decreases ts.len() - p, 0nat,
{
    if !in_range(ts, p) || level < 8 || level > 13 {
        no_progress()
    } else if !at_eof(ts, p) && level_operator(level, ts[p].token_type) {
        let next = if level == 8 { unary(ts, p + 1) } else { binary(ts, p + 1, (level - 1) as nat) };
        match next {
            Err(e) => Err(e),
            Ok((right, p2)) => if !beyond(ts, p, p2) {
                no_progress()
            } else {
                binary_tail(ts, p2, level, level_node(level, left, ts[p], right))
            },
        }
    } else {
        Ok((left, p))
    }
}

pub open spec fn unary(ts: Seq<TokenView>, pos: int) -> Result<(ExprView, int), Seq<char>>
    decreases ts.len() - pos, 7nat,
{
    if !in_range(ts, pos) {
        no_progress()
    } else if check_at(ts, pos, TT::BANG) || check_at(ts, pos, TT::MINUS) {
        match unary(ts, pos + 1) {
            Err(e) => Err(e),
            Ok((right, p1)) => Ok((ExprView::Unary { operator: ts[pos], right: Box::new(right) }, p1)),
        }
    } else {
        call(ts, pos)
    }
}

pub open spec fn call(ts: Seq<TokenView>, pos: int) -> Result<(ExprView, int), Seq<char>>
    decreases ts.len() - pos, 6nat,
{
    if !in_range(ts, pos) {
        no_progress()
    } else {
        match primary(ts, pos) {
            Err(e) => Err(e),
            Ok((expr, p1)) => if !forward(ts, pos, p1) { no_progress() } else { call_tail(ts, p1, expr) },
        }
    }
}

pub open spec fn call_tail(ts: Seq<TokenView>, p: int, callee: ExprView) -> Result<(ExprView, int), Seq<char>>
    decreases ts.len() - p, 0nat,
{
    if !in_range(ts, p) {
        no_progress()
    } else if check_at(ts, p, TT::LEFT_PAREN) {
        match finish_call(ts, p + 1) {
            Err(e) => Err(e),
            Ok(((arguments, paren), p2)) => if !beyond(ts, p, p2) {
                no_progress()
            } else {
                call_tail(ts, p2, ExprView::Call { callee: Box::new(callee), paren, arguments })
            },
        }
    } else if check_at(ts, p, TT::DOT) {
        match consume_at(ts, p + 1, TT::IDENTIFIER, "Expect property name after '.'."@) {
            Err(e) => Err(e),
            Ok((name, p2)) => call_tail(ts, p2, ExprView::Get { object: Box::new(callee), name }),
        }
    } else {
        Ok((callee, p))
    }
}

/// The arguments after `(` and the closing parenthesis.
pub open spec fn finish_call(ts: Seq<TokenView>, p: int) -> Result<((Seq<ExprView>, TokenView), int), Seq<char>>
    decreases ts.len() - p, 21nat,
{
    if !in_range(ts, p) {
        no_progress()
    } else if check_at(ts, p, TT::RIGHT_PAREN) {
        Ok(((Seq::empty(), ts[p]), p + 1))
    } else {
        match arguments(ts, p, Seq::empty()) {
            Err(e) => Err(e),
            Ok((args, p2)) => if !forward(ts, p, p2) {
                no_progress()
            } else {
                match consume_at(ts, p2, TT::RIGHT_PAREN, "Expect ')' after arguments."@) {
                    Err(e) => Err(e),
                    Ok((paren, p3)) => Ok(((args, paren), p3)),
                }
            },
        }
    }
}

/// Arguments from `p` on, after the ones in `acc`.
pub open spec fn arguments(ts: Seq<TokenView>, p: int, acc: Seq<ExprView>) -> Result<(Seq<ExprView>, int), Seq<char>>
    decreases ts.len() - p, 20nat,
{
    if !in_range(ts, p) {
        no_progress()
    } else if acc.len() >= 255 {
        Err(error_at(ts[p], "Can't have more than 255 arguments."@))
    } else {
        match assignment(ts, p) {
            Err(e) => Err(e),
            Ok((arg, p1)) => if !forward(ts, p, p1) {
                no_progress()
            } else if check_at(ts, p1, TT::COMMA) {
                arguments(ts, p1 + 1, acc.push(arg))
            } else {
                Ok((acc.push(arg), p1))
            },
        }
    }
}

pub open spec fn primary(ts: Seq<TokenView>, pos: int) -> Result<(ExprView, int), Seq<char>>
    decreases ts.len() - pos, 5nat,
{
    if !in_range(ts, pos) {
        no_progress()
    } else if check_at(ts, pos, TT::FALSE) {
        Ok((ExprView::Literal(LiteralView::Bool(false)), pos + 1))
    } else if check_at(ts, pos, TT::TRUE) {
        Ok((ExprView::Literal(LiteralView::Bool(true)), pos + 1))
    } else if check_at(ts, pos, TT::NIL) {
        Ok((ExprView::Literal(LiteralView::Nil), pos + 1))
    } else if check_at(ts, pos, TT::NUMBER) || check_at(ts, pos, TT::STRING) {
        Ok((ExprView::Literal(ts[pos].literal->0), pos + 1))
    } else if check_at(ts, pos, TT::THIS) {
        Ok((ExprView::This(binding_of(ts[pos])), pos + 1))
    } else if check_at(ts, pos, TT::SUPER) {
        match consume_at(ts, pos + 1, TT::DOT, "Expect '.' after 'super'."@) {
            Err(e) => Err(e),
            Ok((_, p1)) => match consume_at(ts, p1, TT::IDENTIFIER, "Expect superclass method name."@) {
                Err(e) => Err(e),
                Ok((method, p2)) => Ok((ExprView::Super { keyword: binding_of(ts[pos]), method }, p2)),
            },
        }
    } else if check_at(ts, pos, TT::IDENTIFIER) {
        Ok((ExprView::Variable(binding_of(ts[pos])), pos + 1))
    } else if check_at(ts, pos, TT::LEFT_PAREN) {
        match expression(ts, pos + 1) {
            Err(e) => Err(e),
            Ok((inner, p1)) => match consume_at(ts, p1, TT::RIGHT_PAREN, "Expect ')' after expression."@) {
                Err(e) => Err(e),
                Ok((_, p2)) => Ok((ExprView::Grouping(Box::new(inner)), p2)),
            },
        }
    } else if check_at(ts, pos, TT::FUN) {
        match fun_rest(ts, pos + 1, "Expect '(' after 'fun'."@, "Expect '{' before lambda body."@) {
            Err(e) => Err(e),
            Ok((f, p1)) => Ok((ExprView::Lambda(f), p1)),
        }
    } else {
        Err(error_at(ts[pos], "Expect expression."@))
    }
}

// ---------------------------------------------------------------------------
// Functions.

/// The parameter list, the `)` and the body of a function, from its `(` on.
pub open spec fn fun_rest(ts: Seq<TokenView>, p: int, paren_message: Seq<char>, brace_message: Seq<char>) -> Result<(FunView, int), Seq<char>>
    decreases ts.len() - p, 1nat,
{
    if !in_range(ts, p) {
        no_progress()
    } else {
        match consume_at(ts, p, TT::LEFT_PAREN, paren_message) {
            Err(e) => Err(e),
            Ok((_, p1)) => {
                let ps = if check_at(ts, p1, TT::RIGHT_PAREN) { Ok((Seq::empty(), p1)) } else { parameters(ts, p1, Seq::empty()) };
                match ps {
                    Err(e) => Err(e),
                    Ok((params, p2)) => if !forward(ts, p1, p2) {
                        no_progress()
                    } else {
                        match consume_at(ts, p2, TT::RIGHT_PAREN, "Expect ')' after parameters."@) {
                            Err(e) => Err(e),
                            Ok((_, p3)) => match consume_at(ts, p3, TT::LEFT_BRACE, brace_message) {
                                Err(e) => Err(e),
                                Ok((_, p4)) => match block_items(ts, p4, Seq::empty()) {
                                    Err(e) => Err(e),
                                    Ok((body, p5)) => Ok((FunView { params, body }, p5)),
                                },
                            },
                        }
                    },
                }
            },
        }
    }
}

/// Parameter names from `p` on, after the ones in `acc`.
pub open spec fn parameters(ts: Seq<TokenView>, p: int, acc: Seq<TokenView>) -> Result<(Seq<TokenView>, int), Seq<char>>
    decreases ts.len() - p, 0nat,
{
    if !in_range(ts, p) {
        no_progress()
    } else if acc.len() >= 255 {
        Err(error_at(ts[p], "Can't have more than 255 parameters."@))
    } else {
        match consume_at(ts, p, TT::IDENTIFIER, "Expect parameter name."@) {
            Err(e) => Err(e),
            Ok((name, p1)) => if check_at(ts, p1, TT::COMMA) {
                parameters(ts, p1 + 1, acc.push(name))
            } else {
                Ok((acc.push(name), p1))
            },
        }
    }
}

/// `function` or `method`, as the reports name the kind of a declaration.
pub open spec fn kind_name(is_method: bool) -> Seq<char> {
    if is_method { "method"@ } else { "function"@ }
}

/// A named function (or method) from its name on.
pub open spec fn function(ts: Seq<TokenView>, p: int, is_method: bool) -> Result<(FunDeclView, int), Seq<char>>
    decreases ts.len() - p, 2nat,
{
    if !in_range(ts, p) {
        no_progress()
    } else {
        let kind = kind_name(is_method);
        match consume_at(ts, p, TT::IDENTIFIER, "Expect "@ + kind + " name."@) {
            Err(e) => Err(e),
            Ok((name, p1)) => match fun_rest(ts, p1, "Expect '(' after "@ + kind + " name."@, "Expect '{' before "@ + kind + " body."@) {
                Err(e) => Err(e),
                Ok((f, p2)) => Ok((FunDeclView { name, fun: f }, p2)),
            },
        }
    }
}

// ---------------------------------------------------------------------------
// Statements.

/// Declarations up to the closing brace of a block, and the brace.
pub open spec fn block_items(ts: Seq<TokenView>, p: int, acc: Seq<StmtView>) -> Result<(Seq<StmtView>, int), Seq<char>>
    decreases ts.len() - p, 23nat,
{
    if !in_range(ts, p) {
        no_progress()
    } else if !check_at(ts, p, TT::RIGHT_BRACE) && !at_eof(ts, p) {
        match declaration(ts, p) {
            Err(e) => Err(e),
            Ok((s, p1)) => if !beyond(ts, p, p1) { no_progress() } else { block_items(ts, p1, acc.push(s)) },
        }
    } else {
        match consume_at(ts, p, TT::RIGHT_BRACE, "Expect '}' after block."@) {
            Err(e) => Err(e),
            Ok((_, p1)) => Ok((acc, p1)),
        }
    }
}

pub open spec fn declaration(ts: Seq<TokenView>, pos: int) -> Result<(StmtView, int), Seq<char>>
    decreases ts.len() - pos, 22nat,
{
    if !in_range(ts, pos) {
        no_progress()
    } else if check_at(ts, pos, TT::CLASS) {
        class_declaration(ts, pos + 1)
    } else if check_at(ts, pos, TT::FUN) {
        if in_range(ts, pos + 1) && check_at(ts, pos + 1, TT::LEFT_PAREN) {
            Err(error_at(ts[pos], "Lambda functions are forbidden in statements"@))
        } else {
            match function(ts, pos + 1, false) {
                Err(e) => Err(e),
                Ok((d, p1)) => Ok((StmtView::Function(d), p1)),
            }
        }
    } else if check_at(ts, pos, TT::VAR) {
        var_declaration(ts, pos + 1)
    } else {
        statement(ts, pos)
    }
}

/// Methods up to the closing brace of a class body, and the brace.
pub open spec fn class_methods(ts: Seq<TokenView>, p: int, acc: Seq<FunDeclView>) -> Result<(Seq<FunDeclView>, int), Seq<char>>
    decreases ts.len() - p, 3nat,
{
    if !in_range(ts, p) {
        no_progress()
    } else if !check_at(ts, p, TT::RIGHT_BRACE) && !at_eof(ts, p) {
        match function(ts, p, true) {
            Err(e) => Err(e),
            Ok((m, p1)) => if !beyond(ts, p, p1) { no_progress() } else { class_methods(ts, p1, acc.push(m)) },
        }
    } else {
        match consume_at(ts, p, TT::RIGHT_BRACE, "Expect '}' after class body."@) {
            Err(e) => Err(e),
            Ok((_, p1)) => Ok((acc, p1)),
        }
    }
}

/// A class declaration from its name on.
pub open spec fn class_declaration(ts: Seq<TokenView>, p: int) -> Result<(StmtView, int), Seq<char>>
    decreases ts.len() - p, 4nat,
{
    if !in_range(ts, p) {
        no_progress()
    } else {
        match consume_at(ts, p, TT::IDENTIFIER, "Expect class name."@) {
            Err(e) => Err(e),
            Ok((name, p1)) => {
                let sup: Result<(Option<BindingView>, int), Seq<char>> = if check_at(ts, p1, TT::LESS) {
                    match consume_at(ts, p1 + 1, TT::IDENTIFIER, "Expect superclass name."@) {
                        Err(e) => Err(e),
                        Ok((s, p2)) => Ok((Some(binding_of(s)), p2)),
                    }
                } else {
                    Ok((None, p1))
                };
                match sup {
                    Err(e) => Err(e),
                    Ok((superclass, p2)) => if !forward(ts, p, p2) {
                        no_progress()
                    } else {
                        match consume_at(ts, p2, TT::LEFT_BRACE, "Expect '{' before class body."@) {
                            Err(e) => Err(e),
                            Ok((_, p3)) => match class_methods(ts, p3, Seq::empty()) {
                                Err(e) => Err(e),
                                Ok((methods, p4)) => Ok((StmtView::Class(ClassDeclView { name, superclass, methods }), p4)),
                            },
                        }
                    },
                }
            },
        }
    }
}

/// A variable declaration from its name on.
pub open spec fn var_declaration(ts: Seq<TokenView>, p: int) -> Result<(StmtView, int), Seq<char>>
    decreases ts.len() - p, 20nat,
{
    if !in_range(ts, p) {
        no_progress()
    } else {
        match consume_at(ts, p, TT::IDENTIFIER, "Expect variable name."@) {
            Err(e) => Err(e),
            Ok((name, p1)) => {
                let init: Result<(Option<ExprView>, int), Seq<char>> = if check_at(ts, p1, TT::EQUAL) {
                    match expression(ts, p1 + 1) {
                        Err(e) => Err(e),
                        Ok((v, p2)) => Ok((Some(v), p2)),
                    }
                } else {
                    Ok((None, p1))
                };
                match init {
                    Err(e) => Err(e),
                    Ok((initializer, p2)) => if !forward(ts, p, p2) {
                        no_progress()
                    } else {
                        match consume_at(ts, p2, TT::SEMICOLON, "Expect ';' after variable declaration."@) {
                            Err(e) => Err(e),
                            Ok((_, p3)) => Ok((StmtView::Var { name, initializer }, p3)),
                        }
                    },
                }
            },
        }
    }
}

pub open spec fn statement(ts: Seq<TokenView>, pos: int) -> Result<(StmtView, int), Seq<char>>
    decreases ts.len() - pos, 21nat,
{
    if !in_range(ts, pos) {
        no_progress()
    } else if check_at(ts, pos, TT::FOR) {
        for_statement(ts, pos + 1)
    } else if check_at(ts, pos, TT::IF) {
        if_statement(ts, pos + 1)
    } else if check_at(ts, pos, TT::PRINT) {
        print_statement(ts, pos + 1)
    } else if check_at(ts, pos, TT::RETURN) {
        return_statement(ts, pos + 1)
    } else if check_at(ts, pos, TT::WHILE) {
        while_statement(ts, pos + 1)
    } else if check_at(ts, pos, TT::LEFT_BRACE) {
        match block_items(ts, pos + 1, Seq::empty()) {
            Err(e) => Err(e),
            Ok((b, p1)) => Ok((StmtView::Block(b), p1)),
        }
    } else {
        expression_statement(ts, pos)
    }
}

pub open spec fn expression_statement(ts: Seq<TokenView>, pos: int) -> Result<(StmtView, int), Seq<char>>
    decreases ts.len() - pos, 20nat,
{
    if !in_range(ts, pos) {
        no_progress()
    } else {
        match expression(ts, pos) {
            Err(e) => Err(e),
            Ok((e, p1)) => match consume_at(ts, p1, TT::SEMICOLON, "Expect ';' after expression."@) {
                Err(err) => Err(err),
                Ok((_, p2)) => Ok((StmtView::Expression(e), p2)),
            },
        }
    }
}

pub open spec fn print_statement(ts: Seq<TokenView>, p: int) -> Result<(StmtView, int), Seq<char>>
    decreases ts.len() - p, 20nat,
{
    if !in_range(ts, p) {
        no_progress()
    } else {
        match expression(ts, p) {
            Err(e) => Err(e),
            Ok((e, p1)) => match consume_at(ts, p1, TT::SEMICOLON, "Expect ';' after value."@) {
                Err(err) => Err(err),
                Ok((_, p2)) => Ok((StmtView::Print(e), p2)),
            },
        }
    }
}

/// A return statement after its keyword, which is the token before `p`.
pub open spec fn return_statement(ts: Seq<TokenView>, p: int) -> Result<(StmtView, int), Seq<char>>
    decreases ts.len() - p, 20nat,
{
    if !in_range(ts, p) || p < 1 {
        no_progress()
    } else {
        let v: Result<(Option<ExprView>, int), Seq<char>> = if !check_at(ts, p, TT::SEMICOLON) {
            match expression(ts, p) {
                Err(e) => Err(e),
                Ok((e, p1)) => Ok((Some(e), p1)),
            }
        } else {
            Ok((None, p))
        };
        match v {
            Err(e) => Err(e),
            Ok((value, p1)) => if !forward(ts, p, p1) {
                no_progress()
            } else {
                match consume_at(ts, p1, TT::SEMICOLON, "Expect ';' after return value."@) {
                    Err(e) => Err(e),
                    Ok((_, p2)) => Ok((StmtView::Return { keyword: ts[p - 1], value }, p2)),
                }
            },
        }
    }
}

pub open spec fn while_statement(ts: Seq<TokenView>, p: int) -> Result<(StmtView, int), Seq<char>>
    decreases ts.len() - p, 0nat,
{
    if !in_range(ts, p) {
        no_progress()
    } else {
        match consume_at(ts, p, TT::LEFT_PAREN, "Expect '(' after 'while'."@) {
            Err(e) => Err(e),
            Ok((_, p1)) => match expression(ts, p1) {
                Err(e) => Err(e),
                Ok((condition, p2)) => if !forward(ts, p1, p2) { no_progress() } else { match consume_at(ts, p2, TT::RIGHT_PAREN, "Expect ')' after condition."@) {
                    Err(e) => Err(e),
                    Ok((_, p3)) => match statement(ts, p3) {
                        Err(e) => Err(e),
                        Ok((body, p4)) => Ok((StmtView::While { condition, body: Box::new(body) }, p4)),
                    },
                } },
            },
        }
    }
}

pub open spec fn if_statement(ts: Seq<TokenView>, p: int) -> Result<(StmtView, int), Seq<char>>
    decreases ts.len() - p, 0nat,
{
    if !in_range(ts, p) {
        no_progress()
    } else {
        match consume_at(ts, p, TT::LEFT_PAREN, "Expect '(' after 'if'."@) {
            Err(e) => Err(e),
            Ok((_, p1)) => match expression(ts, p1) {
                Err(e) => Err(e),
                Ok((condition, p2)) => if !forward(ts, p1, p2) { no_progress() } else { match consume_at(ts, p2, TT::RIGHT_PAREN, "Expect ')' after if condition."@) {
                    Err(e) => Err(e),
                    Ok((_, p3)) => match statement(ts, p3) {
                        Err(e) => Err(e),
                        Ok((then_branch, p4)) => if !beyond(ts, p3, p4) {
                            no_progress()
                        } else if check_at(ts, p4, TT::ELSE) {
                            match statement(ts, p4 + 1) {
                                Err(e) => Err(e),
                                Ok((else_branch, p5)) => Ok((StmtView::If {
                                    condition,
                                    then_branch: Box::new(then_branch),
                                    else_branch: Some(Box::new(else_branch)),
                                }, p5)),
                            }
                        } else {
                            Ok((StmtView::If { condition, then_branch: Box::new(then_branch), else_branch: None }, p4))
                        },
                    },
                } },
            },
        }
    }
}

/// The `while` loop a `for` statement stands for.
pub open spec fn for_loop(
    initializer: Option<StmtView>,
    condition: ExprView,
    increment: Option<ExprView>,
    body: StmtView,
) -> StmtView {
    let body = match increment {
        Some(inc) => StmtView::Block(seq![body, StmtView::Expression(inc)]),
        None => body,
    };
    let looped = StmtView::While { condition, body: Box::new(body) };
    match initializer {
        Some(init) => StmtView::Block(seq![init, looped]),
        None => looped,
    }
}

/// The initializer clause of a `for`, with its `;`.
pub open spec fn for_initializer(ts: Seq<TokenView>, p: int) -> Result<(Option<StmtView>, int), Seq<char>>
    decreases ts.len() - p, 21nat,
{
    if !in_range(ts, p) {
        no_progress()
    } else if check_at(ts, p, TT::SEMICOLON) {
        Ok((None, p + 1))
    } else if check_at(ts, p, TT::VAR) {
        match var_declaration(ts, p + 1) {
            Err(e) => Err(e),
            Ok((s, p1)) => Ok((Some(s), p1)),
        }
    } else {
        match expression_statement(ts, p) {
            Err(e) => Err(e),
            Ok((s, p1)) => Ok((Some(s), p1)),
        }
    }
}

/// The condition clause of a `for` (true when left out), with its `;`.
pub open spec fn for_condition(ts: Seq<TokenView>, p: int) -> Result<(ExprView, int), Seq<char>>
    decreases ts.len() - p, 20nat,
{
    if !in_range(ts, p) {
        no_progress()
    } else {
        let cond: Result<(ExprView, int), Seq<char>> = if !check_at(ts, p, TT::SEMICOLON) {
            expression(ts, p)
        } else {
            Ok((ExprView::Literal(LiteralView::Bool(true)), p))
        };
        match cond {
            Err(e) => Err(e),
            Ok((condition, p1)) => match consume_at(ts, p1, TT::SEMICOLON, "Expect ';' after loop condition."@) {
                Err(e) => Err(e),
                Ok((_, p2)) => Ok((condition, p2)),
            },
        }
    }
}

/// The increment clause of a `for`, with the `)` that closes the clauses.
pub open spec fn for_increment(ts: Seq<TokenView>, p: int) -> Result<(Option<ExprView>, int), Seq<char>>
    decreases ts.len() - p, 20nat,
{
    if !in_range(ts, p) {
        no_progress()
    } else {
        let inc: Result<(Option<ExprView>, int), Seq<char>> = if !check_at(ts, p, TT::RIGHT_PAREN) {
            match expression(ts, p) {
                Err(e) => Err(e),
                Ok((e, p1)) => Ok((Some(e), p1)),
            }
        } else {
            Ok((None, p))
        };
        match inc {
            Err(e) => Err(e),
            Ok((increment, p1)) => match consume_at(ts, p1, TT::RIGHT_PAREN, "Expect ')' after for clauses."@) {
                Err(e) => Err(e),
                Ok((_, p2)) => Ok((increment, p2)),
            },
        }
    }
}

pub open spec fn for_statement(ts: Seq<TokenView>, p: int) -> Result<(StmtView, int), Seq<char>>
    decreases ts.len() - p, 0nat,
{
    if !in_range(ts, p) {
        no_progress()
    } else {
        match consume_at(ts, p, TT::LEFT_PAREN, "Expect '(' after 'for'."@) {
            Err(e) => Err(e),
            Ok((_, p1)) => match for_initializer(ts, p1) {
                Err(e) => Err(e),
                Ok((initializer, p2)) => if !forward(ts, p1, p2) {
                    no_progress()
                } else {
                    match for_condition(ts, p2) {
                        Err(e) => Err(e),
                        Ok((condition, p3)) => if !forward(ts, p2, p3) {
                            no_progress()
                        } else {
                            match for_increment(ts, p3) {
                                Err(e) => Err(e),
                                Ok((increment, p4)) => if !forward(ts, p3, p4) {
                                    no_progress()
                                } else {
                                    match statement(ts, p4) {
                                        Err(e) => Err(e),
                                        Ok((body, p5)) => Ok((for_loop(initializer, condition, increment, body), p5)),
                                    }
                                },
                            }
                        },
                    }
                },
            },
        }
    }
}

/// Declarations from `p` to the end of file, after the ones in `acc`.
pub open spec fn program(ts: Seq<TokenView>, p: int, acc: Seq<StmtView>) -> Result<Seq<StmtView>, Seq<char>>
    decreases ts.len() - p,
{
    if !in_range(ts, p) {
        Err(Seq::empty())
    } else if at_eof(ts, p) {
        Ok(acc)
    } else {
        match declaration(ts, p) {
            Err(e) => Err(e),
            Ok((s, p1)) => if !beyond(ts, p, p1) { Err(Seq::empty()) } else { program(ts, p1, acc.push(s)) },
        }
    }
}

/// The statements of a whole token sequence, or the first syntax error.
pub open spec fn parse_program(ts: Seq<TokenView>) -> Result<Seq<StmtView>, Seq<char>> {
    program(ts, 0, Seq::empty())
}

/// One expression from the first token on (what follows it is ignored).
pub open spec fn parse_expression(ts: Seq<TokenView>) -> Result<ExprView, Seq<char>> {
    match expression(ts, 0) {
        Ok((e, _)) => Ok(e),
        Err(e) => Err(e),
    }
}

} // verus!
