//! Expressions of the syntax tree, and their plain views.

use vstd::prelude::*;
use crate::stmt::{Stmt, StmtView, stmts_view};
use crate::token::{Literal, LiteralView, Token, TokenView};

verus! {

/// A variable use: its name, and how many scopes out it was resolved
/// (`None` for globals, and before resolution).
#[derive(Debug)]
pub struct Binding {
    pub name: Token,
    pub depth: Option<usize>,
}

/// The parameters and the body of a function or a lambda.
#[derive(Debug)]
pub struct FunExpr {
    pub params: Vec<Token>,
    pub body: Vec<Stmt>,
}

/// An expression.
#[derive(Debug)]
pub enum Expr {
    Assign { variable: Binding, value: Box<Expr> },
    Binary { left: Box<Expr>, operator: Token, right: Box<Expr> },
    Call { callee: Box<Expr>, paren: Token, arguments: Vec<Expr> },
    Get { object: Box<Expr>, name: Token },
    Conditional { cond: Box<Expr>, left: Box<Expr>, right: Box<Expr> },
    Grouping(Box<Expr>),
    Lambda(FunExpr),
    Literal(Literal),
    Logical { left: Box<Expr>, operator: Token, right: Box<Expr> },
    SetField { object: Box<Expr>, name: Token, value: Box<Expr> },
    Super { keyword: Binding, method: Token },
    This(Binding),
    Unary { operator: Token, right: Box<Expr> },
    Variable(Binding),
}

pub struct BindingView {
    pub name: TokenView,
    pub depth: Option<nat>,
}

pub struct FunView {
    pub params: Seq<TokenView>,
    pub body: Seq<StmtView>,
}

/// An expression as plain values.
pub enum ExprView {
    Assign { variable: BindingView, value: Box<ExprView> },
    Binary { left: Box<ExprView>, operator: TokenView, right: Box<ExprView> },
    Call { callee: Box<ExprView>, paren: TokenView, arguments: Seq<ExprView> },
    Get { object: Box<ExprView>, name: TokenView },
    Conditional { cond: Box<ExprView>, left: Box<ExprView>, right: Box<ExprView> },
    Grouping(Box<ExprView>),
    Lambda(FunView),
    Literal(LiteralView),
    Logical { left: Box<ExprView>, operator: TokenView, right: Box<ExprView> },
    SetField { object: Box<ExprView>, name: TokenView, value: Box<ExprView> },
    Super { keyword: BindingView, method: TokenView },
    This(BindingView),
    Unary { operator: TokenView, right: Box<ExprView> },
    Variable(BindingView),
}

impl View for Binding {
    type V = BindingView;

    open spec fn view(&self) -> BindingView {
        BindingView {
            name: self.name@,
            depth: match self.depth {
                Some(d) => Some(d as nat),
                None => None,
            },
        }
    }
}

pub open spec fn tokens_seq_view(s: Seq<Token>) -> Seq<TokenView> {
    s.map_values(|t: Token| t@)
}

pub open spec fn fun_view(f: &FunExpr) -> FunView
    decreases f, 1nat,
{
    FunView { params: tokens_seq_view(f.params@), body: stmts_view(f.body@) }
}

pub open spec fn exprs_view(s: Seq<Expr>) -> Seq<ExprView>
    decreases s, 0nat,
{
    if s.len() == 0 {
        Seq::empty()
    } else {
        exprs_view(s.subrange(0, s.len() - 1)).push(expr_view(&s[s.len() - 1]))
    }
}

pub open spec fn expr_view(e: &Expr) -> ExprView
    decreases e, 0nat,
{
    match e {
        Expr::Assign { variable, value } => ExprView::Assign { variable: variable@, value: Box::new(expr_view(value)) },
        Expr::Binary { left, operator, right } => ExprView::Binary {
            left: Box::new(expr_view(left)),
            operator: operator@,
            right: Box::new(expr_view(right)),
        },
        Expr::Call { callee, paren, arguments } => ExprView::Call {
            callee: Box::new(expr_view(callee)),
            paren: paren@,
            arguments: exprs_view(arguments@),
        },
        Expr::Get { object, name } => ExprView::Get { object: Box::new(expr_view(object)), name: name@ },
        Expr::Conditional { cond, left, right } => ExprView::Conditional {
            cond: Box::new(expr_view(cond)),
            left: Box::new(expr_view(left)),
            right: Box::new(expr_view(right)),
        },
        Expr::Grouping(inner) => ExprView::Grouping(Box::new(expr_view(inner))),
        Expr::Lambda(f) => ExprView::Lambda(fun_view(f)),
        Expr::Literal(l) => ExprView::Literal(l@),
        Expr::Logical { left, operator, right } => ExprView::Logical {
            left: Box::new(expr_view(left)),
            operator: operator@,
            right: Box::new(expr_view(right)),
        },
        Expr::SetField { object, name, value } => ExprView::SetField {
            object: Box::new(expr_view(object)),
            name: name@,
            value: Box::new(expr_view(value)),
        },
        Expr::Super { keyword, method } => ExprView::Super { keyword: keyword@, method: method@ },
        Expr::This(b) => ExprView::This(b@),
        Expr::Unary { operator, right } => ExprView::Unary { operator: operator@, right: Box::new(expr_view(right)) },
        Expr::Variable(b) => ExprView::Variable(b@),
    }
}

impl View for Expr {
    type V = ExprView;

    open spec fn view(&self) -> ExprView {
        expr_view(self)
    }
}

impl Expr {
    /// The expression in a box.
    pub fn boxed(self) -> (r: Box<Expr>)
        ensures
            *r == self,
    {
        Box::new(self)
    }
}

} // verus!

verus! {

pub proof fn lemma_exprs_view_push(s: Seq<Expr>, e: Expr)
    ensures
        exprs_view(s.push(e)) == exprs_view(s).push(expr_view(&e)),
{
    assert(s.push(e).subrange(0, s.len() as int) =~= s);
}

pub proof fn lemma_exprs_view_len(s: Seq<Expr>)
    ensures
        exprs_view(s).len() == s.len(),
        forall|i: int| 0 <= i < s.len() ==> #[trigger] exprs_view(s)[i] == expr_view(&s[i]),
    decreases s.len(),
{
    if s.len() > 0 {
        lemma_exprs_view_len(s.subrange(0, s.len() - 1));
    }
}

} // verus!
