//! Statements of the syntax tree, and their plain views.

use vstd::prelude::*;
use crate::expr::{expr_view, fun_view, BindingView, Binding, Expr, ExprView, FunExpr, FunView};
use crate::token::{Token, TokenView};

verus! {

/// A named function declaration (also a method).
#[derive(Debug)]
pub struct FunDecl {
    pub name: Token,
    pub expr: FunExpr,
}

/// A class declaration.
#[derive(Debug)]
pub struct ClassDecl {
    pub name: Token,
    pub superclass: Option<Binding>,
    pub methods: Vec<FunDecl>,
}

/// A statement.
#[derive(Debug)]
pub enum Stmt {
    Block(Vec<Stmt>),
    Class(ClassDecl),
    Expression(Expr),
    Function(FunDecl),
    If { condition: Expr, then_branch: Box<Stmt>, else_branch: Option<Box<Stmt>> },
    Print(Expr),
    Return { keyword: Token, value: Option<Expr> },
    Var { name: Token, initializer: Option<Expr> },
    While { condition: Expr, body: Box<Stmt> },
}

pub struct FunDeclView {
    pub name: TokenView,
    pub fun: FunView,
}

pub struct ClassDeclView {
    pub name: TokenView,
    pub superclass: Option<BindingView>,
    pub methods: Seq<FunDeclView>,
}

/// A statement as plain values.
pub enum StmtView {
    Block(Seq<StmtView>),
    Class(ClassDeclView),
    Expression(ExprView),
    Function(FunDeclView),
    If { condition: ExprView, then_branch: Box<StmtView>, else_branch: Option<Box<StmtView>> },
    Print(ExprView),
    Return { keyword: TokenView, value: Option<ExprView> },
    Var { name: TokenView, initializer: Option<ExprView> },
    While { condition: ExprView, body: Box<StmtView> },
}

pub open spec fn fun_decl_view(d: &FunDecl) -> FunDeclView
    decreases d, 2nat,
{
    FunDeclView { name: d.name@, fun: fun_view(&d.expr) }
}

pub open spec fn fun_decls_view(s: Seq<FunDecl>) -> Seq<FunDeclView>
    decreases s, 3nat,
{
    if s.len() == 0 {
        Seq::empty()
    } else {
        fun_decls_view(s.subrange(0, s.len() - 1)).push(fun_decl_view(&s[s.len() - 1]))
    }
}

pub open spec fn class_decl_view(c: &ClassDecl) -> ClassDeclView
    decreases c, 4nat,
{
    ClassDeclView {
        name: c.name@,
        superclass: match &c.superclass {
            Some(b) => Some(b@),
            None => None,
        },
        methods: fun_decls_view(c.methods@),
    }
}

pub open spec fn stmts_view(s: Seq<Stmt>) -> Seq<StmtView>
    decreases s, 0nat,
{
    if s.len() == 0 {
        Seq::empty()
    } else {
        stmts_view(s.subrange(0, s.len() - 1)).push(stmt_view(&s[s.len() - 1]))
    }
}

pub open spec fn stmt_view(s: &Stmt) -> StmtView
    decreases s, 0nat,
{
    match s {
        Stmt::Block(b) => StmtView::Block(stmts_view(b@)),
        Stmt::Class(c) => StmtView::Class(class_decl_view(c)),
        Stmt::Expression(e) => StmtView::Expression(expr_view(e)),
        Stmt::Function(d) => StmtView::Function(fun_decl_view(d)),
        Stmt::If { condition, then_branch, else_branch } => StmtView::If {
            condition: expr_view(condition),
            then_branch: Box::new(stmt_view(then_branch)),
            else_branch: match else_branch {
                Some(e) => Some(Box::new(stmt_view(e))),
                None => None,
            },
        },
        Stmt::Print(e) => StmtView::Print(expr_view(e)),
        Stmt::Return { keyword, value } => StmtView::Return {
            keyword: keyword@,
            value: match value {
                Some(v) => Some(expr_view(v)),
                None => None,
            },
        },
        Stmt::Var { name, initializer } => StmtView::Var {
            name: name@,
            initializer: match initializer {
                Some(v) => Some(expr_view(v)),
                None => None,
            },
        },
        Stmt::While { condition, body } => StmtView::While { condition: expr_view(condition), body: Box::new(stmt_view(body)) },
    }
}

impl View for Stmt {
    type V = StmtView;

    open spec fn view(&self) -> StmtView {
        stmt_view(self)
    }
}

impl Stmt {
    /// The statement in a box.
    pub fn boxed(self) -> (r: Box<Stmt>)
        ensures
            *r == self,
    {
        Box::new(self)
    }
}

} // verus!

verus! {

pub proof fn lemma_stmts_view_push(s: Seq<Stmt>, x: Stmt)
    ensures
        stmts_view(s.push(x)) == stmts_view(s).push(stmt_view(&x)),
{
    assert(s.push(x).subrange(0, s.len() as int) =~= s);
}

pub proof fn lemma_fun_decls_view_push(s: Seq<FunDecl>, x: FunDecl)
    ensures
        fun_decls_view(s.push(x)) == fun_decls_view(s).push(fun_decl_view(&x)),
{
    assert(s.push(x).subrange(0, s.len() as int) =~= s);
}

pub proof fn lemma_stmts_view_len(s: Seq<Stmt>)
    ensures
        stmts_view(s).len() == s.len(),
        forall|i: int| 0 <= i < s.len() ==> #[trigger] stmts_view(s)[i] == stmt_view(&s[i]),
    decreases s.len(),
{
    if s.len() > 0 {
        lemma_stmts_view_len(s.subrange(0, s.len() - 1));
    }
}

pub proof fn lemma_fun_decls_view_len(s: Seq<FunDecl>)
    ensures
        fun_decls_view(s).len() == s.len(),
        forall|i: int| 0 <= i < s.len() ==> #[trigger] fun_decls_view(s)[i] == fun_decl_view(&s[i]),
    decreases s.len(),
{
    if s.len() > 0 {
        lemma_fun_decls_view_len(s.subrange(0, s.len() - 1));
    }
}

} // verus!
