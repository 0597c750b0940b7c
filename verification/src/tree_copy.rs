//! Copies of syntax trees: the interpreter keeps the declarations of the
//! functions it creates, which outlive the program text they came from.

use vstd::prelude::*;
use crate::expr::{exprs_view, fun_view, lemma_exprs_view_len, tokens_seq_view, Binding, Expr, FunExpr};
use crate::stmt::{class_decl_view, fun_decl_view, fun_decls_view, lemma_fun_decls_view_len, lemma_stmts_view_len, stmts_view, ClassDecl, FunDecl, Stmt};
use crate::token::Token;

verus! {

pub fn copy_binding(b: &Binding) -> (r: Binding)
    ensures
        r@ == b@,
{
    Binding { name: b.name.clone(), depth: b.depth }
}

pub fn copy_tokens(v: &Vec<Token>) -> (r: Vec<Token>)
    ensures
        r@ == v@,
        tokens_seq_view(r@) == tokens_seq_view(v@),
{
    let mut r: Vec<Token> = Vec::new();
    let mut i: usize = 0;
    while i < v.len()
        invariant
            i <= v@.len(),
            r@ == v@.subrange(0, i as int),
        decreases v.len() - i,
    {
        r.push(v[i].clone());
        assert(r@ =~= v@.subrange(0, i + 1));
        i += 1;
    }
    assert(r@ =~= v@);
    r
}

pub fn copy_exprs(v: &Vec<Expr>) -> (r: Vec<Expr>)
    ensures
        exprs_view(r@) == exprs_view(v@),
    decreases v, 0nat,
{
    proof {
        lemma_exprs_view_len(v@);
    }
    let mut r: Vec<Expr> = Vec::new();
    let mut i: usize = 0;
    while i < v.len()
        invariant
            i <= v@.len(),
            r@.len() == i,
            exprs_view(v@).len() == v@.len(),
            forall|j: int| 0 <= j < v@.len() ==> #[trigger] exprs_view(v@)[j] == crate::expr::expr_view(&v@[j]),
            forall|j: int| 0 <= j < i ==> #[trigger] crate::expr::expr_view(&r@[j]) == crate::expr::expr_view(&v@[j]),
        decreases v.len() - i,
    {
        proof {
            assert(decreases_to!(v => v@));
            assert(decreases_to!(v@ => v@[i as int]));
        }
        let x = copy_expr(&v[i]);
        r.push(x);
        i += 1;
    }
    proof {
        lemma_exprs_view_len(r@);
        assert(exprs_view(r@) =~= exprs_view(v@));
    }
    r
}

pub fn copy_stmts(v: &Vec<Stmt>) -> (r: Vec<Stmt>)
    ensures
        stmts_view(r@) == stmts_view(v@),
    decreases v, 0nat,
{
    proof {
        lemma_stmts_view_len(v@);
    }
    let mut r: Vec<Stmt> = Vec::new();
    let mut i: usize = 0;
    while i < v.len()
        invariant
            i <= v@.len(),
            r@.len() == i,
            stmts_view(v@).len() == v@.len(),
            forall|j: int| 0 <= j < v@.len() ==> #[trigger] stmts_view(v@)[j] == crate::stmt::stmt_view(&v@[j]),
            forall|j: int| 0 <= j < i ==> #[trigger] crate::stmt::stmt_view(&r@[j]) == crate::stmt::stmt_view(&v@[j]),
        decreases v.len() - i,
    {
        proof {
            assert(decreases_to!(v => v@));
            assert(decreases_to!(v@ => v@[i as int]));
        }
        let x = copy_stmt(&v[i]);
        r.push(x);
        i += 1;
    }
    proof {
        lemma_stmts_view_len(r@);
        assert(stmts_view(r@) =~= stmts_view(v@));
    }
    r
}

pub fn copy_fun(f: &FunExpr) -> (r: FunExpr)
    ensures
        fun_view(&r) == fun_view(f),
    decreases f, 0nat,
{
    let params = copy_tokens(&f.params);
    let body = copy_stmts(&f.body);
    FunExpr { params, body }
}

pub fn copy_fun_decl(d: &FunDecl) -> (r: FunDecl)
    ensures
        fun_decl_view(&r) == fun_decl_view(d),
    decreases d, 0nat,
{
    let f = copy_fun(&d.expr);
    FunDecl { name: d.name.clone(), expr: f }
}

pub fn copy_fun_decls(v: &Vec<FunDecl>) -> (r: Vec<FunDecl>)
    ensures
        fun_decls_view(r@) == fun_decls_view(v@),
    decreases v, 0nat,
{
    proof {
        lemma_fun_decls_view_len(v@);
    }
    let mut r: Vec<FunDecl> = Vec::new();
    let mut i: usize = 0;
    while i < v.len()
        invariant
            i <= v@.len(),
            r@.len() == i,
            fun_decls_view(v@).len() == v@.len(),
            forall|j: int| 0 <= j < v@.len() ==> #[trigger] fun_decls_view(v@)[j] == fun_decl_view(&v@[j]),
            forall|j: int| 0 <= j < i ==> #[trigger] fun_decl_view(&r@[j]) == fun_decl_view(&v@[j]),
        decreases v.len() - i,
    {
        proof {
            assert(decreases_to!(v => v@));
            assert(decreases_to!(v@ => v@[i as int]));
        }
        let x = copy_fun_decl(&v[i]);
        r.push(x);
        i += 1;
    }
    proof {
        lemma_fun_decls_view_len(r@);
        assert(fun_decls_view(r@) =~= fun_decls_view(v@));
    }
    r
}

pub fn copy_class_decl(d: &ClassDecl) -> (r: ClassDecl)
    ensures
        class_decl_view(&r) == class_decl_view(d),
    decreases d, 0nat,
{
    let superclass = match &d.superclass {
        Some(b) => Some(copy_binding(b)),
        None => None,
    };
    let methods = copy_fun_decls(&d.methods);
    ClassDecl { name: d.name.clone(), superclass, methods }
}

pub fn copy_expr(e: &Expr) -> (r: Expr)
    ensures
        r@ == e@,
    decreases e, 0nat,
{
    match e {
        Expr::Assign { variable, value } => Expr::Assign { variable: copy_binding(variable), value: Box::new(copy_expr(value)) },
        Expr::Binary { left, operator, right } => Expr::Binary {
            left: Box::new(copy_expr(left)),
            operator: operator.clone(),
            right: Box::new(copy_expr(right)),
        },
        Expr::Call { callee, paren, arguments } => Expr::Call {
            callee: Box::new(copy_expr(callee)),
            paren: paren.clone(),
            arguments: copy_exprs(arguments),
        },
        Expr::Get { object, name } => Expr::Get { object: Box::new(copy_expr(object)), name: name.clone() },
        Expr::Conditional { cond, left, right } => Expr::Conditional {
            cond: Box::new(copy_expr(cond)),
            left: Box::new(copy_expr(left)),
            right: Box::new(copy_expr(right)),
        },
        Expr::Grouping(inner) => Expr::Grouping(Box::new(copy_expr(inner))),
        Expr::Lambda(f) => Expr::Lambda(copy_fun(f)),
        Expr::Literal(l) => Expr::Literal(l.clone()),
        Expr::Logical { left, operator, right } => Expr::Logical {
            left: Box::new(copy_expr(left)),
            operator: operator.clone(),
            right: Box::new(copy_expr(right)),
        },
        Expr::SetField { object, name, value } => Expr::SetField {
            object: Box::new(copy_expr(object)),
            name: name.clone(),
            value: Box::new(copy_expr(value)),
        },
        Expr::Super { keyword, method } => Expr::Super { keyword: copy_binding(keyword), method: method.clone() },
        Expr::This(b) => Expr::This(copy_binding(b)),
        Expr::Unary { operator, right } => Expr::Unary { operator: operator.clone(), right: Box::new(copy_expr(right)) },
        Expr::Variable(b) => Expr::Variable(copy_binding(b)),
    }
}

pub fn copy_stmt(s: &Stmt) -> (r: Stmt)
    ensures
        r@ == s@,
    decreases s, 0nat,
{
    match s {
        Stmt::Block(b) => Stmt::Block(copy_stmts(b)),
        Stmt::Class(d) => Stmt::Class(copy_class_decl(d)),
        Stmt::Expression(e) => Stmt::Expression(copy_expr(e)),
        Stmt::Function(d) => Stmt::Function(copy_fun_decl(d)),
        Stmt::If { condition, then_branch, else_branch } => Stmt::If {
            condition: copy_expr(condition),
            then_branch: Box::new(copy_stmt(then_branch)),
            else_branch: match else_branch {
                Some(e) => Some(Box::new(copy_stmt(e))),
                None => None,
            },
        },
        Stmt::Print(e) => Stmt::Print(copy_expr(e)),
        Stmt::Return { keyword, value } => Stmt::Return {
            keyword: keyword.clone(),
            value: match value {
                Some(v) => Some(copy_expr(v)),
                None => None,
            },
        },
        Stmt::Var { name, initializer } => Stmt::Var {
            name: name.clone(),
            initializer: match initializer {
                Some(v) => Some(copy_expr(v)),
                None => None,
            },
        },
        Stmt::While { condition, body } => Stmt::While { condition: copy_expr(condition), body: Box::new(copy_stmt(body)) },
    }
}

} // verus!
