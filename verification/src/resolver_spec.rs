//! What resolving a program means: each read or assignment of a local
//! variable gets the number of scopes between it and the declaration, and the
//! first misuse of a name is reported.
//!
//! The functions below walk a syntax tree with the stack of scopes and the
//! kind of function and class being resolved, and give the tree with its
//! depths filled in and the state after it, or the first report.

use vstd::prelude::*;
use crate::expr::{BindingView, ExprView, FunView};
use crate::lox::runtime_error_text;
use crate::scope::{declared, scope_declare, scope_defined, scope_first_unused, scope_set_status, VarStatus, VarView};
use crate::stmt::{ClassDeclView, FunDeclView, StmtView};
use crate::token::{TokenType, TokenView};

verus! {

/// The kind of function whose body is being resolved.
#[derive(Debug, Clone, Copy, PartialEq, Eq, Structural)]
pub enum FunctionType {
    NoFunction,
    Function,
    Lambda,
    Method,
}

/// The kind of class whose body is being resolved.
#[derive(Debug, Clone, Copy, PartialEq, Eq, Structural)]
pub enum ClassType {
    NoClass,
    Class,
    Subclass,
}

/// The resolver's state as plain values: the scopes, innermost last.
pub struct RState {
    pub scopes: Seq<Seq<VarView>>,
    pub function: FunctionType,
    pub class: ClassType,
}

pub open spec fn with_scopes(st: RState, scopes: Seq<Seq<VarView>>) -> RState {
    RState { scopes, function: st.function, class: st.class }
}

pub open spec fn with_class(st: RState, class: ClassType) -> RState {
    RState { scopes: st.scopes, function: st.function, class }
}

/// A report of the resolver, located at `t`'s line.
pub open spec fn res_error(t: TokenView, message: Seq<char>) -> Seq<char> {
    runtime_error_text(t.line, message)
}

pub open spec fn begin_scope(st: RState) -> RState {
    with_scopes(st, st.scopes.push(Seq::empty()))
}

/// Leaves the innermost scope; a variable of it that was never read is an error.
pub open spec fn end_scope(st: RState) -> Result<RState, Seq<char>> {
    if st.scopes.len() == 0 {
        Ok(st)
    } else {
        match scope_first_unused(st.scopes.last()) {
            Some(t) => Err(res_error(t, "Unused variable"@)),
            None => Ok(with_scopes(st, st.scopes.drop_last())),
        }
    }
}

pub open spec fn update_last(st: RState, s: Seq<VarView>) -> RState {
    with_scopes(st, st.scopes.update(st.scopes.len() - 1, s))
}

/// Declares `t` in the innermost scope (nothing at the top of a program
/// without scopes); a second declaration there is an error.
pub open spec fn declare_name(st: RState, t: TokenView) -> Result<RState, Seq<char>> {
    if st.scopes.len() == 0 {
        Ok(st)
    } else if declared(st.scopes.last(), t.lexeme) {
        Err(res_error(t, "Already a variable with this name in this scope."@))
    } else {
        Ok(update_last(st, scope_declare(st.scopes.last(), t)))
    }
}

/// Marks `t` ready to be read, where the innermost scope declares it.
pub open spec fn define_name(st: RState, t: TokenView) -> RState {
    if st.scopes.len() > 0 && declared(st.scopes.last(), t.lexeme) {
        update_last(st, scope_set_status(st.scopes.last(), t.lexeme, VarStatus::Defined))
    } else {
        st
    }
}

/// Puts a name that never counts as unused (`this`, `super`) in the innermost scope.
pub open spec fn declare_used(st: RState, t: TokenView) -> RState {
    update_last(st, scope_set_status(scope_declare(st.scopes.last(), t), t.lexeme, VarStatus::Used))
}

/// The number of scopes between the innermost one and the first, from the
/// `i`-th innermost on, that declares `name`.
pub open spec fn local_from(scopes: Seq<Seq<VarView>>, name: Seq<char>, i: int) -> Option<nat>
    decreases scopes.len() - i,
{
    if i < 0 || i >= scopes.len() {
        None
    } else if declared(scopes[scopes.len() - 1 - i], name) {
        Some(i as nat)
    } else {
        local_from(scopes, name, i + 1)
    }
}

/// The depth of `name`, and the state after it was found (read variables
/// are marked as used).
pub open spec fn resolve_local(st: RState, name: Seq<char>, is_read: bool) -> (RState, Option<nat>) {
    match local_from(st.scopes, name, 0) {
        Some(d) => {
            let k = st.scopes.len() - 1 - d;
            if is_read {
                (with_scopes(st, st.scopes.update(k, scope_set_status(st.scopes[k], name, VarStatus::Used))), Some(d))
            } else {
                (st, Some(d))
            }
        },
        None => (st, None),
    }
}

/// A found depth, else the one the binding had.
pub open spec fn depth_or(found: Option<nat>, old: Option<nat>) -> Option<nat> {
    match found {
        Some(d) => Some(d),
        None => old,
    }
}

/// A read of a variable.
pub open spec fn resolve_variable(st: RState, b: BindingView) -> Result<(RState, BindingView), Seq<char>> {
    if st.scopes.len() > 0 && declared(st.scopes.last(), b.name.lexeme) && !scope_defined(st.scopes.last(), b.name.lexeme) {
        Err(res_error(b.name, "Can't read local variable in its own initializer."@))
    } else {
        let (s1, d) = resolve_local(st, b.name.lexeme, true);
        Ok((s1, BindingView { name: b.name, depth: depth_or(d, b.depth) }))
    }
}

pub open spec fn resolve_expr(st: RState, e: ExprView) -> Result<(RState, ExprView), Seq<char>>
    decreases e, 0nat,
{
    match e {
        ExprView::Assign { variable, value } => match resolve_expr(st, *value) {
            Err(x) => Err(x),
            Ok((s1, v)) => {
                let (s2, d) = resolve_local(s1, variable.name.lexeme, false);
                Ok((s2, ExprView::Assign {
                    variable: BindingView { name: variable.name, depth: depth_or(d, variable.depth) },
                    value: Box::new(v),
                }))
            },
        },
        ExprView::Binary { left, operator, right } => match resolve_expr(st, *left) {
            Err(x) => Err(x),
            Ok((s1, l)) => match resolve_expr(s1, *right) {
                Err(x) => Err(x),
                Ok((s2, r)) => Ok((s2, ExprView::Binary { left: Box::new(l), operator, right: Box::new(r) })),
            },
        },
        ExprView::Call { callee, paren, arguments } => match resolve_expr(st, *callee) {
            Err(x) => Err(x),
            Ok((s1, c)) => match resolve_exprs(s1, arguments, Seq::empty()) {
                Err(x) => Err(x),
                Ok((s2, args)) => Ok((s2, ExprView::Call { callee: Box::new(c), paren, arguments: args })),
            },
        },
        ExprView::Get { object, name } => match resolve_expr(st, *object) {
            Err(x) => Err(x),
            Ok((s1, o)) => Ok((s1, ExprView::Get { object: Box::new(o), name })),
        },
        ExprView::Conditional { cond, left, right } => match resolve_expr(st, *cond) {
            Err(x) => Err(x),
            Ok((s1, c)) => match resolve_expr(s1, *left) {
                Err(x) => Err(x),
                Ok((s2, l)) => match resolve_expr(s2, *right) {
                    Err(x) => Err(x),
                    Ok((s3, r)) => Ok((s3, ExprView::Conditional { cond: Box::new(c), left: Box::new(l), right: Box::new(r) })),
                },
            },
        },
        ExprView::Grouping(inner) => match resolve_expr(st, *inner) {
            Err(x) => Err(x),
            Ok((s1, i)) => Ok((s1, ExprView::Grouping(Box::new(i)))),
        },
        ExprView::Lambda(f) => match resolve_function(st, f, FunctionType::Lambda) {
            Err(x) => Err(x),
            Ok((s1, f1)) => Ok((s1, ExprView::Lambda(f1))),
        },
        ExprView::Literal(_) => Ok((st, e)),
        ExprView::Logical { left, operator, right } => match resolve_expr(st, *left) {
            Err(x) => Err(x),
            Ok((s1, l)) => match resolve_expr(s1, *right) {
                Err(x) => Err(x),
                Ok((s2, r)) => Ok((s2, ExprView::Logical { left: Box::new(l), operator, right: Box::new(r) })),
            },
        },
        ExprView::SetField { object, name, value } => match resolve_expr(st, *value) {
            Err(x) => Err(x),
            Ok((s1, v)) => match resolve_expr(s1, *object) {
                Err(x) => Err(x),
                Ok((s2, o)) => Ok((s2, ExprView::SetField { object: Box::new(o), name, value: Box::new(v) })),
            },
        },
        ExprView::Super { keyword, method } => if st.class == ClassType::NoClass {
            Err(res_error(keyword.name, "Can't use 'super' outside of a class."@))
        } else if st.class != ClassType::Subclass {
            Err(res_error(keyword.name, "Can't use 'super' in a class with no superclass."@))
        } else {
            let (s1, d) = resolve_local(st, keyword.name.lexeme, true);
            Ok((s1, ExprView::Super { keyword: BindingView { name: keyword.name, depth: depth_or(d, keyword.depth) }, method }))
        },
        ExprView::This(b) => if st.class == ClassType::NoClass {
            Err(res_error(b.name, "Can't use 'this' outside of a class."@))
        } else {
            let (s1, d) = resolve_local(st, b.name.lexeme, true);
            Ok((s1, ExprView::This(BindingView { name: b.name, depth: depth_or(d, b.depth) })))
        },
        ExprView::Unary { operator, right } => match resolve_expr(st, *right) {
            Err(x) => Err(x),
            Ok((s1, r)) => Ok((s1, ExprView::Unary { operator, right: Box::new(r) })),
        },
        ExprView::Variable(b) => match resolve_variable(st, b) {
            Err(x) => Err(x),
            Ok((s1, b1)) => Ok((s1, ExprView::Variable(b1))),
        },
    }
}

/// The expressions of `es` in turn, after the resolved `acc`.
pub open spec fn resolve_exprs(st: RState, es: Seq<ExprView>, acc: Seq<ExprView>) -> Result<(RState, Seq<ExprView>), Seq<char>>
    decreases es, es.len(),
{
    if es.len() == 0 {
        Ok((st, acc))
    } else {
        match resolve_expr(st, es[0]) {
            Err(x) => Err(x),
            Ok((s1, e1)) => resolve_exprs(s1, es.subrange(1, es.len() as int), acc.push(e1)),
        }
    }
}

/// The parameters from the `i`-th on, each declared and defined.
pub open spec fn declare_params(st: RState, ps: Seq<TokenView>, i: int) -> Result<RState, Seq<char>>
    decreases ps.len() - i,
{
    if i < 0 || i >= ps.len() {
        Ok(st)
    } else {
        match declare_name(st, ps[i]) {
            Err(x) => Err(x),
            Ok(s1) => declare_params(define_name(s1, ps[i]), ps, i + 1),
        }
    }
}

/// A function body in a scope of its own, with its parameters.
pub open spec fn resolve_function(st: RState, f: FunView, kind: FunctionType) -> Result<(RState, FunView), Seq<char>>
    decreases f, 0nat,
{
    let s0 = begin_scope(RState { scopes: st.scopes, function: kind, class: st.class });
    match declare_params(s0, f.params, 0) {
        Err(x) => Err(x),
        Ok(s1) => match resolve_stmts(s1, f.body, Seq::empty()) {
            Err(x) => Err(x),
            Ok((s2, body)) => match end_scope(s2) {
                Err(x) => Err(x),
                Ok(s3) => Ok((RState { scopes: s3.scopes, function: st.function, class: s3.class }, FunView { params: f.params, body })),
            },
        },
    }
}

/// The methods of `ms` in turn, after the resolved `acc`.
pub open spec fn resolve_methods(st: RState, ms: Seq<FunDeclView>, acc: Seq<FunDeclView>) -> Result<(RState, Seq<FunDeclView>), Seq<char>>
    decreases ms, ms.len(),
{
    if ms.len() == 0 {
        Ok((st, acc))
    } else {
        match resolve_method(st, ms[0]) {
            Err(x) => Err(x),
            Ok((s1, m)) => resolve_methods(s1, ms.subrange(1, ms.len() as int), acc.push(m)),
        }
    }
}

pub open spec fn resolve_method(st: RState, m: FunDeclView) -> Result<(RState, FunDeclView), Seq<char>>
    decreases m, 0nat,
{
    match resolve_function(st, m.fun, FunctionType::Method) {
        Err(x) => Err(x),
        Ok((s1, f)) => Ok((s1, FunDeclView { name: m.name, fun: f })),
    }
}

/// The token a scope holds for `this` or `super`, at `line`.
pub open spec fn keyword_token(tt: TokenType, lexeme: Seq<char>, line: nat) -> TokenView {
    TokenView { token_type: tt, lexeme, literal: None, line }
}

/// The superclass of a class, and the scope that holds `super`.
pub open spec fn resolve_superclass(st: RState, d: ClassDeclView) -> Result<(RState, Option<BindingView>), Seq<char>> {
    match d.superclass {
        None => Ok((st, None)),
        Some(b) => if b.name.lexeme == d.name.lexeme {
            Err(res_error(b.name, "A class can't inherit from itself."@))
        } else {
            match resolve_variable(with_class(st, ClassType::Subclass), b) {
                Err(x) => Err(x),
                Ok((s1, b1)) => Ok((declare_used(begin_scope(s1), keyword_token(TokenType::SUPER, "super"@, d.name.line)), Some(b1))),
            }
        },
    }
}

pub open spec fn resolve_class(st: RState, d: ClassDeclView) -> Result<(RState, ClassDeclView), Seq<char>>
    decreases d, 0nat,
{
    match declare_name(st, d.name) {
        Err(x) => Err(x),
        Ok(s1) => {
            let s2 = with_class(define_name(s1, d.name), ClassType::Class);
            match resolve_superclass(s2, d) {
                Err(x) => Err(x),
                Ok((s3, sup)) => {
                    let s4 = declare_used(begin_scope(s3), keyword_token(TokenType::THIS, "this"@, d.name.line));
                    match resolve_methods(s4, d.methods, Seq::empty()) {
                        Err(x) => Err(x),
                        Ok((s5, methods)) => match end_scope(s5) {
                            Err(x) => Err(x),
                            Ok(s6) => {
                                let s7 = if d.superclass is Some { end_scope(s6) } else { Ok(s6) };
                                match s7 {
                                    Err(x) => Err(x),
                                    Ok(s8) => Ok((with_class(s8, st.class), ClassDeclView { name: d.name, superclass: sup, methods })),
                                }
                            },
                        },
                    }
                },
            }
        },
    }
}

pub open spec fn resolve_stmt(st: RState, s: StmtView) -> Result<(RState, StmtView), Seq<char>>
    decreases s, 0nat,
{
    match s {
        StmtView::Block(ss) => match resolve_stmts(begin_scope(st), ss, Seq::empty()) {
            Err(x) => Err(x),
            Ok((s1, b)) => match end_scope(s1) {
                Err(x) => Err(x),
                Ok(s2) => Ok((s2, StmtView::Block(b))),
            },
        },
        StmtView::Class(d) => match resolve_class(st, d) {
            Err(x) => Err(x),
            Ok((s1, d1)) => Ok((s1, StmtView::Class(d1))),
        },
        StmtView::Expression(e) => match resolve_expr(st, e) {
            Err(x) => Err(x),
            Ok((s1, e1)) => Ok((s1, StmtView::Expression(e1))),
        },
        StmtView::Function(d) => match declare_name(st, d.name) {
            Err(x) => Err(x),
            Ok(s1) => match resolve_function(define_name(s1, d.name), d.fun, FunctionType::Function) {
                Err(x) => Err(x),
                Ok((s2, f)) => Ok((s2, StmtView::Function(FunDeclView { name: d.name, fun: f }))),
            },
        },
        StmtView::If { condition, then_branch, else_branch } => match resolve_expr(st, condition) {
            Err(x) => Err(x),
            Ok((s1, c)) => match resolve_stmt(s1, *then_branch) {
                Err(x) => Err(x),
                Ok((s2, t)) => match else_branch {
                    None => Ok((s2, StmtView::If { condition: c, then_branch: Box::new(t), else_branch: None })),
                    Some(eb) => match resolve_stmt(s2, *eb) {
                        Err(x) => Err(x),
                        Ok((s3, e)) => Ok((s3, StmtView::If { condition: c, then_branch: Box::new(t), else_branch: Some(Box::new(e)) })),
                    },
                },
            },
        },
        StmtView::Print(e) => match resolve_expr(st, e) {
            Err(x) => Err(x),
            Ok((s1, e1)) => Ok((s1, StmtView::Print(e1))),
        },
        StmtView::Return { keyword, value } => if st.function == FunctionType::NoFunction {
            Err(res_error(keyword, "Can't return from top-level code."@))
        } else {
            match value {
                None => Ok((st, s)),
                Some(v) => match resolve_expr(st, v) {
                    Err(x) => Err(x),
                    Ok((s1, v1)) => Ok((s1, StmtView::Return { keyword, value: Some(v1) })),
                },
            }
        },
        StmtView::Var { name, initializer } => match declare_name(st, name) {
            Err(x) => Err(x),
            Ok(s1) => match initializer {
                None => Ok((define_name(s1, name), s)),
                Some(i) => match resolve_expr(s1, i) {
                    Err(x) => Err(x),
                    Ok((s2, i1)) => Ok((define_name(s2, name), StmtView::Var { name, initializer: Some(i1) })),
                },
            },
        },
        StmtView::While { condition, body } => match resolve_expr(st, condition) {
            Err(x) => Err(x),
            Ok((s1, c)) => match resolve_stmt(s1, *body) {
                Err(x) => Err(x),
                Ok((s2, b)) => Ok((s2, StmtView::While { condition: c, body: Box::new(b) })),
            },
        },
    }
}

/// The statements of `ss` in turn, after the resolved `acc`.
pub open spec fn resolve_stmts(st: RState, ss: Seq<StmtView>, acc: Seq<StmtView>) -> Result<(RState, Seq<StmtView>), Seq<char>>
    decreases ss, ss.len(),
{
    if ss.len() == 0 {
        Ok((st, acc))
    } else {
        match resolve_stmt(st, ss[0]) {
            Err(x) => Err(x),
            Ok((s1, x1)) => resolve_stmts(s1, ss.subrange(1, ss.len() as int), acc.push(x1)),
        }
    }
}

/// The state a resolver starts from.
pub open spec fn initial_state() -> RState {
    RState { scopes: Seq::empty(), function: FunctionType::NoFunction, class: ClassType::NoClass }
}

/// A whole program, resolved in a scope of its own: the program with its
/// depths, or the first report.
pub open spec fn resolve_program(ss: Seq<StmtView>) -> Result<Seq<StmtView>, Seq<char>> {
    match resolve_stmts(begin_scope(initial_state()), ss, Seq::empty()) {
        Err(x) => Err(x),
        Ok((s1, out)) => match end_scope(s1) {
            Err(x) => Err(x),
            Ok(_) => Ok(out),
        },
    }
}

} // verus!

verus! {

/// An assignment is no read: resolving the assigned name changes no scope.
pub proof fn law_assignment_is_not_a_read(st: RState, name: Seq<char>)
    ensures
        resolve_local(st, name, false).0 == st,
{
}

proof fn lemma_set_status_marks(vars: Seq<VarView>, name: Seq<char>, status: VarStatus)
    requires
        declared(vars, name),
    ensures
        declared(scope_set_status(vars, name, status), name),
        scope_set_status(vars, name, status)[crate::scope::index_of(scope_set_status(vars, name, status), name)].status == status,
{
    let i = crate::scope::index_of(vars, name);
    crate::scope::lemma_index_from_bounds(vars, name, 0);
    let w = scope_set_status(vars, name, status);
    crate::scope::lemma_index_from_bounds(w, name, 0);
    assert forall|j: int| 0 <= j < i implies w[j].token.lexeme != name by {
        assert(w[j] == vars[j]);
    }
    lemma_index_is(w, name, 0, i);
}

proof fn lemma_index_is(vars: Seq<VarView>, name: Seq<char>, from: int, i: int)
    requires
        0 <= from <= i < vars.len(),
        vars[i].token.lexeme == name,
        forall|j: int| from <= j < i ==> vars[j].token.lexeme != name,
    ensures
        crate::scope::index_from(vars, name, from) == i,
    decreases i - from,
{
    if from < i {
        lemma_index_is(vars, name, from + 1, i);
    }
}

/// Reading a variable marks it as read in the scope where it was found.
pub proof fn law_read_marks_variable_used(st: RState, name: Seq<char>, d: nat)
    requires
        local_from(st.scopes, name, 0) == Some(d),
    ensures
        ({
            let k = st.scopes.len() - 1 - d;
            let s = resolve_local(st, name, true).0.scopes[k];
            declared(s, name) && s[crate::scope::index_of(s, name)].status == VarStatus::Used
        }),
{
    lemma_local_from_found(st.scopes, name, 0);
    let k = st.scopes.len() - 1 - d;
    lemma_set_status_marks(st.scopes[k], name, VarStatus::Used);
}

proof fn lemma_local_from_found(scopes: Seq<Seq<VarView>>, name: Seq<char>, i: int)
    requires
        0 <= i,
    ensures
        local_from(scopes, name, i) matches Some(d) ==> i <= d < scopes.len() && declared(scopes[scopes.len() - 1 - d], name),
    decreases scopes.len() - i,
{
    if i < scopes.len() && !declared(scopes[scopes.len() - 1 - i], name) {
        lemma_local_from_found(scopes, name, i + 1);
    }
}

/// `this` and `super` are put in their scope as already read, so they are
/// never reported as unused.
pub proof fn law_keywords_count_as_read(st: RState, t: TokenView)
    requires
        st.scopes.len() > 0,
    ensures
        ({
            let s = declare_used(st, t).scopes.last();
            declared(s, t.lexeme) && s[crate::scope::index_of(s, t.lexeme)].status == VarStatus::Used
        }),
{
    let v = scope_declare(st.scopes.last(), t);
    crate::scope::lemma_index_from_bounds(st.scopes.last(), t.lexeme, 0);
    crate::scope::lemma_index_from_bounds(v, t.lexeme, 0);
    if !declared(st.scopes.last(), t.lexeme) {
        let n = st.scopes.last().len() as int;
        assert(v[n].token.lexeme == t.lexeme);
        assert forall|j: int| 0 <= j < n implies v[j].token.lexeme != t.lexeme by {
            assert(v[j] == st.scopes.last()[j]);
            crate::scope::lemma_index_from_bounds(st.scopes.last(), t.lexeme, 0);
            lemma_not_declared(st.scopes.last(), t.lexeme, 0, j);
        }
        lemma_index_is(v, t.lexeme, 0, n);
    } else {
        let k = crate::scope::index_of(st.scopes.last(), t.lexeme);
        assert(v[k].token.lexeme == t.lexeme);
        assert forall|j: int| 0 <= j < k implies v[j].token.lexeme != t.lexeme by {
            assert(v[j] == st.scopes.last()[j]);
        }
        lemma_index_is(v, t.lexeme, 0, k);
    }
    lemma_set_status_marks(v, t.lexeme, VarStatus::Used);
}

proof fn lemma_not_declared(vars: Seq<VarView>, name: Seq<char>, from: int, j: int)
    requires
        0 <= from <= j < vars.len(),
        crate::scope::index_from(vars, name, from) >= vars.len(),
    ensures
        vars[j].token.lexeme != name,
    decreases j - from,
{
    if from < j {
        lemma_not_declared(vars, name, from + 1, j);
    }
}

/// Leaving a scope whose variables were all read reports nothing.
pub proof fn law_read_scope_ends_cleanly(st: RState)
    requires
        st.scopes.len() > 0,
        forall|i: int| 0 <= i < st.scopes.last().len() ==> (#[trigger] st.scopes.last()[i]).status == VarStatus::Used,
    ensures
        end_scope(st) == Ok::<RState, Seq<char>>(with_scopes(st, st.scopes.drop_last())),
{
    crate::scope::lemma_unused_from_bounds(st.scopes.last(), 0);
}

/// Leaving a scope that holds a variable never read is the report
/// `Unused variable` at the line of the first such variable.
pub proof fn law_unread_variable_reported(st: RState, i: int)
    requires
        st.scopes.len() > 0,
        0 <= i < st.scopes.last().len(),
        st.scopes.last()[i].status != VarStatus::Used,
    ensures
        end_scope(st) is Err,
        scope_first_unused(st.scopes.last()) matches Some(t) && end_scope(st) == Err::<RState, Seq<char>>(res_error(t, "Unused variable"@)),
{
    crate::scope::lemma_unused_from_bounds(st.scopes.last(), 0);
}

} // verus!
