//! The resolver: fills in the depth of each local variable a program reads
//! or assigns, and reports misused names, as `resolver_spec` states.

use vstd::prelude::*;
use crate::expr::{lemma_exprs_view_len, lemma_exprs_view_push, Binding, BindingView, Expr, ExprView, FunExpr, FunView};
use crate::lox::fmt_runtime_error;
use crate::resolver_spec::{
    begin_scope, declare_name, declare_params, declare_used, define_name, depth_or, end_scope, initial_state,
    keyword_token, res_error, resolve_class, resolve_expr, resolve_exprs, resolve_function, resolve_local, resolve_method,
    resolve_methods, resolve_stmt, resolve_stmts, resolve_superclass, resolve_variable, local_from, update_last,
    with_class, with_scopes, ClassType, FunctionType, RState,
};
use crate::scope::{declared, Scope, VarView};
use crate::stmt::{
    lemma_fun_decls_view_len, lemma_fun_decls_view_push, lemma_stmts_view_len, lemma_stmts_view_push, ClassDecl,
    ClassDeclView, FunDecl, FunDeclView, Stmt, StmtView,
};
use crate::text::text_of;
use crate::token::{Token, TokenType, TokenView};

verus! {

/// A report of the resolver, holding its full text.
#[derive(Debug)]
pub struct ResolveError(pub String);

impl ResolveError {
    /// The report `message` at `token`'s line.
    pub fn new(token: &Token, message: &str) -> (r: ResolveError)
        ensures
            r.0@ == res_error(token@, message@),
    {
        ResolveError(fmt_runtime_error(token.line, message))
    }
}

/// The resolver's state: a stack of scopes, and the kinds of the function
/// and class being resolved.
pub struct Resolver {
    scopes: Vec<Scope>,
    current_function: FunctionType,
    current_class: ClassType,
}

impl View for Resolver {
    type V = RState;

    closed spec fn view(&self) -> RState {
        RState { scopes: self.scopes@.map_values(|s: Scope| s@), function: self.current_function, class: self.current_class }
    }
}

/// The views of a sequence of parameter tokens.
pub open spec fn params_view(ps: Seq<Token>) -> Seq<TokenView> {
    ps.map_values(|t: Token| t@)
}


/// Dropping the first element commutes with taking views.
pub proof fn lemma_exprs_view_tail(s: Seq<Expr>)
    requires
        s.len() > 0,
    ensures
        crate::expr::exprs_view(s.subrange(1, s.len() as int)) == crate::expr::exprs_view(s).subrange(1, s.len() as int),
        crate::expr::exprs_view(s)[0] == s[0]@,
        crate::expr::exprs_view(s).len() == s.len(),
{
    lemma_exprs_view_len(s);
    lemma_exprs_view_len(s.subrange(1, s.len() as int));
    assert(crate::expr::exprs_view(s.subrange(1, s.len() as int)) =~= crate::expr::exprs_view(s).subrange(1, s.len() as int));
}

pub proof fn lemma_stmts_view_tail(s: Seq<Stmt>)
    requires
        s.len() > 0,
    ensures
        crate::stmt::stmts_view(s.subrange(1, s.len() as int)) == crate::stmt::stmts_view(s).subrange(1, s.len() as int),
        crate::stmt::stmts_view(s)[0] == s[0]@,
        crate::stmt::stmts_view(s).len() == s.len(),
{
    lemma_stmts_view_len(s);
    lemma_stmts_view_len(s.subrange(1, s.len() as int));
    assert(crate::stmt::stmts_view(s.subrange(1, s.len() as int)) =~= crate::stmt::stmts_view(s).subrange(1, s.len() as int));
}

pub proof fn lemma_fun_decls_view_tail(s: Seq<FunDecl>)
    requires
        s.len() > 0,
    ensures
        crate::stmt::fun_decls_view(s.subrange(1, s.len() as int)) == crate::stmt::fun_decls_view(s).subrange(1, s.len() as int),
        crate::stmt::fun_decls_view(s)[0] == crate::stmt::fun_decl_view(&s[0]),
        crate::stmt::fun_decls_view(s).len() == s.len(),
{
    lemma_fun_decls_view_len(s);
    lemma_fun_decls_view_len(s.subrange(1, s.len() as int));
    assert(crate::stmt::fun_decls_view(s.subrange(1, s.len() as int)) =~= crate::stmt::fun_decls_view(s).subrange(1, s.len() as int));
}

proof fn lemma_resolve_methods_step(st: RState, ms: Seq<FunDeclView>, acc: Seq<FunDeclView>)
    requires
        ms.len() > 0,
    ensures
        resolve_methods(st, ms, acc) == (match resolve_method(st, ms[0]) {
            Err(x) => Err(x),
            Ok((s1, m)) => resolve_methods(s1, ms.subrange(1, ms.len() as int), acc.push(m)),
        }),
{
}

proof fn lemma_resolve_method(st: RState, m: FunDeclView)
    ensures
        resolve_method(st, m) == (match resolve_function(st, m.fun, FunctionType::Method) {
            Err(x) => Err(x),
            Ok((s1, f)) => Ok((s1, (FunDeclView { name: m.name, fun: f }))),
        }),
{
}

impl Resolver {
    /// A resolver outside any scope, function or class.
    pub fn new() -> (r: Resolver)
        ensures
            r@ == initial_state(),
    {
        let r = Resolver { scopes: Vec::new(), current_function: FunctionType::NoFunction, current_class: ClassType::NoClass };
        assert(r@.scopes =~= Seq::<Seq<VarView>>::empty());
        r
    }

    /// Resolves a whole program in a scope of its own.
    pub fn resolve(&mut self, statements: Vec<Stmt>) -> (r: Result<Vec<Stmt>, ResolveError>)
        ensures
            r matches Ok(v) ==> (match resolve_stmts(begin_scope(old(self)@), crate::stmt::stmts_view(statements@), Seq::empty()) {
                Ok((s1, out)) => end_scope(s1) == Ok::<RState, Seq<char>>(final(self)@) && out == crate::stmt::stmts_view(v@),
                Err(_) => false,
            }),
            r matches Err(e) ==> (match resolve_stmts(begin_scope(old(self)@), crate::stmt::stmts_view(statements@), Seq::empty()) {
                Ok((s1, _)) => end_scope(s1) == Err::<RState, Seq<char>>(e.0@),
                Err(x) => x == e.0@,
            }),
    {
        self.begin_scope();
        let acc: Vec<Stmt> = Vec::new();
        assert(crate::stmt::stmts_view(acc@) =~= Seq::<StmtView>::empty());
        let out = match self.resolve_stmts(statements, acc) {
            Ok(v) => v,
            Err(e) => {
                return Err(e);
            },
        };
        match self.end_scope() {
            Ok(()) => Ok(out),
            Err(e) => Err(e),
        }
    }

    fn begin_scope(&mut self)
        ensures
            final(self)@ == begin_scope(old(self)@),
    {
        self.scopes.push(Scope::new());
        assert(final(self)@.scopes =~= old(self)@.scopes.push(Seq::empty()));
    }

    fn end_scope(&mut self) -> (r: Result<(), ResolveError>)
        ensures
            r is Ok ==> end_scope(old(self)@) == Ok::<RState, Seq<char>>(final(self)@),
            r matches Err(e) ==> end_scope(old(self)@) == Err::<RState, Seq<char>>(e.0@),
    {
        if self.scopes.len() == 0 {
            return Ok(());
        }
        let ghost before = self@;
        let last = self.scopes.pop().unwrap();
        assert(last@ == before.scopes.last());
        assert(self@.scopes =~= before.scopes.drop_last());
        match last.first_unused() {
            Some(t) => Err(ResolveError::new(t, "Unused variable")),
            None => Ok(()),
        }
    }

    /// The innermost scope is `s`, the rest unchanged.
    proof fn lemma_set_last(old_r: Resolver, new_r: Resolver, k: int)
        requires
            0 <= k < old_r.scopes@.len(),
            new_r.scopes@ == old_r.scopes@.update(k, new_r.scopes@[k]),
            new_r.current_function == old_r.current_function,
            new_r.current_class == old_r.current_class,
        ensures
            new_r@ == with_scopes(old_r@, old_r@.scopes.update(k, new_r.scopes@[k]@)),
    {
        assert(new_r@.scopes =~= old_r@.scopes.update(k, new_r.scopes@[k]@));
    }

    fn declare(&mut self, name: &Token) -> (r: Result<(), ResolveError>)
        ensures
            r is Ok ==> declare_name(old(self)@, name@) == Ok::<RState, Seq<char>>(final(self)@),
            r matches Err(e) ==> declare_name(old(self)@, name@) == Err::<RState, Seq<char>>(e.0@),
    {
        let n = self.scopes.len();
        if n == 0 {
            return Ok(());
        }
        assert(self@.scopes.last() == self.scopes@[n - 1]@);
        if self.scopes[n - 1].is_declared(name) {
            return Err(ResolveError::new(name, "Already a variable with this name in this scope."));
        }
        let ghost before = *self;
        self.scopes[n - 1].declare(name);
        proof {
            Self::lemma_set_last(before, *self, n - 1);
        }
        Ok(())
    }

    fn define(&mut self, name: &Token)
        ensures
            final(self)@ == define_name(old(self)@, name@),
    {
        let n = self.scopes.len();
        if n == 0 {
            return;
        }
        assert(self@.scopes.last() == self.scopes@[n - 1]@);
        if self.scopes[n - 1].is_declared(name) {
            let ghost before = *self;
            self.scopes[n - 1].define(name);
            proof {
                Self::lemma_set_last(before, *self, n - 1);
            }
        }
    }

    fn declare_used(&mut self, name: &Token)
        requires
            old(self)@.scopes.len() > 0,
        ensures
            final(self)@ == declare_used(old(self)@, name@),
    {
        let n = self.scopes.len();
        assert(self@.scopes.last() == self.scopes@[n - 1]@);
        let ghost before = *self;
        self.scopes[n - 1].declare_used(name);
        proof {
            Self::lemma_set_last(before, *self, n - 1);
        }
    }

    fn resolve_local(&mut self, name: &Token, is_read: bool) -> (r: Option<usize>)
        ensures
            (final(self)@, match r { Some(d) => Some(d as nat), None => None::<nat> }) == resolve_local(old(self)@, name@.lexeme, is_read),
    {
        let n = self.scopes.len();
        let mut i: usize = 0;
        while i < n
            invariant
                n == self.scopes@.len(),
                self@ == old(self)@,
                *self == *old(self),
                i <= n,
                local_from(self@.scopes, name@.lexeme, 0) == local_from(self@.scopes, name@.lexeme, i as int),
            decreases n - i,
        {
            let k = n - 1 - i;
            assert(self@.scopes[k as int] == self.scopes@[k as int]@);
            if self.scopes[k].is_declared(name) {
                if is_read {
                    let ghost before = *self;
                    self.scopes[k].mark_used(name);
                    proof {
                        Self::lemma_set_last(before, *self, k as int);
                    }
                }
                return Some(i);
            }
            i += 1;
        }
        None
    }

    fn depth_or(found: Option<usize>, old: Option<usize>) -> (r: Option<usize>)
        ensures
            (match r { Some(d) => Some(d as nat), None => None::<nat> }) == depth_or(
                match found { Some(d) => Some(d as nat), None => None::<nat> },
                match old { Some(d) => Some(d as nat), None => None::<nat> },
            ),
    {
        match found {
            Some(d) => Some(d),
            None => old,
        }
    }

    fn resolve_variable(&mut self, b: Binding) -> (r: Result<Binding, ResolveError>)
        ensures
            r matches Ok(b1) ==> resolve_variable(old(self)@, b@) == Ok::<(RState, BindingView), Seq<char>>((final(self)@, b1@)),
            r matches Err(e) ==> resolve_variable(old(self)@, b@) == Err::<(RState, BindingView), Seq<char>>(e.0@),
    {
        let n = self.scopes.len();
        if n > 0 {
            assert(self@.scopes.last() == self.scopes@[n - 1]@);
            if self.scopes[n - 1].is_declared(&b.name) && !self.scopes[n - 1].is_defined(&b.name) {
                return Err(ResolveError::new(&b.name, "Can't read local variable in its own initializer."));
            }
        }
        let d = self.resolve_local(&b.name, true);
        let depth = Self::depth_or(d, b.depth);
        Ok(Binding { name: b.name, depth })
    }

    fn resolve_expr(&mut self, e: Expr) -> (r: Result<Expr, ResolveError>)
        ensures
            r matches Ok(e1) ==> resolve_expr(old(self)@, e@) == Ok::<(RState, ExprView), Seq<char>>((final(self)@, e1@)),
            r matches Err(x) ==> resolve_expr(old(self)@, e@) == Err::<(RState, ExprView), Seq<char>>(x.0@),
        decreases e, 2nat,
    {
        if matches!(e, Expr::Assign { .. } | Expr::Binary { .. } | Expr::Call { .. } | Expr::Get { .. }) {
            self.resolve_expr_a(e)
        } else if matches!(e, Expr::Conditional { .. } | Expr::Grouping(_) | Expr::Lambda(_) | Expr::Literal(_) | Expr::Logical { .. }) {
            self.resolve_expr_b(e)
        } else {
            self.resolve_expr_c(e)
        }
    }

    #[verifier::spinoff_prover]
    fn resolve_expr_a(&mut self, e: Expr) -> (r: Result<Expr, ResolveError>)
        requires
            e is Assign || e is Binary || e is Call || e is Get,
        ensures
            r matches Ok(e1) ==> resolve_expr(old(self)@, e@) == Ok::<(RState, ExprView), Seq<char>>((final(self)@, e1@)),
            r matches Err(x) ==> resolve_expr(old(self)@, e@) == Err::<(RState, ExprView), Seq<char>>(x.0@),
        decreases e, 1nat,
    {
        match e {
            Expr::Assign { variable, value } => {
                let v = match self.resolve_expr(*value) {
                    Ok(v) => v,
                    Err(x) => {
                        return Err(x);
                    },
                };
                let d = self.resolve_local(&variable.name, false);
                let depth = Self::depth_or(d, variable.depth);
                Ok(Expr::Assign { variable: Binding { name: variable.name, depth }, value: v.boxed() })
            },
            Expr::Binary { left, operator, right } => {
                let l = match self.resolve_expr(*left) {
                    Ok(v) => v,
                    Err(x) => {
                        return Err(x);
                    },
                };
                let r = match self.resolve_expr(*right) {
                    Ok(v) => v,
                    Err(x) => {
                        return Err(x);
                    },
                };
                Ok(Expr::Binary { left: l.boxed(), operator, right: r.boxed() })
            },
            Expr::Call { callee, paren, arguments } => {
                let c = match self.resolve_expr(*callee) {
                    Ok(v) => v,
                    Err(x) => {
                        return Err(x);
                    },
                };
                let args = match self.resolve_exprs(arguments, Vec::new()) {
                    Ok(v) => v,
                    Err(x) => {
                        return Err(x);
                    },
                };
                Ok(Expr::Call { callee: c.boxed(), paren, arguments: args })
            },
            Expr::Get { object, name } => {
                let o = match self.resolve_expr(*object) {
                    Ok(v) => v,
                    Err(x) => {
                        return Err(x);
                    },
                };
                Ok(Expr::Get { object: o.boxed(), name })
            },
            _ => {
                assert(false);
                Err(ResolveError(String::new()))
            },
        }
    }

    #[verifier::spinoff_prover]
    fn resolve_expr_b(&mut self, e: Expr) -> (r: Result<Expr, ResolveError>)
        requires
            e is Conditional || e is Grouping || e is Lambda || e is Literal || e is Logical,
        ensures
            r matches Ok(e1) ==> resolve_expr(old(self)@, e@) == Ok::<(RState, ExprView), Seq<char>>((final(self)@, e1@)),
            r matches Err(x) ==> resolve_expr(old(self)@, e@) == Err::<(RState, ExprView), Seq<char>>(x.0@),
        decreases e, 1nat,
    {
        match e {
            Expr::Conditional { cond, left, right } => {
                let c = match self.resolve_expr(*cond) {
                    Ok(v) => v,
                    Err(x) => {
                        return Err(x);
                    },
                };
                let l = match self.resolve_expr(*left) {
                    Ok(v) => v,
                    Err(x) => {
                        return Err(x);
                    },
                };
                let r = match self.resolve_expr(*right) {
                    Ok(v) => v,
                    Err(x) => {
                        return Err(x);
                    },
                };
                Ok(Expr::Conditional { cond: c.boxed(), left: l.boxed(), right: r.boxed() })
            },
            Expr::Grouping(inner) => {
                let i = match self.resolve_expr(*inner) {
                    Ok(v) => v,
                    Err(x) => {
                        return Err(x);
                    },
                };
                Ok(Expr::Grouping(i.boxed()))
            },
            Expr::Lambda(f) => {
                let f1 = match self.resolve_function(f, FunctionType::Lambda) {
                    Ok(v) => v,
                    Err(x) => {
                        return Err(x);
                    },
                };
                Ok(Expr::Lambda(f1))
            },
            Expr::Literal(l) => Ok(Expr::Literal(l)),
            Expr::Logical { left, operator, right } => {
                let l = match self.resolve_expr(*left) {
                    Ok(v) => v,
                    Err(x) => {
                        return Err(x);
                    },
                };
                let r = match self.resolve_expr(*right) {
                    Ok(v) => v,
                    Err(x) => {
                        return Err(x);
                    },
                };
                Ok(Expr::Logical { left: l.boxed(), operator, right: r.boxed() })
            },
            _ => {
                assert(false);
                Err(ResolveError(String::new()))
            },
        }
    }

    #[verifier::spinoff_prover]
    fn resolve_expr_c(&mut self, e: Expr) -> (r: Result<Expr, ResolveError>)
        requires
            e is SetField || e is Super || e is This || e is Unary || e is Variable,
        ensures
            r matches Ok(e1) ==> resolve_expr(old(self)@, e@) == Ok::<(RState, ExprView), Seq<char>>((final(self)@, e1@)),
            r matches Err(x) ==> resolve_expr(old(self)@, e@) == Err::<(RState, ExprView), Seq<char>>(x.0@),
        decreases e, 1nat,
    {
        match e {
            Expr::SetField { object, name, value } => {
                let v = match self.resolve_expr(*value) {
                    Ok(v) => v,
                    Err(x) => {
                        return Err(x);
                    },
                };
                let o = match self.resolve_expr(*object) {
                    Ok(v) => v,
                    Err(x) => {
                        return Err(x);
                    },
                };
                Ok(Expr::SetField { object: o.boxed(), name, value: v.boxed() })
            },
            Expr::Super { keyword, method } => {
                if self.current_class == ClassType::NoClass {
                    return Err(ResolveError::new(&keyword.name, "Can't use 'super' outside of a class."));
                }
                if self.current_class != ClassType::Subclass {
                    return Err(ResolveError::new(&keyword.name, "Can't use 'super' in a class with no superclass."));
                }
                let d = self.resolve_local(&keyword.name, true);
                let depth = Self::depth_or(d, keyword.depth);
                Ok(Expr::Super { keyword: Binding { name: keyword.name, depth }, method })
            },
            Expr::This(b) => {
                if self.current_class == ClassType::NoClass {
                    return Err(ResolveError::new(&b.name, "Can't use 'this' outside of a class."));
                }
                let d = self.resolve_local(&b.name, true);
                let depth = Self::depth_or(d, b.depth);
                Ok(Expr::This(Binding { name: b.name, depth }))
            },
            Expr::Unary { operator, right } => {
                let r = match self.resolve_expr(*right) {
                    Ok(v) => v,
                    Err(x) => {
                        return Err(x);
                    },
                };
                Ok(Expr::Unary { operator, right: r.boxed() })
            },
            Expr::Variable(b) => {
                let b1 = match self.resolve_variable(b) {
                    Ok(v) => v,
                    Err(x) => {
                        return Err(x);
                    },
                };
                Ok(Expr::Variable(b1))
            },
            _ => {
                assert(false);
                Err(ResolveError(String::new()))
            },
        }
    }

    #[verifier::spinoff_prover]
    fn resolve_exprs(&mut self, es: Vec<Expr>, acc: Vec<Expr>) -> (r: Result<Vec<Expr>, ResolveError>)
        ensures
            r matches Ok(v) ==> resolve_exprs(old(self)@, crate::expr::exprs_view(es@), crate::expr::exprs_view(acc@))
                == Ok::<(RState, Seq<ExprView>), Seq<char>>((final(self)@, crate::expr::exprs_view(v@))),
            r matches Err(x) ==> resolve_exprs(old(self)@, crate::expr::exprs_view(es@), crate::expr::exprs_view(acc@))
                == Err::<(RState, Seq<ExprView>), Seq<char>>(x.0@),
        decreases es@, 0nat,
    {
        let ghost es0 = es@;
        if es.len() == 0 {
            return Ok(acc);
        }
        let mut rest = es;
        let x = rest.remove(0);
        proof {
            assert(x == es0[0]);
            assert(rest@ =~= es0.subrange(1, es0.len() as int));
            lemma_exprs_view_tail(es0);
        }
        let x1 = match self.resolve_expr(x) {
            Ok(v) => v,
            Err(e) => {
                return Err(e);
            },
        };
        let ghost acc0 = acc@;
        let ghost st1 = self@;
        let mut acc = acc;
        proof {
            lemma_exprs_view_push(acc@, x1);
        }
        acc.push(x1);
        assert(resolve_expr(old(self)@, crate::expr::exprs_view(es0)[0]) == Ok::<(RState, ExprView), Seq<char>>((st1, x1@)));
        assert(resolve_exprs(old(self)@, crate::expr::exprs_view(es0), crate::expr::exprs_view(acc0))
            == resolve_exprs(st1, crate::expr::exprs_view(rest@), crate::expr::exprs_view(acc@)));
        self.resolve_exprs(rest, acc)
    }

    fn declare_params(&mut self, ps: &Vec<Token>) -> (r: Result<(), ResolveError>)
        ensures
            r is Ok ==> declare_params(old(self)@, params_view(ps@), 0) == Ok::<RState, Seq<char>>(final(self)@),
            r matches Err(e) ==> declare_params(old(self)@, params_view(ps@), 0) == Err::<RState, Seq<char>>(e.0@),
    {
        let ghost pv = params_view(ps@);
        let ghost total = declare_params(self@, pv, 0);
        let mut i: usize = 0;
        while i < ps.len()
            invariant
                i <= ps@.len(),
                pv == params_view(ps@),
                total == declare_params(old(self)@, pv, 0),
                total == declare_params(self@, pv, i as int),
            decreases ps.len() - i,
        {
            assert(pv[i as int] == ps@[i as int]@);
            match self.declare(&ps[i]) {
                Ok(()) => {},
                Err(e) => {
                    return Err(e);
                },
            }
            self.define(&ps[i]);
            i += 1;
        }
        Ok(())
    }

    #[verifier::spinoff_prover]
    fn resolve_function(&mut self, f: FunExpr, kind: FunctionType) -> (r: Result<FunExpr, ResolveError>)
        ensures
            r matches Ok(f1) ==> resolve_function(old(self)@, crate::expr::fun_view(&f), kind)
                == Ok::<(RState, FunView), Seq<char>>((final(self)@, crate::expr::fun_view(&f1))),
            r matches Err(x) ==> resolve_function(old(self)@, crate::expr::fun_view(&f), kind)
                == Err::<(RState, FunView), Seq<char>>(x.0@),
        decreases f, 0nat,
    {
        let enclosing = self.current_function;
        let ghost st = self@;
        self.current_function = kind;
        self.begin_scope();
        assert(crate::expr::tokens_seq_view(f.params@) == params_view(f.params@));
        match self.declare_params(&f.params) {
            Ok(()) => {},
            Err(e) => {
                return Err(e);
            },
        }
        let body = match self.resolve_stmts(f.body, Vec::new()) {
            Ok(v) => v,
            Err(e) => {
                return Err(e);
            },
        };
        match self.end_scope() {
            Ok(()) => {},
            Err(e) => {
                return Err(e);
            },
        }
        self.current_function = enclosing;
        Ok(FunExpr { params: f.params, body })
    }

    #[verifier::spinoff_prover]
    fn resolve_method(&mut self, m: FunDecl) -> (r: Result<FunDecl, ResolveError>)
        ensures
            r matches Ok(m1) ==> resolve_method(old(self)@, crate::stmt::fun_decl_view(&m))
                == Ok::<(RState, FunDeclView), Seq<char>>((final(self)@, crate::stmt::fun_decl_view(&m1))),
            r matches Err(x) ==> resolve_method(old(self)@, crate::stmt::fun_decl_view(&m))
                == Err::<(RState, FunDeclView), Seq<char>>(x.0@),
        decreases m, 0nat,
    {
        proof {
            assert(crate::stmt::fun_decl_view(&m) == FunDeclView { name: m.name@, fun: crate::expr::fun_view(&m.expr) });
            lemma_resolve_method(self@, crate::stmt::fun_decl_view(&m));
        }
        let f1 = match self.resolve_function(m.expr, FunctionType::Method) {
            Ok(v) => v,
            Err(e) => {
                return Err(e);
            },
        };
        let m1 = FunDecl { name: m.name, expr: f1 };
        assert(crate::stmt::fun_decl_view(&m1) == FunDeclView { name: m1.name@, fun: crate::expr::fun_view(&m1.expr) });
        Ok(m1)
    }

    fn resolve_methods(&mut self, ms: Vec<FunDecl>, acc: Vec<FunDecl>) -> (r: Result<Vec<FunDecl>, ResolveError>)
        ensures
            r matches Ok(v) ==> resolve_methods(old(self)@, crate::stmt::fun_decls_view(ms@), crate::stmt::fun_decls_view(acc@))
                == Ok::<(RState, Seq<FunDeclView>), Seq<char>>((final(self)@, crate::stmt::fun_decls_view(v@))),
            r matches Err(x) ==> resolve_methods(old(self)@, crate::stmt::fun_decls_view(ms@), crate::stmt::fun_decls_view(acc@))
                == Err::<(RState, Seq<FunDeclView>), Seq<char>>(x.0@),
        decreases ms@, 0nat,
    {
        let ghost ms0 = ms@;
        let ghost st0 = self@;
        let ghost acc0 = crate::stmt::fun_decls_view(acc@);
        if ms.len() == 0 {
            return Ok(acc);
        }
        let mut rest = ms;
        let m = rest.remove(0);
        proof {
            assert(m == ms0[0]);
            assert(rest@ =~= ms0.subrange(1, ms0.len() as int));
            lemma_fun_decls_view_tail(ms0);
            lemma_resolve_methods_step(st0, crate::stmt::fun_decls_view(ms0), acc0);
        }
        let m1 = match self.resolve_method(m) {
            Ok(v) => v,
            Err(e) => {
                return Err(e);
            },
        };
        let mut acc = acc;
        proof {
            lemma_fun_decls_view_push(acc@, m1);
        }
        acc.push(m1);
        self.resolve_methods(rest, acc)
    }

    #[verifier::spinoff_prover]
    fn resolve_class(&mut self, d: ClassDecl) -> (r: Result<ClassDecl, ResolveError>)
        ensures
            r matches Ok(d1) ==> resolve_class(old(self)@, crate::stmt::class_decl_view(&d))
                == Ok::<(RState, ClassDeclView), Seq<char>>((final(self)@, crate::stmt::class_decl_view(&d1))),
            r matches Err(x) ==> resolve_class(old(self)@, crate::stmt::class_decl_view(&d))
                == Err::<(RState, ClassDeclView), Seq<char>>(x.0@),
        decreases d, 0nat,
    {
        let enclosing = self.current_class;
        match self.declare(&d.name) {
            Ok(()) => {},
            Err(e) => {
                return Err(e);
            },
        }
        self.define(&d.name);
        self.current_class = ClassType::Class;
        let has_super = d.superclass.is_some();
        let superclass = match d.superclass {
            None => None,
            Some(b) => {
                if b.name.lexeme == d.name.lexeme {
                    return Err(ResolveError::new(&b.name, "A class can't inherit from itself."));
                }
                self.current_class = ClassType::Subclass;
                let b1 = match self.resolve_variable(b) {
                    Ok(v) => v,
                    Err(e) => {
                        return Err(e);
                    },
                };
                self.begin_scope();
                let super_token = Token::new(TokenType::SUPER, text_of("super"), None, d.name.line);
                self.declare_used(&super_token);
                Some(b1)
            },
        };
        self.begin_scope();
        let this_token = Token::new(TokenType::THIS, text_of("this"), None, d.name.line);
        self.declare_used(&this_token);
        let methods = match self.resolve_methods(d.methods, Vec::new()) {
            Ok(v) => v,
            Err(e) => {
                return Err(e);
            },
        };
        match self.end_scope() {
            Ok(()) => {},
            Err(e) => {
                return Err(e);
            },
        }
        if has_super {
            match self.end_scope() {
                Ok(()) => {},
                Err(e) => {
                    return Err(e);
                },
            }
        }
        self.current_class = enclosing;
        Ok(ClassDecl { name: d.name, superclass, methods })
    }

    fn resolve_stmt(&mut self, s: Stmt) -> (r: Result<Stmt, ResolveError>)
        ensures
            r matches Ok(s1) ==> resolve_stmt(old(self)@, s@) == Ok::<(RState, StmtView), Seq<char>>((final(self)@, s1@)),
            r matches Err(x) ==> resolve_stmt(old(self)@, s@) == Err::<(RState, StmtView), Seq<char>>(x.0@),
        decreases s, 2nat,
    {
        if matches!(s, Stmt::Block(_) | Stmt::Expression(_)) {
            self.resolve_stmt_a(s)
        } else if matches!(s, Stmt::Class(_) | Stmt::Function(_)) {
            self.resolve_stmt_d(s)
        } else if matches!(s, Stmt::If { .. } | Stmt::Print(_) | Stmt::Return { .. }) {
            self.resolve_stmt_b(s)
        } else {
            self.resolve_stmt_c(s)
        }
    }

    #[verifier::spinoff_prover]
    fn resolve_stmt_a(&mut self, s: Stmt) -> (r: Result<Stmt, ResolveError>)
        requires
            s is Block || s is Expression,
        ensures
            r matches Ok(s1) ==> resolve_stmt(old(self)@, s@) == Ok::<(RState, StmtView), Seq<char>>((final(self)@, s1@)),
            r matches Err(x) ==> resolve_stmt(old(self)@, s@) == Err::<(RState, StmtView), Seq<char>>(x.0@),
        decreases s, 1nat,
    {
        match s {
            Stmt::Block(ss) => {
                self.begin_scope();
                let b = match self.resolve_stmts(ss, Vec::new()) {
                    Ok(v) => v,
                    Err(x) => {
                        return Err(x);
                    },
                };
                match self.end_scope() {
                    Ok(()) => {},
                    Err(x) => {
                        return Err(x);
                    },
                }
                Ok(Stmt::Block(b))
            },
            Stmt::Expression(e) => {
                let e1 = match self.resolve_expr(e) {
                    Ok(v) => v,
                    Err(x) => {
                        return Err(x);
                    },
                };
                Ok(Stmt::Expression(e1))
            },
            _ => {
                assert(false);
                Err(ResolveError(String::new()))
            },
        }
    }

    #[verifier::spinoff_prover]
    fn resolve_stmt_d(&mut self, s: Stmt) -> (r: Result<Stmt, ResolveError>)
        requires
            s is Class || s is Function,
        ensures
            r matches Ok(s1) ==> resolve_stmt(old(self)@, s@) == Ok::<(RState, StmtView), Seq<char>>((final(self)@, s1@)),
            r matches Err(x) ==> resolve_stmt(old(self)@, s@) == Err::<(RState, StmtView), Seq<char>>(x.0@),
        decreases s, 1nat,
    {
        match s {
            Stmt::Class(d) => {
                let d1 = match self.resolve_class(d) {
                    Ok(v) => v,
                    Err(x) => {
                        return Err(x);
                    },
                };
                Ok(Stmt::Class(d1))
            },
            Stmt::Function(d) => {
                assert(crate::stmt::fun_decl_view(&d) == FunDeclView { name: d.name@, fun: crate::expr::fun_view(&d.expr) });
                match self.declare(&d.name) {
                    Ok(()) => {},
                    Err(x) => {
                        return Err(x);
                    },
                }
                self.define(&d.name);
                let f = match self.resolve_function(d.expr, FunctionType::Function) {
                    Ok(v) => v,
                    Err(x) => {
                        return Err(x);
                    },
                };
                let d1 = FunDecl { name: d.name, expr: f };
                assert(crate::stmt::fun_decl_view(&d1) == FunDeclView { name: d1.name@, fun: crate::expr::fun_view(&d1.expr) });
                Ok(Stmt::Function(d1))
            },
            _ => {
                assert(false);
                Err(ResolveError(String::new()))
            },
        }
    }

    #[verifier::spinoff_prover]
    fn resolve_stmt_b(&mut self, s: Stmt) -> (r: Result<Stmt, ResolveError>)
        requires
            s is If || s is Print || s is Return,
        ensures
            r matches Ok(s1) ==> resolve_stmt(old(self)@, s@) == Ok::<(RState, StmtView), Seq<char>>((final(self)@, s1@)),
            r matches Err(x) ==> resolve_stmt(old(self)@, s@) == Err::<(RState, StmtView), Seq<char>>(x.0@),
        decreases s, 1nat,
    {
        match s {
            Stmt::If { condition, then_branch, else_branch } => {
                let c = match self.resolve_expr(condition) {
                    Ok(v) => v,
                    Err(x) => {
                        return Err(x);
                    },
                };
                let t = match self.resolve_stmt(*then_branch) {
                    Ok(v) => v,
                    Err(x) => {
                        return Err(x);
                    },
                };
                match else_branch {
                    None => Ok(Stmt::If { condition: c, then_branch: t.boxed(), else_branch: None }),
                    Some(eb) => {
                        let e = match self.resolve_stmt(*eb) {
                            Ok(v) => v,
                            Err(x) => {
                                return Err(x);
                            },
                        };
                        Ok(Stmt::If { condition: c, then_branch: t.boxed(), else_branch: Some(e.boxed()) })
                    },
                }
            },
            Stmt::Print(e) => {
                let e1 = match self.resolve_expr(e) {
                    Ok(v) => v,
                    Err(x) => {
                        return Err(x);
                    },
                };
                Ok(Stmt::Print(e1))
            },
            Stmt::Return { keyword, value } => {
                if self.current_function == FunctionType::NoFunction {
                    return Err(ResolveError::new(&keyword, "Can't return from top-level code."));
                }
                match value {
                    None => Ok(Stmt::Return { keyword, value: None }),
                    Some(v) => {
                        let v1 = match self.resolve_expr(v) {
                            Ok(v) => v,
                            Err(x) => {
                                return Err(x);
                            },
                        };
                        Ok(Stmt::Return { keyword, value: Some(v1) })
                    },
                }
            },
            _ => {
                assert(false);
                Err(ResolveError(String::new()))
            },
        }
    }

    #[verifier::spinoff_prover]
    fn resolve_stmt_c(&mut self, s: Stmt) -> (r: Result<Stmt, ResolveError>)
        requires
            s is Var || s is While,
        ensures
            r matches Ok(s1) ==> resolve_stmt(old(self)@, s@) == Ok::<(RState, StmtView), Seq<char>>((final(self)@, s1@)),
            r matches Err(x) ==> resolve_stmt(old(self)@, s@) == Err::<(RState, StmtView), Seq<char>>(x.0@),
        decreases s, 1nat,
    {
        match s {
            Stmt::Var { name, initializer } => {
                match self.declare(&name) {
                    Ok(()) => {},
                    Err(x) => {
                        return Err(x);
                    },
                }
                match initializer {
                    None => {
                        self.define(&name);
                        Ok(Stmt::Var { name, initializer: None })
                    },
                    Some(i) => {
                        let i1 = match self.resolve_expr(i) {
                            Ok(v) => v,
                            Err(x) => {
                                return Err(x);
                            },
                        };
                        self.define(&name);
                        Ok(Stmt::Var { name, initializer: Some(i1) })
                    },
                }
            },
            Stmt::While { condition, body } => {
                let c = match self.resolve_expr(condition) {
                    Ok(v) => v,
                    Err(x) => {
                        return Err(x);
                    },
                };
                let b = match self.resolve_stmt(*body) {
                    Ok(v) => v,
                    Err(x) => {
                        return Err(x);
                    },
                };
                Ok(Stmt::While { condition: c, body: b.boxed() })
            },
            _ => {
                assert(false);
                Err(ResolveError(String::new()))
            },
        }
    }

    #[verifier::spinoff_prover]
    fn resolve_stmts(&mut self, ss: Vec<Stmt>, acc: Vec<Stmt>) -> (r: Result<Vec<Stmt>, ResolveError>)
        ensures
            r matches Ok(v) ==> resolve_stmts(old(self)@, crate::stmt::stmts_view(ss@), crate::stmt::stmts_view(acc@))
                == Ok::<(RState, Seq<StmtView>), Seq<char>>((final(self)@, crate::stmt::stmts_view(v@))),
            r matches Err(x) ==> resolve_stmts(old(self)@, crate::stmt::stmts_view(ss@), crate::stmt::stmts_view(acc@))
                == Err::<(RState, Seq<StmtView>), Seq<char>>(x.0@),
        decreases ss@, 0nat,
    {
        let ghost ss0 = ss@;
        if ss.len() == 0 {
            return Ok(acc);
        }
        let mut rest = ss;
        let x = rest.remove(0);
        proof {
            assert(x == ss0[0]);
            assert(rest@ =~= ss0.subrange(1, ss0.len() as int));
            lemma_stmts_view_tail(ss0);
        }
        let x1 = match self.resolve_stmt(x) {
            Ok(v) => v,
            Err(e) => {
                return Err(e);
            },
        };
        let mut acc = acc;
        proof {
            lemma_stmts_view_push(acc@, x1);
        }
        acc.push(x1);
        self.resolve_stmts(rest, acc)
    }
}

} // verus!
