//! One scope of the resolver: the variables declared in a block or a
//! function body, in the order they were declared, with how far each got.

use vstd::prelude::*;
use crate::token::{Token, TokenView};

verus! {

/// How far a variable of a scope has got.
#[derive(Debug, Clone, Copy, PartialEq, Eq, Structural)]
pub enum VarStatus {
    /// Named, but its initializer is not resolved yet.
    Declared,
    /// Ready to be read.
    Defined,
    /// Read at least once.
    Used,
}

/// A variable of a scope: its status and the token that declared it.
#[derive(Debug)]
pub struct VarData {
    pub status: VarStatus,
    pub token: Token,
}

/// A variable as plain values.
pub struct VarView {
    pub status: VarStatus,
    pub token: TokenView,
}

impl View for VarData {
    type V = VarView;

    open spec fn view(&self) -> VarView {
        VarView { status: self.status, token: self.token@ }
    }
}

/// The position of the variable named `name` from `i` on (`vars.len()` if none).
pub open spec fn index_from(vars: Seq<VarView>, name: Seq<char>, i: int) -> int
    decreases vars.len() - i,
{
    if i < 0 || i >= vars.len() {
        vars.len() as int
    } else if vars[i].token.lexeme == name {
        i
    } else {
        index_from(vars, name, i + 1)
    }
}

/// The position of the variable named `name` (`vars.len()` if none).
pub open spec fn index_of(vars: Seq<VarView>, name: Seq<char>) -> int {
    index_from(vars, name, 0)
}

/// A variable named `name` is in the scope.
pub open spec fn declared(vars: Seq<VarView>, name: Seq<char>) -> bool {
    index_of(vars, name) < vars.len()
}

/// The scope after declaring `t`: a new variable, or the old one named so
/// put back to the start.
pub open spec fn scope_declare(vars: Seq<VarView>, t: TokenView) -> Seq<VarView> {
    let v = VarView { status: VarStatus::Declared, token: t };
    if declared(vars, t.lexeme) {
        vars.update(index_of(vars, t.lexeme), v)
    } else {
        vars.push(v)
    }
}

/// The scope with the variable named `name` (if any) at `status`.
pub open spec fn scope_set_status(vars: Seq<VarView>, name: Seq<char>, status: VarStatus) -> Seq<VarView> {
    if declared(vars, name) {
        let i = index_of(vars, name);
        vars.update(i, VarView { status, token: vars[i].token })
    } else {
        vars
    }
}

/// The variable named `name` is in the scope and its initializer is done.
pub open spec fn scope_defined(vars: Seq<VarView>, name: Seq<char>) -> bool {
    declared(vars, name) && vars[index_of(vars, name)].status != VarStatus::Declared
}

/// The position of the first variable from `i` on that was never read.
pub open spec fn unused_from(vars: Seq<VarView>, i: int) -> int
    decreases vars.len() - i,
{
    if i < 0 || i >= vars.len() {
        vars.len() as int
    } else if vars[i].status != VarStatus::Used {
        i
    } else {
        unused_from(vars, i + 1)
    }
}

/// The token of the first variable (in declaration order) never read.
pub open spec fn scope_first_unused(vars: Seq<VarView>) -> Option<TokenView> {
    let i = unused_from(vars, 0);
    if i < vars.len() {
        Some(vars[i].token)
    } else {
        None
    }
}

pub proof fn lemma_index_from_bounds(vars: Seq<VarView>, name: Seq<char>, i: int)
    requires
        0 <= i,
    ensures
        i <= index_from(vars, name, i) <= vars.len() || (i > vars.len() && index_from(vars, name, i) == vars.len()),
        index_from(vars, name, i) < vars.len() ==> vars[index_from(vars, name, i)].token.lexeme == name,
        forall|j: int| i <= j < index_from(vars, name, i) ==> vars[j].token.lexeme != name,
    decreases vars.len() - i,
{
    if i < vars.len() && vars[i].token.lexeme != name {
        lemma_index_from_bounds(vars, name, i + 1);
    }
}

pub proof fn lemma_unused_from_bounds(vars: Seq<VarView>, i: int)
    requires
        0 <= i,
    ensures
        i <= unused_from(vars, i) <= vars.len() || (i > vars.len() && unused_from(vars, i) == vars.len()),
        unused_from(vars, i) < vars.len() ==> vars[unused_from(vars, i)].status != VarStatus::Used,
        forall|j: int| i <= j < unused_from(vars, i) ==> vars[j].status == VarStatus::Used,
    decreases vars.len() - i,
{
    if i < vars.len() && vars[i].status == VarStatus::Used {
        lemma_unused_from_bounds(vars, i + 1);
    }
}

/// A scope of the resolver.
pub struct Scope {
    vars: Vec<VarData>,
}

impl View for Scope {
    type V = Seq<VarView>;

    closed spec fn view(&self) -> Seq<VarView> {
        self.vars@.map_values(|v: VarData| v@)
    }
}

impl Scope {
    /// An empty scope.
    pub fn new() -> (r: Scope)
        ensures
            r@ == Seq::<VarView>::empty(),
    {
        let r = Scope { vars: Vec::new() };
        assert(r@ =~= Seq::<VarView>::empty());
        r
    }

    fn find(&self, name: &String) -> (i: usize)
        ensures
            i == index_of(self@, name@),
    {
        let mut i: usize = 0;
        while i < self.vars.len()
            invariant
                i <= self.vars.len(),
                self@.len() == self.vars@.len(),
                index_of(self@, name@) == index_from(self@, name@, i as int),
            decreases self.vars.len() - i,
        {
            assert(self@[i as int] == self.vars@[i as int]@);
            if self.vars[i].token.lexeme == *name {
                return i;
            }
            i += 1;
        }
        i
    }

    /// Puts `name` in the scope, not yet defined.
    pub fn declare(&mut self, name: &Token)
        ensures
            final(self)@ == scope_declare(old(self)@, name@),
    {
        let i = self.find(&name.lexeme);
        let v = VarData { status: VarStatus::Declared, token: name.clone() };
        if i < self.vars.len() {
            self.vars.set(i, v);
            assert(final(self)@ =~= scope_declare(old(self)@, name@));
        } else {
            self.vars.push(v);
            assert(final(self)@ =~= scope_declare(old(self)@, name@));
        }
    }

    /// A variable named as `name` is in the scope.
    pub fn is_declared(&self, name: &Token) -> (r: bool)
        ensures
            r == declared(self@, name@.lexeme),
    {
        self.find(&name.lexeme) < self.vars.len()
    }

    fn set_status(&mut self, name: &Token, status: VarStatus)
        ensures
            final(self)@ == scope_set_status(old(self)@, name@.lexeme, status),
    {
        let i = self.find(&name.lexeme);
        if i < self.vars.len() {
            let token = self.vars[i].token.clone();
            self.vars.set(i, VarData { status, token });
            assert(final(self)@ =~= scope_set_status(old(self)@, name@.lexeme, status));
        }
    }

    /// Marks the variable named as `name` (if any) ready to be read.
    pub fn define(&mut self, name: &Token)
        ensures
            final(self)@ == scope_set_status(old(self)@, name@.lexeme, VarStatus::Defined),
    {
        self.set_status(name, VarStatus::Defined)
    }

    /// The variable named as `name` is in the scope and ready to be read.
    pub fn is_defined(&self, name: &Token) -> (r: bool)
        ensures
            r == scope_defined(self@, name@.lexeme),
    {
        let i = self.find(&name.lexeme);
        if i < self.vars.len() {
            assert(self@[i as int] == self.vars@[i as int]@);
            self.vars[i].status != VarStatus::Declared
        } else {
            false
        }
    }

    /// Marks the variable named as `name` (if any) as read.
    pub fn mark_used(&mut self, name: &Token)
        ensures
            final(self)@ == scope_set_status(old(self)@, name@.lexeme, VarStatus::Used),
    {
        self.set_status(name, VarStatus::Used)
    }

    /// Puts `name` in the scope as a variable that never counts as unused.
    pub fn declare_used(&mut self, name: &Token)
        ensures
            final(self)@ == scope_set_status(scope_declare(old(self)@, name@), name@.lexeme, VarStatus::Used),
    {
        self.declare(name);
        self.mark_used(name);
    }

    /// The token of the first variable, in declaration order, never read.
    pub fn first_unused(&self) -> (r: Option<&Token>)
        ensures
            match r {
                Some(t) => scope_first_unused(self@) == Some(t@),
                None => scope_first_unused(self@) is None,
            },
    {
        let mut i: usize = 0;
        while i < self.vars.len()
            invariant
                i <= self.vars.len(),
                self@.len() == self.vars@.len(),
                unused_from(self@, 0) == unused_from(self@, i as int),
            decreases self.vars.len() - i,
        {
            assert(self@[i as int] == self.vars@[i as int]@);
            if self.vars[i].status != VarStatus::Used {
                return Some(&self.vars[i].token);
            }
            i += 1;
        }
        None
    }
}

} // verus!
