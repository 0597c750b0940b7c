//! The objects a program creates: functions with their closures, classes
//! with their methods, and instances with their fields.

use vstd::prelude::*;
use crate::environment::{slot_from, lemma_slot_from};
use crate::expr::FunExpr;
use crate::stmt::FunDecl;
use crate::text::text_of;
use crate::token::Token;
use crate::tree_copy::copy_fun;
use crate::value::{Value, ValueView};

verus! {

/// A function or a lambda: its declaration and the frame it closes over.
pub struct Function {
    /// The declared name; `None` for a lambda.
    pub name: Option<Token>,
    pub fun: FunExpr,
    pub closure: usize,
    pub is_initializer: bool,
}

/// How a function is named when printed.
pub open spec fn function_name(f: &Function) -> Seq<char> {
    match &f.name {
        Some(t) => t.lexeme@,
        None => "(lambda)"@,
    }
}

impl Function {
    /// The function declared by `decl`, closing over frame `closure`.
    pub fn new(decl: &FunDecl, closure: usize, is_initializer: bool) -> (r: Function)
        ensures
            r.name == Some(decl.name),
            crate::expr::fun_view(&r.fun) == crate::expr::fun_view(&decl.expr),
            r.closure == closure,
            r.is_initializer == is_initializer,
    {
        Function { name: Some(decl.name.clone()), fun: copy_fun(&decl.expr), closure, is_initializer }
    }

    /// The lambda `fun`, closing over frame `closure`.
    pub fn new_lambda(fun: &FunExpr, closure: usize) -> (r: Function)
        ensures
            r.name is None,
            crate::expr::fun_view(&r.fun) == crate::expr::fun_view(fun),
            r.closure == closure,
            !r.is_initializer,
    {
        Function { name: None, fun: copy_fun(fun), closure, is_initializer: false }
    }

    /// The name the function is printed with.
    pub fn name(&self) -> (r: String)
        ensures
            r@ == function_name(self),
    {
        match &self.name {
            Some(t) => t.lexeme.clone(),
            None => text_of("(lambda)"),
        }
    }

    /// The number of parameters.
    pub fn arity(&self) -> (r: usize)
        ensures
            r == self.fun.params@.len(),
    {
        self.fun.params.len()
    }
}

/// The position of the method `name` in `ms` from `i` on (`ms.len()` if none).
pub open spec fn method_from(ms: Seq<(String, usize)>, name: Seq<char>, i: int) -> int
    decreases ms.len() - i,
{
    if i < 0 || i >= ms.len() {
        ms.len() as int
    } else if ms[i].0@ == name {
        i
    } else {
        method_from(ms, name, i + 1)
    }
}

/// The function of the method `name` of a class, if it has one.
pub open spec fn class_method(c: &Class, name: Seq<char>) -> Option<usize> {
    let i = method_from(c.methods@, name, 0);
    if 0 <= i < c.methods@.len() {
        Some(c.methods@[i].1)
    } else {
        None
    }
}

/// A class: its name, its superclass and its methods by name.
pub struct Class {
    pub name: Token,
    pub superclass: Option<usize>,
    pub methods: Vec<(String, usize)>,
}

impl Class {
    pub fn new(name: Token, superclass: Option<usize>, methods: Vec<(String, usize)>) -> (r: Class)
        ensures
            r.name == name,
            r.superclass == superclass,
            r.methods == methods,
    {
        Class { name, superclass, methods }
    }

    /// The function of the method `name`, looked up in the class itself.
    pub fn find_method(&self, name: &String) -> (r: Option<usize>)
        ensures
            r == class_method(self, name@),
    {
        let mut i: usize = 0;
        while i < self.methods.len()
            invariant
                i <= self.methods@.len(),
                method_from(self.methods@, name@, 0) == method_from(self.methods@, name@, i as int),
            decreases self.methods.len() - i,
        {
            if self.methods[i].0 == *name {
                return Some(self.methods[i].1);
            }
            i += 1;
        }
        None
    }
}

/// The fields of an instance as plain values.
pub open spec fn fields_view(fs: Seq<(String, Value)>) -> Seq<(Seq<char>, ValueView)> {
    fs.map_values(|p: (String, Value)| (p.0@, p.1@))
}

/// The value of the field `name`, if set.
pub open spec fn field_value(fs: Seq<(Seq<char>, ValueView)>, name: Seq<char>) -> Option<ValueView> {
    let i = slot_from(fs, name, 0);
    if 0 <= i < fs.len() {
        Some(fs[i].1)
    } else {
        None
    }
}

/// The fields with `name` set to `v`: in place if it was set, else last.
pub open spec fn fields_set(fs: Seq<(Seq<char>, ValueView)>, name: Seq<char>, v: ValueView) -> Seq<(Seq<char>, ValueView)> {
    let i = slot_from(fs, name, 0);
    if 0 <= i < fs.len() {
        fs.update(i, (name, v))
    } else {
        fs.push((name, v))
    }
}

/// An instance of a class, with its fields.
pub struct Instance {
    pub class: usize,
    pub fields: Vec<(String, Value)>,
}

impl Instance {
    /// A new instance of class `class`, with no fields.
    pub fn new(class: usize) -> (r: Instance)
        ensures
            r.class == class,
            r.fields@.len() == 0,
    {
        Instance { class, fields: Vec::new() }
    }

    fn slot(&self, name: &String) -> (i: usize)
        ensures
            i == slot_from(fields_view(self.fields@), name@, 0),
    {
        let mut i: usize = 0;
        while i < self.fields.len()
            invariant
                i <= self.fields@.len(),
                fields_view(self.fields@).len() == self.fields@.len(),
                slot_from(fields_view(self.fields@), name@, 0) == slot_from(fields_view(self.fields@), name@, i as int),
            decreases self.fields.len() - i,
        {
            assert(fields_view(self.fields@)[i as int].0 == self.fields@[i as int].0@);
            if self.fields[i].0 == *name {
                return i;
            }
            i += 1;
        }
        i
    }

    /// The value of the field `name`, if set.
    pub fn field(&self, name: &String) -> (r: Option<Value>)
        ensures
            (match r { Some(v) => Some(v@), None => None::<ValueView> }) == field_value(fields_view(self.fields@), name@),
    {
        let i = self.slot(name);
        if i < self.fields.len() {
            assert(fields_view(self.fields@)[i as int].1 == self.fields@[i as int].1@);
            Some(self.fields[i].1.clone())
        } else {
            None
        }
    }

    /// Sets the field `name` to `value`.
    pub fn set(&mut self, name: &String, value: Value)
        ensures
            fields_view(final(self).fields@) == fields_set(fields_view(old(self).fields@), name@, value@),
            final(self).class == old(self).class,
    {
        let i = self.slot(name);
        if i < self.fields.len() {
            self.fields.set(i, (name.clone(), value));
        } else {
            self.fields.push((name.clone(), value));
        }
        assert(fields_view(self.fields@) =~= fields_set(fields_view(old(self).fields@), name@, value@));
    }
}

} // verus!
