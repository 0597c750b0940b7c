//! Runtime values, and the rules of truth and equality on them.

use vstd::prelude::*;
use crate::clock::ClockFunction;
use crate::number::Number;

verus! {

/// A function provided by the interpreter itself.
#[derive(Debug, Clone, Copy, PartialEq, Eq, Structural)]
pub enum NativeFunction {
    Clock(ClockFunction),
}

/// A runtime value. Functions, classes and instances are shared: the value
/// holds the index of the object in the interpreter's store.
#[derive(Debug)]
pub enum Value {
    Str(String),
    Num(Number),
    Bool(bool),
    NativeFn(NativeFunction),
    Fn(usize),
    Class(usize),
    Object(usize),
    Nil,
}

/// A value as plain values.
pub enum ValueView {
    Str(Seq<char>),
    Num(u64),
    Bool(bool),
    NativeFn(NativeFunction),
    Fn(nat),
    Class(nat),
    Object(nat),
    Nil,
}

impl View for Value {
    type V = ValueView;

    open spec fn view(&self) -> ValueView {
        match self {
            Value::Str(s) => ValueView::Str(s@),
            Value::Num(n) => ValueView::Num(n.bits),
            Value::Bool(b) => ValueView::Bool(*b),
            Value::NativeFn(f) => ValueView::NativeFn(*f),
            Value::Fn(i) => ValueView::Fn(*i as nat),
            Value::Class(i) => ValueView::Class(*i as nat),
            Value::Object(i) => ValueView::Object(*i as nat),
            Value::Nil => ValueView::Nil,
        }
    }
}

impl Clone for Value {
    fn clone(&self) -> (r: Value)
        ensures
            r@ == self@,
    {
        match self {
            Value::Str(s) => Value::Str(s.clone()),
            Value::Num(n) => Value::Num(*n),
            Value::Bool(b) => Value::Bool(*b),
            Value::NativeFn(f) => Value::NativeFn(*f),
            Value::Fn(i) => Value::Fn(*i),
            Value::Class(i) => Value::Class(*i),
            Value::Object(i) => Value::Object(*i),
            Value::Nil => Value::Nil,
        }
    }
}

/// `false` and `nil` are false; every other value is true.
pub open spec fn truthy(v: ValueView) -> bool {
    match v {
        ValueView::Bool(b) => b,
        ValueView::Nil => false,
        _ => true,
    }
}

/// Equality of Lox values: `nil` equals only `nil`; booleans, numbers
/// (in the IEEE sense) and strings compare by value; nothing else is equal,
/// not even a function to itself.
pub open spec fn values_equal(l: ValueView, r: ValueView) -> bool {
    match (l, r) {
        (ValueView::Nil, ValueView::Nil) => true,
        (ValueView::Nil, _) => false,
        (ValueView::Bool(a), ValueView::Bool(b)) => a == b,
        (ValueView::Num(a), ValueView::Num(b)) => crate::number::ieee_order(a, b) == 1,
        (ValueView::Str(a), ValueView::Str(b)) => a == b,
        _ => false,
    }
}

impl Value {
    /// Whether the value counts as true.
    pub fn is_truthy(&self) -> (r: bool)
        ensures
            r == truthy(self@),
    {
        match self {
            Value::Bool(b) => *b,
            Value::Nil => false,
            _ => true,
        }
    }

    /// Lox equality of two values.
    pub fn is_equal(left: &Value, right: &Value) -> (r: bool)
        ensures
            r == values_equal(left@, right@),
    {
        match (left, right) {
            (Value::Nil, Value::Nil) => true,
            (Value::Nil, _) => false,
            (Value::Bool(l), Value::Bool(r)) => *l == *r,
            (Value::Num(l), Value::Num(r)) => l.eq(*r),
            (Value::Str(l), Value::Str(r)) => *l == *r,
            _ => false,
        }
    }

    /// The value is a function, a class or a native function.
    pub fn is_callable(&self) -> (r: bool)
        ensures
            r == (self@ is NativeFn || self@ is Fn || self@ is Class),
    {
        matches!(self, Value::NativeFn(_) | Value::Fn(_) | Value::Class(_))
    }
}

} // verus!
