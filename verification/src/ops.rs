//! The unary and binary operators of Lox on values.

use vstd::prelude::*;
use crate::error::RuntimeError;
use crate::lox::runtime_error_text;
use crate::number::{display_text, ieee_add, ieee_div, ieee_mul, ieee_neg, ieee_order, ieee_sub};
use crate::text::chars_of;
use crate::token::{Token, TokenType, TokenType as TT};
use crate::value::{truthy, values_equal, Value, ValueView};

verus! {

/// `a` comes before `b` in the order of strings (by characters, from the
/// `i`-th on; a proper prefix comes first).
pub open spec fn text_less_from(a: Seq<char>, b: Seq<char>, i: int) -> bool
    decreases a.len() - i,
{
    if i < 0 {
        false
    } else if i >= a.len() {
        i < b.len()
    } else if i >= b.len() {
        false
    } else if a[i] != b[i] {
        (a[i] as int) < (b[i] as int)
    } else {
        text_less_from(a, b, i + 1)
    }
}

pub open spec fn text_less(a: Seq<char>, b: Seq<char>) -> bool {
    text_less_from(a, b, 0)
}

/// The result of a binary operator on two values, or the message of the
/// error it raises.
pub open spec fn binary_result(op: TokenType, l: ValueView, r: ValueView) -> Result<ValueView, Seq<char>> {
    let numbers = "Operands must be numbers."@;
    match op {
        TT::MINUS => match (l, r) {
            (ValueView::Num(a), ValueView::Num(b)) => Ok(ValueView::Num(ieee_sub(a, b))),
            _ => Err(numbers),
        },
        TT::SLASH => match (l, r) {
            (ValueView::Num(a), ValueView::Num(b)) => Ok(ValueView::Num(ieee_div(a, b))),
            _ => Err(numbers),
        },
        TT::STAR => match (l, r) {
            (ValueView::Num(a), ValueView::Num(b)) => Ok(ValueView::Num(ieee_mul(a, b))),
            _ => Err(numbers),
        },
        TT::PLUS => match (l, r) {
            (ValueView::Num(a), ValueView::Num(b)) => Ok(ValueView::Num(ieee_add(a, b))),
            (ValueView::Str(a), ValueView::Str(b)) => Ok(ValueView::Str(a + b)),
            (ValueView::Num(a), ValueView::Str(b)) => Ok(ValueView::Str(display_text(a) + b)),
            (ValueView::Str(a), ValueView::Num(b)) => Ok(ValueView::Str(a + display_text(b))),
            _ => Err(numbers),
        },
        TT::GREATER => match (l, r) {
            (ValueView::Num(a), ValueView::Num(b)) => Ok(ValueView::Bool(ieee_order(a, b) == 2)),
            (ValueView::Str(a), ValueView::Str(b)) => Ok(ValueView::Bool(text_less(b, a))),
            _ => Err(numbers),
        },
        TT::GREATER_EQUAL => match (l, r) {
            (ValueView::Num(a), ValueView::Num(b)) => Ok(ValueView::Bool(ieee_order(a, b) == 2 || ieee_order(a, b) == 1)),
            (ValueView::Str(a), ValueView::Str(b)) => Ok(ValueView::Bool(!text_less(a, b))),
            _ => Err(numbers),
        },
        TT::LESS => match (l, r) {
            (ValueView::Num(a), ValueView::Num(b)) => Ok(ValueView::Bool(ieee_order(a, b) == 0)),
            (ValueView::Str(a), ValueView::Str(b)) => Ok(ValueView::Bool(text_less(a, b))),
            _ => Err(numbers),
        },
        TT::LESS_EQUAL => match (l, r) {
            (ValueView::Num(a), ValueView::Num(b)) => Ok(ValueView::Bool(ieee_order(a, b) == 0 || ieee_order(a, b) == 1)),
            (ValueView::Str(a), ValueView::Str(b)) => Ok(ValueView::Bool(!text_less(b, a))),
            _ => Err(numbers),
        },
        TT::EQUAL_EQUAL => Ok(ValueView::Bool(values_equal(l, r))),
        TT::BANG_EQUAL => Ok(ValueView::Bool(!values_equal(l, r))),
        TT::COMMA => Ok(r),
        _ => Err("Invalid binary operation."@),
    }
}

/// The result of a unary operator on a value, or the message of its error.
pub open spec fn unary_result(op: TokenType, v: ValueView) -> Result<ValueView, Seq<char>> {
    match op {
        TT::MINUS => match v {
            ValueView::Num(a) => Ok(ValueView::Num(ieee_neg(a))),
            _ => Err("Operand must be a number."@),
        },
        TT::BANG => Ok(ValueView::Bool(!truthy(v))),
        _ => Err("Invalid unary operation."@),
    }
}

/// `a` comes before `b` in the order of strings.
pub fn text_less_exec(a: &String, b: &String) -> (r: bool)
    ensures
        r == text_less(a@, b@),
{
    let x = chars_of(a.as_str());
    let y = chars_of(b.as_str());
    let mut i: usize = 0;
    while i < x.len() && i < y.len()
        invariant
            x@ == a@,
            y@ == b@,
            i <= x@.len(),
            i <= y@.len(),
            text_less(a@, b@) == text_less_from(a@, b@, i as int),
        decreases x.len() - i,
    {
        if x[i] != y[i] {
            return x[i] < y[i];
        }
        i += 1;
    }
    i >= x.len() && i < y.len()
}

fn op_error(operator: &Token, message: &str) -> (r: RuntimeError)
    ensures
        r.0@ == runtime_error_text(operator.line as nat, message@),
{
    RuntimeError::new(operator, message)
}

/// The result of the binary `operator` on `l` and `r`.
pub fn binary_op(operator: &Token, l: Value, r: Value) -> (res: Result<Value, RuntimeError>)
    ensures
        match binary_result(operator.token_type, l@, r@) {
            Ok(v) => res matches Ok(x) && x@ == v,
            Err(m) => res matches Err(e) && e.0@ == runtime_error_text(operator.line as nat, m),
        },
{
    let numbers = "Operands must be numbers.";
    match operator.token_type {
        TT::MINUS => match (l, r) {
            (Value::Num(a), Value::Num(b)) => Ok(Value::Num(a.sub(b))),
            _ => Err(op_error(operator, numbers)),
        },
        TT::SLASH => match (l, r) {
            (Value::Num(a), Value::Num(b)) => Ok(Value::Num(a.div(b))),
            _ => Err(op_error(operator, numbers)),
        },
        TT::STAR => match (l, r) {
            (Value::Num(a), Value::Num(b)) => Ok(Value::Num(a.mul(b))),
            _ => Err(op_error(operator, numbers)),
        },
        TT::PLUS => match (l, r) {
            (Value::Num(a), Value::Num(b)) => Ok(Value::Num(a.add(b))),
            (Value::Str(a), Value::Str(b)) => {
                let mut s = a;
                s.append(b.as_str());
                Ok(Value::Str(s))
            },
            (Value::Num(a), Value::Str(b)) => {
                let mut s = a.to_display_text();
                s.append(b.as_str());
                Ok(Value::Str(s))
            },
            (Value::Str(a), Value::Num(b)) => {
                let mut s = a;
                let t = b.to_display_text();
                s.append(t.as_str());
                Ok(Value::Str(s))
            },
            _ => Err(op_error(operator, numbers)),
        },
        TT::GREATER => match (l, r) {
            (Value::Num(a), Value::Num(b)) => Ok(Value::Bool(a.gt(b))),
            (Value::Str(a), Value::Str(b)) => Ok(Value::Bool(text_less_exec(&b, &a))),
            _ => Err(op_error(operator, numbers)),
        },
        TT::GREATER_EQUAL => match (l, r) {
            (Value::Num(a), Value::Num(b)) => Ok(Value::Bool(a.ge(b))),
            (Value::Str(a), Value::Str(b)) => Ok(Value::Bool(!text_less_exec(&a, &b))),
            _ => Err(op_error(operator, numbers)),
        },
        TT::LESS => match (l, r) {
            (Value::Num(a), Value::Num(b)) => Ok(Value::Bool(a.lt(b))),
            (Value::Str(a), Value::Str(b)) => Ok(Value::Bool(text_less_exec(&a, &b))),
            _ => Err(op_error(operator, numbers)),
        },
        TT::LESS_EQUAL => match (l, r) {
            (Value::Num(a), Value::Num(b)) => Ok(Value::Bool(a.le(b))),
            (Value::Str(a), Value::Str(b)) => Ok(Value::Bool(!text_less_exec(&b, &a))),
            _ => Err(op_error(operator, numbers)),
        },
        TT::EQUAL_EQUAL => Ok(Value::Bool(Value::is_equal(&l, &r))),
        TT::BANG_EQUAL => Ok(Value::Bool(!Value::is_equal(&l, &r))),
        TT::COMMA => Ok(r),
        _ => Err(op_error(operator, "Invalid binary operation.")),
    }
}

/// The result of the unary `operator` on `v`.
pub fn unary_op(operator: &Token, v: Value) -> (res: Result<Value, RuntimeError>)
    ensures
        match unary_result(operator.token_type, v@) {
            Ok(x) => res matches Ok(y) && y@ == x,
            Err(m) => res matches Err(e) && e.0@ == runtime_error_text(operator.line as nat, m),
        },
{
    match operator.token_type {
        TT::MINUS => match v {
            Value::Num(a) => Ok(Value::Num(a.neg())),
            _ => Err(op_error(operator, "Operand must be a number.")),
        },
        TT::BANG => Ok(Value::Bool(!v.is_truthy())),
        _ => Err(op_error(operator, "Invalid unary operation.")),
    }
}

} // verus!

verus! {

/// `==` never fails and `!=` is its negation, on any two values; values of
/// different kinds are never equal (no coercion), `nil` equals only `nil`.
pub proof fn law_equality_never_fails(l: ValueView, r: ValueView)
    ensures
        binary_result(TT::EQUAL_EQUAL, l, r) == Ok::<ValueView, Seq<char>>(ValueView::Bool(values_equal(l, r))),
        binary_result(TT::BANG_EQUAL, l, r) == Ok::<ValueView, Seq<char>>(ValueView::Bool(!values_equal(l, r))),
        (l is Nil) ==> (values_equal(l, r) <==> r is Nil),
        (l is Num && r is Str) ==> !values_equal(l, r),
        (l is Bool && !(r is Bool)) ==> !values_equal(l, r),
{
}

/// No string comes before itself.
pub proof fn law_text_less_irreflexive(a: Seq<char>)
    ensures
        !text_less(a, a),
{
    lemma_text_less_irreflexive_from(a, 0);
}

proof fn lemma_text_less_irreflexive_from(a: Seq<char>, i: int)
    requires
        0 <= i,
    ensures
        !text_less_from(a, a, i),
    decreases a.len() - i,
{
    if i < a.len() {
        lemma_text_less_irreflexive_from(a, i + 1);
    }
}

/// Of two strings, at most one comes before the other.
pub proof fn law_text_less_asymmetric(a: Seq<char>, b: Seq<char>)
    ensures
        !(text_less(a, b) && text_less(b, a)),
{
    lemma_text_less_asymmetric_from(a, b, 0);
}

proof fn lemma_text_less_asymmetric_from(a: Seq<char>, b: Seq<char>, i: int)
    requires
        0 <= i,
    ensures
        !(text_less_from(a, b, i) && text_less_from(b, a, i)),
    decreases a.len() - i,
{
    if i < a.len() && i < b.len() && a[i] == b[i] {
        lemma_text_less_asymmetric_from(a, b, i + 1);
    }
}

/// Of two different strings, one comes before the other: the order is total.
pub proof fn law_text_less_total(a: Seq<char>, b: Seq<char>)
    requires
        a != b,
    ensures
        text_less(a, b) || text_less(b, a),
{
    assert(a.subrange(0, 0) =~= b.subrange(0, 0));
    lemma_text_less_total_from(a, b, 0);
}

proof fn lemma_text_less_total_from(a: Seq<char>, b: Seq<char>, i: int)
    requires
        0 <= i <= a.len(),
        i <= b.len(),
        a.subrange(0, i) == b.subrange(0, i),
        a != b,
    ensures
        text_less_from(a, b, i) || text_less_from(b, a, i),
    decreases a.len() - i,
{
    if i < a.len() && i < b.len() {
        if a[i] == b[i] {
            assert(a.subrange(0, i + 1) =~= a.subrange(0, i).push(a[i]));
            assert(b.subrange(0, i + 1) =~= b.subrange(0, i).push(b[i]));
            lemma_text_less_total_from(a, b, i + 1);
        } else {
            let x = a[i] as int;
            let y = b[i] as int;
            assert(x != y);
        }
    } else if i >= a.len() && i >= b.len() {
        assert(a =~= a.subrange(0, i));
        assert(b =~= b.subrange(0, i));
    }
}

/// A string comes before every longer string it starts.
pub proof fn law_proper_prefix_is_less(a: Seq<char>, b: Seq<char>)
    requires
        a.len() < b.len(),
        a == b.subrange(0, a.len() as int),
    ensures
        text_less(a, b),
{
    lemma_prefix_from(a, b, 0);
}

proof fn lemma_prefix_from(a: Seq<char>, b: Seq<char>, i: int)
    requires
        0 <= i <= a.len(),
        a.len() < b.len(),
        a == b.subrange(0, a.len() as int),
    ensures
        text_less_from(a, b, i),
    decreases a.len() - i,
{
    if i < a.len() {
        assert(a[i] == b.subrange(0, a.len() as int)[i]);
        lemma_prefix_from(a, b, i + 1);
    }
}

/// The comma operator gives its right operand, whatever the left one was.
pub proof fn law_comma_yields_right(l: ValueView, r: ValueView)
    ensures
        binary_result(TT::COMMA, l, r) == Ok::<ValueView, Seq<char>>(r),
{
}

/// Adding a number to a string, on either side, writes the number as
/// `print` would.
pub proof fn law_concat_writes_number(text: Seq<char>, n: u64)
    ensures
        binary_result(TT::PLUS, ValueView::Str(text), ValueView::Num(n)) == Ok::<ValueView, Seq<char>>(ValueView::Str(text + display_text(n))),
        binary_result(TT::PLUS, ValueView::Num(n), ValueView::Str(text)) == Ok::<ValueView, Seq<char>>(ValueView::Str(display_text(n) + text)),
{
}

} // verus!

verus! {

/// On two numbers, `+`, `-`, `*` and `/` give the IEEE sum, difference,
/// product and quotient of the left and the right operand, in that order,
/// and never fail; on anything else `-`, `*` and `/` fail with the same
/// report.
pub proof fn law_arithmetic_on_numbers(a: u64, b: u64, x: ValueView, y: ValueView)
    ensures
        binary_result(TT::PLUS, ValueView::Num(a), ValueView::Num(b)) == Ok::<ValueView, Seq<char>>(ValueView::Num(ieee_add(a, b))),
        binary_result(TT::MINUS, ValueView::Num(a), ValueView::Num(b)) == Ok::<ValueView, Seq<char>>(ValueView::Num(ieee_sub(a, b))),
        binary_result(TT::STAR, ValueView::Num(a), ValueView::Num(b)) == Ok::<ValueView, Seq<char>>(ValueView::Num(ieee_mul(a, b))),
        binary_result(TT::SLASH, ValueView::Num(a), ValueView::Num(b)) == Ok::<ValueView, Seq<char>>(ValueView::Num(ieee_div(a, b))),
        !(x is Num && y is Num) ==> binary_result(TT::STAR, x, y) == Err::<ValueView, Seq<char>>("Operands must be numbers."@)
            && binary_result(TT::MINUS, x, y) == binary_result(TT::STAR, x, y)
            && binary_result(TT::SLASH, x, y) == binary_result(TT::STAR, x, y),
{
}

} // verus!

verus! {

/// The comparisons agree with one another on any two values: `a < b` is
/// `b > a`, `a <= b` is `b >= a`, and `<=` holds exactly where `<` or `==`
/// does, on numbers and on strings alike; equality is symmetric.
pub proof fn law_comparisons_agree(l: ValueView, r: ValueView)
    ensures
        binary_result(TT::LESS, l, r) == binary_result(TT::GREATER, r, l),
        binary_result(TT::LESS_EQUAL, l, r) == binary_result(TT::GREATER_EQUAL, r, l),
        values_equal(l, r) == values_equal(r, l),
        (l is Num && r is Num) ==> binary_result(TT::LESS_EQUAL, l, r) == Ok::<ValueView, Seq<char>>(ValueView::Bool(
            binary_result(TT::LESS, l, r)->Ok_0->Bool_0 || values_equal(l, r))),
{
}

/// Negation flips a number's sign and nothing else: negating twice gives
/// the number back, and only NaN is unordered with its negation. `!` gives
/// the opposite of a value's truth, whatever the value.
pub proof fn law_negation(a: u64, v: ValueView)
    ensures
        unary_result(TT::MINUS, ValueView::Num(a)) == Ok::<ValueView, Seq<char>>(ValueView::Num(ieee_neg(a))),
        ieee_neg(ieee_neg(a)) == a,
        ieee_neg(a) != a,
        crate::number::is_nan_bits(a) == crate::number::is_nan_bits(ieee_neg(a)),
        unary_result(TT::BANG, v) == Ok::<ValueView, Seq<char>>(ValueView::Bool(!truthy(v))),
{
    assert(crate::number::exponent_field(ieee_neg(a)) == crate::number::exponent_field(a));
    assert(crate::number::mantissa_field(ieee_neg(a)) == crate::number::mantissa_field(a));
}

/// `+` on two strings joins them, the left one first.
pub proof fn law_concat_strings(a: Seq<char>, b: Seq<char>)
    ensures
        binary_result(TT::PLUS, ValueView::Str(a), ValueView::Str(b)) matches Ok(ValueView::Str(t))
            && t.len() == a.len() + b.len() && t.subrange(0, a.len() as int) == a
            && t.subrange(a.len() as int, t.len() as int) == b,
{
    assert((a + b).subrange(0, a.len() as int) =~= a);
    assert((a + b).subrange(a.len() as int, (a + b).len() as int) =~= b);
}

} // verus!
