//! What evaluating and executing mean: functions from the interpreter's
//! state (its store and output), a syntax tree, the frame it runs in and a
//! budget of nested steps, to the state after it and the value or the
//! report of the first runtime error.
//!
//! Each function spends one step of its budget before it looks at its
//! input; when none is left, the run ends with the step-limit report.
//! What the clock gives is not a function of the program: the readings come
//! from a `feed`, and the state counts how many were taken.

use vstd::prelude::*;
use crate::environment::{
    assign_at, assign_in, frame_define, frame_with_return, lookup, lookup_at, undefined_assign_error, FrameView,
};
use crate::expr::{ExprView, FunView};
use crate::lox::runtime_error_text;
use crate::number::display_text;
use crate::object::{field_value, fields_set};
use crate::ops::{binary_result, unary_result};
use crate::stmt::{ClassDeclView, FunDeclView, StmtView};
use crate::token::{LiteralView, TokenType, TokenView};
use crate::clock::{epoch_seconds, ClockFunction};
use crate::value::{truthy, NativeFunction, ValueView};

verus! {

/// A function as plain values.
pub struct FunctionView {
    pub name: Option<TokenView>,
    pub fun: FunView,
    pub closure: nat,
    pub is_initializer: bool,
}

/// A class as plain values: its methods are names and function indices.
pub struct ClassView {
    pub name: TokenView,
    pub superclass: Option<nat>,
    pub methods: Seq<(Seq<char>, nat)>,
}

/// An instance as plain values.
pub struct InstanceView {
    pub class: nat,
    pub fields: Seq<(Seq<char>, ValueView)>,
}

/// The readings of the clock a run takes, in order.
pub type Feed = Seq<Result<ValueView, Seq<char>>>;

/// Every reading in `log` is in `feed`, at the same place.
pub open spec fn extends(feed: Feed, log: Feed) -> bool {
    &&& log.len() <= feed.len()
    &&& forall|k: int| 0 <= k < log.len() ==> #[trigger] feed[k] == log[k]
}

/// What one reading of the clock can be: the seconds since the Unix epoch,
/// made by `epoch_seconds` of some whole seconds and nanoseconds, or the
/// report of a clock set before the epoch.
pub open spec fn clock_reading(r: Result<ValueView, Seq<char>>) -> bool {
    match r {
        Ok(ValueView::Num(b)) => exists|s: u64, ns: u32| ns < 1_000_000_000 && b == #[trigger] epoch_seconds(s, ns),
        Ok(_) => false,
        Err(m) => m == "system time is before the Unix epoch"@,
    }
}

/// Every reading in `log` is one the clock can give.
pub open spec fn clock_readings(log: Feed) -> bool {
    forall|k: int| 0 <= k < log.len() ==> clock_reading(#[trigger] log[k])
}

/// The interpreter's state as plain values.
#[verifier::ext_equal]
pub struct IState {
    pub frames: Seq<FrameView>,
    pub functions: Seq<FunctionView>,
    pub classes: Seq<ClassView>,
    pub instances: Seq<InstanceView>,
    pub output: Seq<char>,
    pub reads: nat,
}

/// A feed that extends a log extends every shorter log that log extends.
pub proof fn lemma_extends_trans(a: Feed, b: Feed, c: Feed)
    requires
        extends(a, b),
        extends(b, c),
    ensures
        extends(a, c),
{
    assert forall|k: int| 0 <= k < c.len() implies #[trigger] a[k] == c[k] by {
        assert(a[k] == b[k]);
    }
}

/// The state before anything has run: the global frame, empty.
pub open spec fn empty_state() -> IState {
    IState {
        frames: seq![FrameView { values: Seq::empty(), enclosing: None, return_value: None }],
        functions: Seq::empty(),
        classes: Seq::empty(),
        instances: Seq::empty(),
        output: Seq::empty(),
        reads: 0,
    }
}

/// A new interpreter's state: the global frame holds the native `clock`.
pub open spec fn initial_state() -> IState {
    define(empty_state(), 0, "clock"@, ValueView::NativeFn(NativeFunction::Clock(ClockFunction)))
}

/// The state with its output taken away.
pub open spec fn without_output(st: IState) -> IState {
    IState { frames: st.frames, functions: st.functions, classes: st.classes, instances: st.instances, output: Seq::empty(), reads: st.reads }
}

/// The report when the budget of nested steps is spent.
pub open spec fn steps_error() -> Seq<char> {
    "Step limit reached."@
}

/// The report for a property an instance and its class lack.
pub open spec fn property_error(name: TokenView) -> Seq<char> {
    runtime_error_text(name.line, "Undefined property '"@ + name.lexeme + "'."@)
}

/// The report for reading a variable that holds `nil`.
pub open spec fn uninitialized_error(name: TokenView) -> Seq<char> {
    runtime_error_text(name.line, "Uninitialized variable \""@ + name.lexeme + "\"."@)
}

/// The report for reading a variable no frame holds.
pub open spec fn undefined_error(name: TokenView) -> Seq<char> {
    runtime_error_text(name.line, "Undefined variable \""@ + name.lexeme + "\"."@)
}

/// The report for a call with the wrong number of arguments.
pub open spec fn arity_error(paren: TokenView, arity: nat, got: nat) -> Seq<char> {
    runtime_error_text(
        paren.line,
        "Expected "@ + crate::text::decimal(arity) + " arguments but got "@ + crate::text::decimal(got) + "."@,
    )
}

/// The report when an initializer's closure no longer holds `this`.
pub open spec fn lost_this_error() -> Seq<char> {
    "An initializer lost its 'this'."@
}

/// The state with its frames replaced.
pub open spec fn with_frames(st: IState, frames: Seq<FrameView>) -> IState {
    IState { frames, functions: st.functions, classes: st.classes, instances: st.instances, output: st.output, reads: st.reads }
}

/// A new empty frame nested in `enclosing`, and its index.
pub open spec fn new_frame(st: IState, enclosing: nat) -> (IState, nat) {
    (with_frames(st, st.frames.push(FrameView { values: Seq::empty(), enclosing: Some(enclosing), return_value: None })), st.frames.len())
}

/// `name` bound to `v` in frame `e`.
pub open spec fn define(st: IState, e: nat, name: Seq<char>, v: ValueView) -> IState {
    with_frames(st, st.frames.update(e as int, frame_define(st.frames[e as int], name, v)))
}

/// `v` left as the return value of frame `e`.
pub open spec fn set_return(st: IState, e: nat, v: ValueView) -> IState {
    with_frames(st, st.frames.update(e as int, frame_with_return(st.frames[e as int], Some(v))))
}

/// Frame `e` holds a return value.
pub open spec fn returning(st: IState, e: nat) -> bool {
    st.frames[e as int].return_value is Some
}

/// The frame `e` with its return value taken out.
pub open spec fn take_return(st: IState, e: nat) -> IState {
    with_frames(st, st.frames.update(e as int, frame_with_return(st.frames[e as int], None)))
}

/// Leaving the frame `e` of a block: its return value moves out one frame.
pub open spec fn release(st: IState, e: nat) -> IState {
    match (st.frames[e as int].return_value, st.frames[e as int].enclosing) {
        (Some(v), Some(p)) => with_frames(st, st.frames.update(p as int, frame_with_return(st.frames[p as int], Some(v)))),
        _ => st,
    }
}

/// Function `f` added to the store, and its index.
pub open spec fn push_function(st: IState, f: FunctionView) -> (IState, nat) {
    (IState { frames: st.frames, functions: st.functions.push(f), classes: st.classes, instances: st.instances, output: st.output, reads: st.reads }, st.functions.len())
}

/// Class `c` added to the store, and its index.
pub open spec fn push_class(st: IState, c: ClassView) -> (IState, nat) {
    (IState { frames: st.frames, functions: st.functions, classes: st.classes.push(c), instances: st.instances, output: st.output, reads: st.reads }, st.classes.len())
}

/// A new instance of `class`, with no fields, and its index.
pub open spec fn push_instance(st: IState, class: nat) -> (IState, nat) {
    (IState {
        frames: st.frames,
        functions: st.functions,
        classes: st.classes,
        instances: st.instances.push(InstanceView { class, fields: Seq::empty() }),
        output: st.output,
        reads: st.reads,
    }, st.instances.len())
}

/// The field `name` of instance `i` set to `v`.
pub open spec fn set_field(st: IState, i: nat, name: Seq<char>, v: ValueView) -> IState {
    IState {
        frames: st.frames,
        functions: st.functions,
        classes: st.classes,
        instances: st.instances.update(i as int, InstanceView { class: st.instances[i as int].class, fields: fields_set(st.instances[i as int].fields, name, v) }),
        output: st.output,
        reads: st.reads,
    }
}

/// `text` and a newline added to the output.
pub open spec fn print_line(st: IState, text: Seq<char>) -> IState {
    IState { frames: st.frames, functions: st.functions, classes: st.classes, instances: st.instances, output: st.output + text + seq!['\n'], reads: st.reads }
}

/// One more reading of the clock taken.
pub open spec fn read_clock(st: IState) -> IState {
    IState { frames: st.frames, functions: st.functions, classes: st.classes, instances: st.instances, output: st.output, reads: st.reads + 1 }
}

/// The position of the method `name` in `ms` from `i` on (`ms.len()` if none).
pub open spec fn method_index_from(ms: Seq<(Seq<char>, nat)>, name: Seq<char>, i: int) -> int
    decreases ms.len() - i,
{
    if i < 0 || i >= ms.len() {
        ms.len() as int
    } else if ms[i].0 == name {
        i
    } else {
        method_index_from(ms, name, i + 1)
    }
}

/// The function of the method `name` of a class, looked up in the class itself.
pub open spec fn find_method(c: ClassView, name: Seq<char>) -> Option<nat> {
    let i = method_index_from(c.methods, name, 0);
    if 0 <= i < c.methods.len() {
        Some(c.methods[i].1)
    } else {
        None
    }
}

/// The methods with `name` bound to `f`: in place if it was there, else last.
pub open spec fn insert_method(ms: Seq<(Seq<char>, nat)>, name: Seq<char>, f: nat) -> Seq<(Seq<char>, nat)> {
    let i = method_index_from(ms, name, 0);
    if 0 <= i < ms.len() {
        ms.update(i, (name, f))
    } else {
        ms.push((name, f))
    }
}

/// How `print` writes a value.
pub open spec fn value_text(st: IState, v: ValueView) -> Seq<char> {
    match v {
        ValueView::Str(s) => s,
        ValueView::Num(b) => display_text(b),
        ValueView::Bool(b) => if b { "true"@ } else { "false"@ },
        ValueView::NativeFn(_) => "<native fn>"@,
        ValueView::Fn(i) => "<fn "@ + match st.functions[i as int].name {
            Some(t) => t.lexeme,
            None => "(lambda)"@,
        } + ">"@,
        ValueView::Class(c) => st.classes[c as int].name.lexeme,
        ValueView::Object(o) => st.classes[st.instances[o as int].class as int].name.lexeme + " instance"@,
        ValueView::Nil => "nil"@,
    }
}

/// The value of a literal.
pub open spec fn literal_value(l: LiteralView) -> ValueView {
    match l {
        LiteralView::Str(s) => ValueView::Str(s),
        LiteralView::Num(b) => ValueView::Num(b),
        LiteralView::Bool(b) => ValueView::Bool(b),
        LiteralView::Nil => ValueView::Nil,
    }
}

/// The value of the variable `name`: `depth` frames out from `env` if
/// resolved, else a global.
pub open spec fn lookup_var(st: IState, name: TokenView, depth: Option<nat>, env: nat) -> Option<ValueView> {
    match depth {
        Some(d) => lookup_at(st.frames, env as int, d, name.lexeme),
        None => lookup(st.frames, 0, name.lexeme),
    }
}

/// A read of a variable: `nil` counts as never initialized.
pub open spec fn variable_result(st: IState, name: TokenView, depth: Option<nat>, env: nat) -> Result<ValueView, Seq<char>> {
    match lookup_var(st, name, depth, env) {
        Some(ValueView::Nil) => Err(uninitialized_error(name)),
        Some(v) => Ok(v),
        None => Err(undefined_error(name)),
    }
}

/// An assignment: `depth` frames out from `env` if resolved, else from the globals.
pub open spec fn assign_var(st: IState, env: nat, depth: Option<nat>, name: TokenView, v: ValueView) -> (IState, Result<ValueView, Seq<char>>) {
    let r = match depth {
        Some(d) => assign_at(st.frames, env as int, d, name.lexeme, v),
        None => assign_in(st.frames, 0, name.lexeme, v),
    };
    match r {
        Some(fs) => (with_frames(st, fs), Ok(v)),
        None => (st, Err(undefined_assign_error(name))),
    }
}

/// A copy of function `f` closing over a new frame, nested in its old
/// closure, where `this` is instance `inst`; and its index.
pub open spec fn bind(st: IState, f: nat, inst: nat) -> (IState, nat) {
    let fun = st.functions[f as int];
    let (s1, e) = new_frame(st, fun.closure);
    let s2 = define(s1, e, "this"@, ValueView::Object(inst));
    push_function(s2, FunctionView { name: fun.name, fun: fun.fun, closure: e, is_initializer: fun.is_initializer })
}

/// The number of arguments a callable value takes.
pub open spec fn arity(st: IState, v: ValueView) -> nat {
    match v {
        ValueView::Fn(i) => st.functions[i as int].fun.params.len(),
        ValueView::Class(c) => match find_method(st.classes[c as int], "init"@) {
            Some(f) => st.functions[f as int].fun.params.len(),
            None => 0,
        },
        _ => 0,
    }
}

/// Functions, classes and native functions can be called.
pub open spec fn callable(v: ValueView) -> bool {
    v is NativeFn || v is Fn || v is Class
}

/// The reports of an operator, located at its token.
pub open spec fn at_operator(op: TokenView, r: Result<ValueView, Seq<char>>) -> Result<ValueView, Seq<char>> {
    match r {
        Ok(v) => Ok(v),
        Err(m) => Err(runtime_error_text(op.line, m)),
    }
}

/// The parameters from the `i`-th to the `n`-th bound to the arguments.
pub open spec fn bind_params(st: IState, e: nat, params: Seq<TokenView>, args: Seq<ValueView>, i: int, n: int) -> IState
    decreases n - i,
{
    if i < 0 || i >= n {
        st
    } else {
        bind_params(define(st, e, params[i].lexeme, args[i]), e, params, args, i + 1, n)
    }
}

/// The functions of the methods from the `i`-th on, closing over `menv`,
/// added to the store and to `acc` by name.
pub open spec fn make_methods(st: IState, ms: Seq<FunDeclView>, i: int, menv: nat, acc: Seq<(Seq<char>, nat)>) -> (IState, Seq<(Seq<char>, nat)>)
    decreases ms.len() - i,
{
    if i < 0 || i >= ms.len() {
        (st, acc)
    } else {
        let m = ms[i];
        let (s1, f) = push_function(st, FunctionView { name: Some(m.name), fun: m.fun, closure: menv, is_initializer: m.name.lexeme == "init"@ });
        make_methods(s1, ms, i + 1, menv, insert_method(acc, m.name.lexeme, f))
    }
}

/// A class declaration: its superclass checked, its name bound, its methods
/// made, and the class assigned to its name.
pub open spec fn exec_class(st: IState, d: ClassDeclView, env: nat, fuel: nat) -> (IState, Result<(), Seq<char>>) {
    if fuel == 0 {
        (st, Err(steps_error()))
    } else {
        let sup: Result<Option<nat>, Seq<char>> = match d.superclass {
            Some(b) => match variable_result(st, b.name, b.depth, env) {
                Ok(ValueView::Class(c)) => Ok(Some(c)),
                Ok(_) => Err(runtime_error_text(b.name.line, "Superclass must be a class."@)),
                Err(x) => Err(x),
            },
            None => Ok(None),
        };
        match sup {
            Err(x) => (st, Err(x)),
            Ok(superclass) => {
                let s1 = define(st, env, d.name.lexeme, ValueView::Nil);
                let (s2, menv) = match superclass {
                    Some(c) => {
                        let (a, e) = new_frame(s1, env);
                        (define(a, e, "super"@, ValueView::Class(c)), e)
                    },
                    None => (s1, env),
                };
                let (s3, methods) = make_methods(s2, d.methods, 0, menv, Seq::empty());
                let (s4, c) = push_class(s3, ClassView { name: d.name, superclass, methods });
                match assign_var(s4, env, Some(0), d.name, ValueView::Class(c)) {
                    (s5, Ok(_)) => (s5, Ok(())),
                    (s5, Err(x)) => (s5, Err(x)),
                }
            },
        }
    }
}

/// The value of expression `e` in frame `env`, or the report of the
/// first runtime error, and the state after it.
pub open spec fn eval(st: IState, e: ExprView, env: nat, fuel: nat, feed: Feed) -> (IState, Result<ValueView, Seq<char>>)
    decreases fuel, 0nat,
{
    if fuel == 0 {
        (st, Err(steps_error()))
    } else {
        let f = (fuel - 1) as nat;
        match e {
            ExprView::Assign { variable, value } => eval_assign(st, variable.name, variable.depth, *value, env, f, feed),
            ExprView::Binary { left, operator, right } => eval_binary(st, *left, operator, *right, env, f, feed),
            ExprView::Call { callee, paren, arguments } => eval_call(st, *callee, paren, arguments, env, f, feed),
            ExprView::Get { object, name } => eval_get(st, *object, name, env, f, feed),
            ExprView::Conditional { cond, left, right } => eval_conditional(st, *cond, *left, *right, env, f, feed),
            ExprView::Grouping(inner) => eval(st, *inner, env, f, feed),
            ExprView::Lambda(fv) => eval_lambda(st, fv, env, f, feed),
            ExprView::Literal(l) => (st, Ok(literal_value(l))),
            ExprView::Logical { left, operator, right } => eval_logical(st, *left, operator, *right, env, f, feed),
            ExprView::SetField { object, name, value } => eval_set(st, *object, name, *value, env, f, feed),
            ExprView::Super { keyword, method } => eval_super(st, method, keyword.depth, env, f, feed),
            ExprView::This(b) => eval_this(st, b.name, b.depth, env, f, feed),
            ExprView::Unary { operator, right } => eval_unary(st, operator, *right, env, f, feed),
            ExprView::Variable(b) => (st, variable_result(st, b.name, b.depth, env)),
        }
    }
}

/// An assignment: the value, then the variable set.
pub open spec fn eval_assign(st: IState, name: TokenView, depth: Option<nat>, value: ExprView, env: nat, fuel: nat, feed: Feed) -> (IState, Result<ValueView, Seq<char>>)
    decreases fuel, 0nat,
{
    if fuel == 0 {
        (st, Err(steps_error()))
    } else {
        match eval(st, value, env, (fuel - 1) as nat, feed) {
            (s1, Err(x)) => (s1, Err(x)),
            (s1, Ok(v)) => assign_var(s1, env, depth, name, v),
        }
    }
}

/// A binary operator: both operands, left first, then the operator.
pub open spec fn eval_binary(st: IState, left: ExprView, op: TokenView, right: ExprView, env: nat, fuel: nat, feed: Feed) -> (IState, Result<ValueView, Seq<char>>)
    decreases fuel, 0nat,
{
    if fuel == 0 {
        (st, Err(steps_error()))
    } else {
        let f = (fuel - 1) as nat;
        match eval(st, left, env, f, feed) {
            (s1, Err(x)) => (s1, Err(x)),
            (s1, Ok(l)) => match eval(s1, right, env, f, feed) {
                (s2, Err(x)) => (s2, Err(x)),
                (s2, Ok(r)) => (s2, at_operator(op, binary_result(op.token_type, l, r))),
            },
        }
    }
}

/// `and` and `or`: the right operand only where the left one does not decide.
pub open spec fn eval_logical(st: IState, left: ExprView, op: TokenView, right: ExprView, env: nat, fuel: nat, feed: Feed) -> (IState, Result<ValueView, Seq<char>>)
    decreases fuel, 0nat,
{
    if fuel == 0 {
        (st, Err(steps_error()))
    } else {
        let f = (fuel - 1) as nat;
        match eval(st, left, env, f, feed) {
            (s1, Err(x)) => (s1, Err(x)),
            (s1, Ok(l)) => if (op.token_type == TokenType::OR) == truthy(l) {
                (s1, Ok(l))
            } else {
                eval(s1, right, env, f, feed)
            },
        }
    }
}

/// `c ? a : b`: the condition, then one branch.
pub open spec fn eval_conditional(st: IState, cond: ExprView, left: ExprView, right: ExprView, env: nat, fuel: nat, feed: Feed) -> (IState, Result<ValueView, Seq<char>>)
    decreases fuel, 0nat,
{
    if fuel == 0 {
        (st, Err(steps_error()))
    } else {
        let f = (fuel - 1) as nat;
        match eval(st, cond, env, f, feed) {
            (s1, Err(x)) => (s1, Err(x)),
            (s1, Ok(c)) => if truthy(c) { eval(s1, left, env, f, feed) } else { eval(s1, right, env, f, feed) },
        }
    }
}

/// A unary operator: its operand, then the operator.
pub open spec fn eval_unary(st: IState, op: TokenView, right: ExprView, env: nat, fuel: nat, feed: Feed) -> (IState, Result<ValueView, Seq<char>>)
    decreases fuel, 0nat,
{
    if fuel == 0 {
        (st, Err(steps_error()))
    } else {
        match eval(st, right, env, (fuel - 1) as nat, feed) {
            (s1, Err(x)) => (s1, Err(x)),
            (s1, Ok(v)) => (s1, at_operator(op, unary_result(op.token_type, v))),
        }
    }
}

/// A lambda: a new function closing over `env`.
pub open spec fn eval_lambda(st: IState, fv: FunView, env: nat, fuel: nat, feed: Feed) -> (IState, Result<ValueView, Seq<char>>)
    decreases fuel, 0nat,
{
    if fuel == 0 {
        (st, Err(steps_error()))
    } else {
        let (s1, i) = push_function(st, FunctionView { name: None, fun: fv, closure: env, is_initializer: false });
        (s1, Ok(ValueView::Fn(i)))
    }
}

/// `this`: the variable as resolved.
pub open spec fn eval_this(st: IState, keyword: TokenView, depth: Option<nat>, env: nat, fuel: nat, feed: Feed) -> (IState, Result<ValueView, Seq<char>>)
    decreases fuel, 0nat,
{
    if fuel == 0 {
        (st, Err(steps_error()))
    } else {
        match lookup_var(st, keyword, depth, env) {
            Some(v) => (st, Ok(v)),
            None => (st, Err(undefined_error(keyword))),
        }
    }
}

/// A property: a field of the instance, else its class's method bound to it.
pub open spec fn eval_get(st: IState, object: ExprView, name: TokenView, env: nat, fuel: nat, feed: Feed) -> (IState, Result<ValueView, Seq<char>>)
    decreases fuel, 0nat,
{
    if fuel == 0 {
        (st, Err(steps_error()))
    } else {
        match eval(st, object, env, (fuel - 1) as nat, feed) {
            (s1, Err(x)) => (s1, Err(x)),
            (s1, Ok(ValueView::Object(i))) => match field_value(s1.instances[i as int].fields, name.lexeme) {
                Some(v) => (s1, Ok(v)),
                None => match find_method(s1.classes[s1.instances[i as int].class as int], name.lexeme) {
                    Some(m) => {
                        let (s2, b) = bind(s1, m, i);
                        (s2, Ok(ValueView::Fn(b)))
                    },
                    None => (s1, Err(property_error(name))),
                },
            },
            (s1, Ok(_)) => (s1, Err(runtime_error_text(name.line, "Only instances have properties."@))),
        }
    }
}

/// A field assignment: the object, which must be an instance, then the value.
pub open spec fn eval_set(st: IState, object: ExprView, name: TokenView, value: ExprView, env: nat, fuel: nat, feed: Feed) -> (IState, Result<ValueView, Seq<char>>)
    decreases fuel, 0nat,
{
    if fuel == 0 {
        (st, Err(steps_error()))
    } else {
        let f = (fuel - 1) as nat;
        match eval(st, object, env, f, feed) {
            (s1, Err(x)) => (s1, Err(x)),
            (s1, Ok(ValueView::Object(i))) => match eval(s1, value, env, f, feed) {
                (s2, Err(x)) => (s2, Err(x)),
                (s2, Ok(v)) => (set_field(s2, i, name.lexeme, v), Ok(v)),
            },
            (s1, Ok(_)) => (s1, Err(runtime_error_text(name.line, "Only instances have fields."@))),
        }
    }
}

/// `super.method`: the superclass's method bound to `this`.
pub open spec fn eval_super(st: IState, method: TokenView, depth: Option<nat>, env: nat, fuel: nat, feed: Feed) -> (IState, Result<ValueView, Seq<char>>)
    decreases fuel, 0nat,
{
    if fuel == 0 {
        (st, Err(steps_error()))
    } else {
        match depth {
            None => (st, Err(property_error(method))),
            Some(d) => match lookup_at(st.frames, env as int, d, "super"@) {
                Some(ValueView::Class(c)) => if d == 0 {
                    (st, Err(property_error(method)))
                } else {
                    match lookup_at(st.frames, env as int, (d - 1) as nat, "this"@) {
                        Some(ValueView::Object(o)) => match find_method(st.classes[c as int], method.lexeme) {
                            Some(m) => {
                                let (s1, b) = bind(st, m, o);
                                (s1, Ok(ValueView::Fn(b)))
                            },
                            None => (st, Err(property_error(method))),
                        },
                        _ => (st, Err(property_error(method))),
                    }
                },
                _ => (st, Err(property_error(method))),
            },
        }
    }
}

/// A call: the callee, the arguments in order, then the call.
pub open spec fn eval_call(st: IState, callee: ExprView, paren: TokenView, args: Seq<ExprView>, env: nat, fuel: nat, feed: Feed) -> (IState, Result<ValueView, Seq<char>>)
    decreases fuel, 0nat,
{
    if fuel == 0 {
        (st, Err(steps_error()))
    } else {
        let f = (fuel - 1) as nat;
        match eval(st, callee, env, f, feed) {
            (s1, Err(x)) => (s1, Err(x)),
            (s1, Ok(c)) => match eval_args(s1, args, 0, env, f, Seq::empty(), feed) {
                (s2, Err(x)) => (s2, Err(x)),
                (s2, Ok(vs)) => call_value(s2, c, paren, vs, f, feed),
            },
        }
    }
}

/// The arguments from the `i`-th on, in order, after the values in `acc`.
pub open spec fn eval_args(st: IState, args: Seq<ExprView>, i: int, env: nat, fuel: nat, acc: Seq<ValueView>, feed: Feed) -> (IState, Result<Seq<ValueView>, Seq<char>>)
    decreases fuel, args.len() - i,
{
    if i < 0 || i >= args.len() {
        (st, Ok(acc))
    } else {
        match eval(st, args[i], env, fuel, feed) {
            (s1, Err(x)) => (s1, Err(x)),
            (s1, Ok(v)) => eval_args(s1, args, i + 1, env, fuel, acc.push(v), feed),
        }
    }
}

/// A call: a function runs its body; a class makes an instance and runs
/// its initializer; `clock()` reads the clock.
pub open spec fn call_value(st: IState, callee: ValueView, paren: TokenView, args: Seq<ValueView>, fuel: nat, feed: Feed) -> (IState, Result<ValueView, Seq<char>>)
    decreases fuel, 0nat,
{
    if !callable(callee) {
        (st, Err(runtime_error_text(paren.line, "Can only call functions and classes."@)))
    } else if args.len() != arity(st, callee) {
        (st, Err(arity_error(paren, arity(st, callee), args.len())))
    } else if fuel == 0 {
        (st, Err(steps_error()))
    } else {
        let f = (fuel - 1) as nat;
        match callee {
            ValueView::Fn(i) => call_function(st, i, args, f, feed),
            ValueView::Class(c) => {
                let (s1, inst) = push_instance(st, c);
                match find_method(s1.classes[c as int], "init"@) {
                    Some(m) => {
                        let (s2, b) = bind(s1, m, inst);
                        match call_function(s2, b, args, f, feed) {
                            (s3, Err(x)) => (s3, Err(x)),
                            (s3, Ok(_)) => (s3, Ok(ValueView::Object(inst))),
                        }
                    },
                    None => (s1, Ok(ValueView::Object(inst))),
                }
            },
            _ => (read_clock(st), feed[st.reads as int]),
        }
    }
}

/// A function call: the parameters bound in a new frame nested in the
/// closure, then the body; an initializer gives `this`, another function
/// the value of its `return`, else `nil`.
pub open spec fn call_function(st: IState, i: nat, args: Seq<ValueView>, fuel: nat, feed: Feed) -> (IState, Result<ValueView, Seq<char>>)
    decreases fuel, 0nat,
{
    if fuel == 0 {
        (st, Err(steps_error()))
    } else {
        let fun = st.functions[i as int];
        let (s1, e) = new_frame(st, fun.closure);
        let n = if fun.fun.params.len() < args.len() { fun.fun.params.len() } else { args.len() };
        let s2 = bind_params(s1, e, fun.fun.params, args, 0, n as int);
        match exec_block(s2, fun.fun.body, e, (fuel - 1) as nat, feed) {
            (s3, Err(x)) => (s3, Err(x)),
            (s3, Ok(_)) => if fun.is_initializer {
                match lookup_at(s3.frames, fun.closure as int, 0, "this"@) {
                    Some(v) => (s3, Ok(v)),
                    None => (s3, Err(lost_this_error())),
                }
            } else {
                match s3.frames[e as int].return_value {
                    Some(v) => (take_return(s3, e), Ok(v)),
                    None => (take_return(s3, e), Ok(ValueView::Nil)),
                }
            },
        }
    }
}

/// Statement `s` executed in frame `env`: the state after it, or the
/// report of the first runtime error.
pub open spec fn exec(st: IState, s: StmtView, env: nat, fuel: nat, feed: Feed) -> (IState, Result<(), Seq<char>>)
    decreases fuel, 0nat,
{
    if fuel == 0 {
        (st, Err(steps_error()))
    } else {
        let f = (fuel - 1) as nat;
        match s {
            StmtView::Block(ss) => {
                let (s1, e) = new_frame(st, env);
                let (s2, r) = exec_block(s1, ss, e, f, feed);
                (release(s2, e), r)
            },
            StmtView::Class(d) => exec_class(st, d, env, f),
            StmtView::Expression(x) => match eval(st, x, env, f, feed) {
                (s1, Err(m)) => (s1, Err(m)),
                (s1, Ok(_)) => (s1, Ok(())),
            },
            StmtView::Function(d) => {
                let (s1, i) = push_function(st, FunctionView { name: Some(d.name), fun: d.fun, closure: env, is_initializer: false });
                (define(s1, env, d.name.lexeme, ValueView::Fn(i)), Ok(()))
            },
            StmtView::If { condition, then_branch, else_branch } => match eval(st, condition, env, f, feed) {
                (s1, Err(m)) => (s1, Err(m)),
                (s1, Ok(c)) => if truthy(c) {
                    exec(s1, *then_branch, env, f, feed)
                } else {
                    match else_branch {
                        Some(b) => exec(s1, *b, env, f, feed),
                        None => (s1, Ok(())),
                    }
                },
            },
            StmtView::Print(x) => match eval(st, x, env, f, feed) {
                (s1, Err(m)) => (s1, Err(m)),
                (s1, Ok(v)) => (print_line(s1, value_text(s1, v)), Ok(())),
            },
            StmtView::Return { keyword: _, value } => match value {
                Some(x) => match eval(st, x, env, f, feed) {
                    (s1, Err(m)) => (s1, Err(m)),
                    (s1, Ok(v)) => (set_return(s1, env, v), Ok(())),
                },
                None => (set_return(st, env, ValueView::Nil), Ok(())),
            },
            StmtView::Var { name, initializer } => match initializer {
                Some(x) => match eval(st, x, env, f, feed) {
                    (s1, Err(m)) => (s1, Err(m)),
                    (s1, Ok(v)) => (define(s1, env, name.lexeme, v), Ok(())),
                },
                None => (define(st, env, name.lexeme, ValueView::Nil), Ok(())),
            },
            StmtView::While { condition, body } => exec_while(st, condition, *body, env, f, feed),
        }
    }
}

/// A block's statements in frame `env`.
pub open spec fn exec_block(st: IState, ss: Seq<StmtView>, env: nat, fuel: nat, feed: Feed) -> (IState, Result<(), Seq<char>>)
    decreases fuel, 0nat,
{
    if fuel == 0 {
        (st, Err(steps_error()))
    } else {
        exec_block_from(st, ss, 0, env, (fuel - 1) as nat, feed)
    }
}

/// The statements from the `i`-th on, up to the first error or the first
/// that leaves a return value in the frame.
pub open spec fn exec_block_from(st: IState, ss: Seq<StmtView>, i: int, env: nat, fuel: nat, feed: Feed) -> (IState, Result<(), Seq<char>>)
    decreases fuel, ss.len() - i,
{
    if i < 0 || i >= ss.len() {
        (st, Ok(()))
    } else {
        match exec(st, ss[i], env, fuel, feed) {
            (s1, Err(m)) => (s1, Err(m)),
            (s1, Ok(_)) => if returning(s1, env) { (s1, Ok(())) } else { exec_block_from(s1, ss, i + 1, env, fuel, feed) },
        }
    }
}

/// A `while` loop: the condition, then the body, while the condition is
/// true and no return value was left in the frame.
pub open spec fn exec_while(st: IState, cond: ExprView, body: StmtView, env: nat, fuel: nat, feed: Feed) -> (IState, Result<(), Seq<char>>)
    decreases fuel, 0nat,
{
    if fuel == 0 {
        (st, Err(steps_error()))
    } else {
        let f = (fuel - 1) as nat;
        match eval(st, cond, env, f, feed) {
            (s1, Err(m)) => (s1, Err(m)),
            (s1, Ok(c)) => if !truthy(c) {
                (s1, Ok(()))
            } else {
                match exec(s1, body, env, f, feed) {
                    (s2, Err(m)) => (s2, Err(m)),
                    (s2, Ok(_)) => if returning(s2, env) { (s2, Ok(())) } else { exec_while(s2, cond, body, env, f, feed) },
                }
            },
        }
    }
}

} // verus!

verus! {

/// A program: its statements in the global frame, each with the full
/// budget, up to the first error or a return value left in that frame.
pub open spec fn run_program(st: IState, ss: Seq<StmtView>, feed: Feed) -> (IState, Result<(), Seq<char>>) {
    exec_block_from(st, ss, 0, 0, u64::MAX as nat, feed)
}

/// An expression evaluated in the global frame with the full budget, and
/// its value as `print` writes it.
pub open spec fn run_expr(st: IState, e: ExprView, feed: Feed) -> (IState, Result<Seq<char>, Seq<char>>) {
    match eval(st, e, 0, u64::MAX as nat, feed) {
        (s1, Ok(v)) => (s1, Ok(value_text(s1, v))),
        (s1, Err(m)) => (s1, Err(m)),
    }
}

} // verus!

verus! {

proof fn lemma_error_ends_block(st: IState, ss: Seq<StmtView>, rest: Seq<StmtView>, i: int, env: nat, fuel: nat, feed: Feed)
    requires
        0 <= i,
        exec_block_from(st, ss, i, env, fuel, feed).1 is Err,
    ensures
        exec_block_from(st, ss + rest, i, env, fuel, feed) == exec_block_from(st, ss, i, env, fuel, feed),
    decreases ss.len() - i,
{
    if i < ss.len() {
        assert((ss + rest)[i] == ss[i]);
        let (s1, r) = exec(st, ss[i], env, fuel, feed);
        if r is Ok && !returning(s1, env) {
            lemma_error_ends_block(s1, ss, rest, i + 1, env, fuel, feed);
        }
    }
}

/// A program stops at its first runtime error: statements after it never
/// run, and the run ends with the state and the report of that error.
pub proof fn law_error_ends_the_run(st: IState, ss: Seq<StmtView>, rest: Seq<StmtView>, feed: Feed)
    requires
        run_program(st, ss, feed).1 is Err,
    ensures
        run_program(st, ss + rest, feed) == run_program(st, ss, feed),
{
    lemma_error_ends_block(st, ss, rest, 0, 0, u64::MAX as nat, feed);
}

} // verus!

verus! {

/// Comparing with `==` or `!=` never raises an error once both operands
/// have values: `==` gives whether they are equal, `!=` the opposite, with
/// no coercion between kinds of values.
pub proof fn law_equality_never_fails(
    st: IState,
    left: ExprView,
    eq: TokenView,
    ne: TokenView,
    right: ExprView,
    env: nat,
    fuel: nat,
    feed: Feed,
)
    requires
        fuel > 0,
        eq.token_type == TokenType::EQUAL_EQUAL,
        ne.token_type == TokenType::BANG_EQUAL,
        eval(st, left, env, (fuel - 1) as nat, feed).1 is Ok,
        eval(eval(st, left, env, (fuel - 1) as nat, feed).0, right, env, (fuel - 1) as nat, feed).1 is Ok,
    ensures
        ({
            let (s1, l) = eval(st, left, env, (fuel - 1) as nat, feed);
            let (s2, r) = eval(s1, right, env, (fuel - 1) as nat, feed);
            &&& eval_binary(st, left, eq, right, env, fuel, feed) == (s2, Ok::<ValueView, Seq<char>>(
                ValueView::Bool(crate::value::values_equal(l->Ok_0, r->Ok_0))))
            &&& eval_binary(st, left, ne, right, env, fuel, feed) == (s2, Ok::<ValueView, Seq<char>>(
                ValueView::Bool(!crate::value::values_equal(l->Ok_0, r->Ok_0))))
        }),
{
    let (s1, l) = eval(st, left, env, (fuel - 1) as nat, feed);
    let (s2, r) = eval(s1, right, env, (fuel - 1) as nat, feed);
    crate::ops::law_equality_never_fails(l->Ok_0, r->Ok_0);
}

} // verus!

verus! {

/// An `if` evaluates its condition once, then runs exactly one branch from
/// the state the condition left: the then branch when the value is true,
/// else the else branch, or nothing when there is none. A condition that
/// fails ends the statement with its report.
pub proof fn law_if_runs_the_chosen_branch(
    st: IState,
    condition: ExprView,
    then_branch: StmtView,
    else_branch: Option<StmtView>,
    env: nat,
    fuel: nat,
    feed: Feed,
)
    requires
        fuel > 0,
    ensures
        ({
            let s = StmtView::If {
                condition,
                then_branch: Box::new(then_branch),
                else_branch: match else_branch {
                    Some(b) => Some(Box::new(b)),
                    None => None,
                },
            };
            let f = (fuel - 1) as nat;
            let (s1, c) = eval(st, condition, env, f, feed);
            &&& c matches Err(m) ==> exec(st, s, env, fuel, feed) == (s1, Err::<(), Seq<char>>(m))
            &&& c matches Ok(v) ==> exec(st, s, env, fuel, feed) == if truthy(v) {
                exec(s1, then_branch, env, f, feed)
            } else {
                match else_branch {
                    Some(b) => exec(s1, b, env, f, feed),
                    None => (s1, Ok::<(), Seq<char>>(())),
                }
            }
        }),
{
}

} // verus!

verus! {

/// `print` adds the value's text and a newline to what was printed after
/// its expression ran, and changes nothing else.
pub proof fn law_print_appends_the_value(st: IState, x: ExprView, env: nat, fuel: nat, feed: Feed)
    requires
        fuel > 0,
        eval(st, x, env, (fuel - 1) as nat, feed).1 is Ok,
    ensures
        ({
            let (s1, v) = eval(st, x, env, (fuel - 1) as nat, feed);
            let (s2, r) = exec(st, StmtView::Print(x), env, fuel, feed);
            &&& r is Ok
            &&& s2.output == s1.output + value_text(s1, v->Ok_0) + seq!['\n']
            &&& s2.frames == s1.frames && s2.functions == s1.functions && s2.classes == s1.classes
            &&& s2.instances == s1.instances && s2.reads == s1.reads
        }),
{
}

/// A `while` whose condition is false runs its body no more: it ends with
/// the state its condition left.
pub proof fn law_while_stops_on_false(st: IState, cond: ExprView, body: StmtView, env: nat, fuel: nat, feed: Feed)
    requires
        fuel > 0,
        eval(st, cond, env, (fuel - 1) as nat, feed).1 matches Ok(v) && !truthy(v),
    ensures
        exec_while(st, cond, body, env, fuel, feed) == (eval(st, cond, env, (fuel - 1) as nat, feed).0, Ok::<(), Seq<char>>(())),
{
}

/// After `var name = x;` has run in frame `env`, reading `name` from that
/// frame gives the value of `x`.
pub proof fn law_var_then_read(st: IState, name: TokenView, x: ExprView, env: nat, fuel: nat, feed: Feed)
    requires
        fuel > 0,
        env < eval(st, x, env, (fuel - 1) as nat, feed).0.frames.len(),
        eval(st, x, env, (fuel - 1) as nat, feed).1 is Ok,
    ensures
        lookup(exec(st, StmtView::Var { name, initializer: Some(x) }, env, fuel, feed).0.frames, env as int, name.lexeme)
            == Some(eval(st, x, env, (fuel - 1) as nat, feed).1->Ok_0),
{
    let (s1, v) = eval(st, x, env, (fuel - 1) as nat, feed);
    crate::environment::law_get_after_define(s1.frames, env as int, name.lexeme, v->Ok_0);
}

} // verus!
