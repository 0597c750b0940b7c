//! The tree-walking interpreter: evaluates expressions and executes
//! statements over a store of frames, functions, classes and instances.
//!
//! Each function of the interpreter does what the function of the same
//! kind in `interp_spec` describes, on the interpreter's state seen as
//! plain values: the same next state and the same value or report. The
//! clock's readings are the one thing the interpreter does not decide; it
//! keeps a ghost log of them, and the description holds for every feed of
//! readings that begins with that log.
//!
//! What `print` writes is kept in the interpreter's output, which the caller
//! takes when a run ends (`take_output`); nothing is written out while a
//! program runs.
//!
//! Every store index a value or a frame holds stays valid: the store only
//! grows, and each step keeps `wf`. Recursion is bounded by a budget of
//! nested steps; a run that spends it stops with an error.

use vstd::prelude::*;
use crate::clock::ClockFunction;
use crate::environment::{
    all_values, frames_wf, lemma_all_values_push_empty, lemma_all_values_update, lemma_all_values_weaken,
    lemma_assign_in_ok, lemma_frame_define_ok, opt_value_view, Env, FrameView,
};
use crate::error::RuntimeError;
use crate::expr::{exprs_view, fun_view, lemma_exprs_view_len, Binding, Expr, FunExpr};
use crate::interp_spec;
use crate::interp_spec::{extends, ClassView, Feed, FunctionView, IState, InstanceView};
use crate::object::{class_method, fields_view, method_from, Class, Function, Instance};
use crate::ops::{binary_op, unary_op};
use crate::stmt::{class_decl_view, fun_decls_view, lemma_fun_decls_view_len, lemma_stmts_view_len, stmts_view, ClassDecl, Stmt};
use crate::text::{push_char, text_of, usize_to_text};
use crate::token::{Literal, Token};
use crate::tree_copy::copy_fun;
use crate::value::{NativeFunction, Value, ValueView};

verus! {

/// The interpreter's state: the store of frames (frame 0 holds the
/// globals), of functions, classes and instances, the output printed so
/// far, and the log of the clock's readings.
pub struct Interpreter {
    env: Env,
    functions: Vec<Function>,
    classes: Vec<Class>,
    instances: Vec<Instance>,
    output: String,
    log: Ghost<Feed>,
}

/// A function as plain values.
pub open spec fn function_view(f: Function) -> FunctionView {
    FunctionView {
        name: match f.name {
            Some(t) => Some(t@),
            None => None,
        },
        fun: fun_view(&f.fun),
        closure: f.closure as nat,
        is_initializer: f.is_initializer,
    }
}

/// A class's methods as plain values.
pub open spec fn methods_view(ms: Seq<(String, usize)>) -> Seq<(Seq<char>, nat)> {
    ms.map_values(|p: (String, usize)| (p.0@, p.1 as nat))
}

/// A class as plain values.
pub open spec fn class_view(c: Class) -> ClassView {
    ClassView {
        name: c.name@,
        superclass: match c.superclass {
            Some(s) => Some(s as nat),
            None => None,
        },
        methods: methods_view(c.methods@),
    }
}

/// An instance as plain values.
pub open spec fn instance_view(i: Instance) -> InstanceView {
    InstanceView { class: i.class as nat, fields: fields_view(i.fields@) }
}

/// A result as plain values: the value, or the report.
pub open spec fn result_view(r: Result<Value, RuntimeError>) -> Result<ValueView, Seq<char>> {
    match r {
        Ok(v) => Ok(v@),
        Err(e) => Err(e.0@),
    }
}

/// A result without a value as plain values.
pub open spec fn unit_view(r: Result<(), RuntimeError>) -> Result<(), Seq<char>> {
    match r {
        Ok(_) => Ok(()),
        Err(e) => Err(e.0@),
    }
}

/// The values of `vs` as plain values.
pub open spec fn values_view(vs: Seq<Value>) -> Seq<ValueView> {
    vs.map_values(|v: Value| v@)
}

/// A resolution depth as a plain value.
pub open spec fn depth_view(d: Option<usize>) -> Option<nat> {
    match d {
        Some(x) => Some(x as nat),
        None => None,
    }
}

proof fn lemma_method_index(ms: Seq<(String, usize)>, name: Seq<char>, i: int)
    requires
        0 <= i,
    ensures
        interp_spec::method_index_from(methods_view(ms), name, i) == method_from(ms, name, i),
    decreases ms.len() - i,
{
    if i < ms.len() {
        lemma_method_index(ms, name, i + 1);
    }
}

/// Looking a method up in a class is looking it up in the class's view.
proof fn lemma_find_method(c: Class, name: Seq<char>)
    ensures
        interp_spec::find_method(class_view(c), name) == match class_method(&c, name) {
            Some(f) => Some(f as nat),
            None => None::<nat>,
        },
{
    lemma_method_index(c.methods@, name, 0);
}

impl Interpreter {
    /// Store indices in `v` are valid.
    pub closed spec fn value_ok(&self, v: ValueView) -> bool {
        match v {
            ValueView::Fn(i) => i < self.functions@.len(),
            ValueView::Class(i) => i < self.classes@.len(),
            ValueView::Object(i) => i < self.instances@.len(),
            _ => true,
        }
    }

    pub closed spec fn ok_fn(&self) -> spec_fn(ValueView) -> bool {
        |v: ValueView| self.value_ok(v)
    }

    /// The interpreter's state as plain values.
    pub closed spec fn state(&self) -> IState {
        IState {
            frames: self.env@,
            functions: self.functions@.map_values(|f: Function| function_view(f)),
            classes: self.classes@.map_values(|c: Class| class_view(c)),
            instances: self.instances@.map_values(|i: Instance| instance_view(i)),
            output: self.output@,
            reads: self.log@.len(),
        }
    }

    /// The clock's readings so far, in order.
    pub closed spec fn clock_log(&self) -> Feed {
        self.log@
    }

    /// The frames of variables.
    pub closed spec fn frames(&self) -> Seq<FrameView> {
        self.env@
    }

    /// The frames are those of the state.
    pub proof fn lemma_frames(&self)
        ensures
            self.frames() == self.state().frames,
    {
    }

    /// A value's store indices are valid when they index the state's
    /// functions, classes and instances; other values always are.
    pub proof fn lemma_value_ok(&self, v: ValueView)
        ensures
            self.value_ok(v) == match v {
                ValueView::Fn(i) => i < self.state().functions.len(),
                ValueView::Class(i) => i < self.state().classes.len(),
                ValueView::Object(i) => i < self.state().instances.len(),
                _ => true,
            },
    {
    }

    /// What the program printed so far.
    pub closed spec fn output_text(&self) -> Seq<char> {
        self.output@
    }

    pub closed spec fn function_count(&self) -> nat {
        self.functions@.len()
    }

    pub closed spec fn class_count(&self) -> nat {
        self.classes@.len()
    }

    pub closed spec fn instance_count(&self) -> nat {
        self.instances@.len()
    }

    closed spec fn class_ok(&self, c: Class) -> bool {
        &&& (c.superclass matches Some(s) ==> s < self.classes@.len())
        &&& forall|m: int| 0 <= m < c.methods@.len() ==> (#[trigger] c.methods@[m]).1 < self.functions@.len()
    }

    closed spec fn instance_ok(&self, i: Instance) -> bool {
        &&& i.class < self.classes@.len()
        &&& forall|k: int| 0 <= k < i.fields@.len() ==> self.value_ok(#[trigger] i.fields@[k].1@)
    }

    /// Every store index held anywhere is valid, and frames nest properly.
    pub closed spec fn wf(&self) -> bool {
        &&& frames_wf(self.env@)
        &&& all_values(self.env@, self.ok_fn())
        &&& forall|f: int| 0 <= f < self.functions@.len() ==> (#[trigger] self.functions@[f]).closure < self.env@.len()
        &&& forall|c: int| 0 <= c < self.classes@.len() ==> self.class_ok(#[trigger] self.classes@[c])
        &&& forall|i: int| 0 <= i < self.instances@.len() ==> self.instance_ok(#[trigger] self.instances@[i])
    }

    /// `b` is `a` after some steps: the stores only grew, the output only
    /// got longer, and the clock's log only got longer, by readings the clock
    /// can give.
    pub open spec fn grows(a: Interpreter, b: Interpreter) -> bool {
        &&& a.frames().len() <= b.frames().len()
        &&& a.function_count() <= b.function_count()
        &&& a.class_count() <= b.class_count()
        &&& a.instance_count() <= b.instance_count()
        &&& a.output_text().len() <= b.output_text().len()
        &&& forall|k: int| 0 <= k < a.output_text().len() ==> #[trigger] b.output_text()[k] == a.output_text()[k]
        &&& extends(b.clock_log(), a.clock_log())
        &&& forall|k: int| a.clock_log().len() <= k < b.clock_log().len() ==> interp_spec::clock_reading(#[trigger] b.clock_log()[k])
    }

    proof fn lemma_value_ok_grows(a: Interpreter, b: Interpreter, v: ValueView)
        requires
            Self::grows(a, b),
            a.value_ok(v),
        ensures
            b.value_ok(v),
    {
    }

    /// `wf` holds after growing the stores of function, class and instance
    /// indices, when frames, functions, classes and instances are unchanged
    /// where they were.
    proof fn lemma_wf_after_push(a: Interpreter, b: Interpreter)
        requires
            a.wf(),
            b.env@ == a.env@,
            a.functions@.len() <= b.functions@.len(),
            a.classes@.len() <= b.classes@.len(),
            a.instances@.len() <= b.instances@.len(),
            forall|f: int| 0 <= f < b.functions@.len() ==> (#[trigger] b.functions@[f]).closure < b.env@.len(),
            forall|c: int| 0 <= c < b.classes@.len() ==> b.class_ok(#[trigger] b.classes@[c]),
            forall|i: int| 0 <= i < b.instances@.len() ==> b.instance_ok(#[trigger] b.instances@[i]),
        ensures
            b.wf(),
    {
        assert forall|v: ValueView| #[trigger] a.ok_fn()(v) implies b.ok_fn()(v) by {}
        lemma_all_values_weaken(a.env@, a.ok_fn(), b.ok_fn());
    }

    proof fn lemma_wf_same_stores(a: Interpreter, b: Interpreter)
        requires
            a.wf(),
            b.env == a.env,
            b.functions == a.functions,
            b.classes == a.classes,
            b.instances == a.instances,
        ensures
            b.wf(),
    {
        assert(a.ok_fn() =~= b.ok_fn());
        assert forall|c: int| 0 <= c < b.classes@.len() implies b.class_ok(#[trigger] b.classes@[c]) by {
            assert(a.class_ok(a.classes@[c]));
        }
        assert forall|k: int| 0 <= k < b.instances@.len() implies b.instance_ok(#[trigger] b.instances@[k]) by {
            assert(a.instance_ok(a.instances@[k]));
        }
    }

    /// With only the frames changed, the state is the old one with the new frames.
    proof fn lemma_state_frames(a: Interpreter, b: Interpreter)
        requires
            b.functions == a.functions,
            b.classes == a.classes,
            b.instances == a.instances,
            b.output == a.output,
            b.log == a.log,
        ensures
            b.state() == interp_spec::with_frames(a.state(), b.env@),
    {
        assert(b.state() =~= interp_spec::with_frames(a.state(), b.env@));
    }

    // -----------------------------------------------------------------------
    // Primitive steps on the store, each keeping `wf`.

    fn out_of_steps() -> (e: RuntimeError)
        ensures
            e.0@ == interp_spec::steps_error(),
    {
        RuntimeError(text_of("Step limit reached."))
    }

    fn new_frame(&mut self, enclosing: usize) -> (e: usize)
        requires
            old(self).wf(),
            enclosing < old(self).frames().len(),
        ensures
            final(self).wf(),
            Self::grows(*old(self), *final(self)),
            (final(self).state(), e as nat) == interp_spec::new_frame(old(self).state(), enclosing as nat),
            final(self).clock_log() == old(self).clock_log(),
            e < final(self).frames().len(),
            final(self).functions == old(self).functions,
            final(self).classes == old(self).classes,
            final(self).instances == old(self).instances,
    {
        let e = self.env.new_enclosed_with(enclosing);
        proof {
            assert(old(self).ok_fn() == self.ok_fn());
            lemma_all_values_push_empty(old(self).env@, self.ok_fn(), enclosing as nat);
            Self::lemma_state_frames(*old(self), *self);
        }
        e
    }

    fn define_var(&mut self, e: usize, name: &String, v: Value)
        requires
            old(self).wf(),
            e < old(self).frames().len(),
            old(self).value_ok(v@),
        ensures
            final(self).wf(),
            Self::grows(*old(self), *final(self)),
            final(self).state() == interp_spec::define(old(self).state(), e as nat, name@, v@),
            final(self).clock_log() == old(self).clock_log(),
            final(self).frames().len() == old(self).frames().len(),
            final(self).functions == old(self).functions,
            final(self).classes == old(self).classes,
            final(self).instances == old(self).instances,
    {
        let ghost fs = self.env@;
        let ghost vv = v@;
        self.env.define(e, name, v);
        proof {
            assert(old(self).ok_fn() == self.ok_fn());
            assert(forall|k: int| 0 <= k < fs[e as int].values.len() ==> #[trigger] self.ok_fn()(fs[e as int].values[k].1));
            lemma_frame_define_ok(fs[e as int], self.ok_fn(), name@, vv);
            lemma_all_values_update(fs, self.ok_fn(), e as int, crate::environment::frame_define(fs[e as int], name@, vv));
            let g = self.env@;
            assert forall|i: int| 0 <= i < g.len() implies ((#[trigger] g[i]).enclosing matches Some(p) ==> p < i) by {
                if i != e {
                    assert(g[i] == fs[i]);
                }
            }
            Self::lemma_state_frames(*old(self), *self);
        }
    }

    fn assign_var(&mut self, e: usize, depth: Option<usize>, name: &Token, v: Value) -> (r: Result<Value, RuntimeError>)
        requires
            old(self).wf(),
            old(self).value_ok(v@),
        ensures
            final(self).wf(),
            Self::grows(*old(self), *final(self)),
            (final(self).state(), result_view(r)) == interp_spec::assign_var(old(self).state(), e as nat, depth_view(depth), name@, v@),
            final(self).clock_log() == old(self).clock_log(),
            r matches Ok(x) ==> final(self).value_ok(x@),
            final(self).functions == old(self).functions,
            final(self).classes == old(self).classes,
            final(self).instances == old(self).instances,
    {
        let ghost fs = self.env@;
        let ghost vv = v@;
        let r = match depth {
            Some(d) => self.env.assign_at(e, d, name, v),
            None => self.env.assign(0, name, v),
        };
        proof {
            assert(old(self).ok_fn() == self.ok_fn());
            let target = match depth {
                Some(d) => crate::environment::ancestor(fs, e as int, d as nat),
                None => Some(0nat),
            };
            match target {
                Some(a) => {
                    lemma_assign_in_ok(fs, self.ok_fn(), a as int, name@.lexeme, vv);
                },
                None => {},
            }
            let g = self.env@;
            assert forall|i: int| 0 <= i < g.len() implies ((#[trigger] g[i]).enclosing matches Some(p) ==> p < i) by {
                assert(g[i].enclosing == fs[i].enclosing);
            }
            Self::lemma_state_frames(*old(self), *self);
        }
        r
    }

    fn set_return(&mut self, e: usize, v: Value)
        requires
            old(self).wf(),
            e < old(self).frames().len(),
            old(self).value_ok(v@),
        ensures
            final(self).wf(),
            Self::grows(*old(self), *final(self)),
            final(self).state() == interp_spec::set_return(old(self).state(), e as nat, v@),
            final(self).clock_log() == old(self).clock_log(),
    {
        let ghost fs = self.env@;
        let ghost vv = v@;
        self.env.set_return_from_fn(e, v);
        proof {
            assert(old(self).ok_fn() == self.ok_fn());
            assert(forall|k: int| 0 <= k < fs[e as int].values.len() ==> #[trigger] self.ok_fn()(fs[e as int].values[k].1));
            lemma_all_values_update(fs, self.ok_fn(), e as int, crate::environment::frame_with_return(fs[e as int], Some(vv)));
            let g = self.env@;
            assert forall|i: int| 0 <= i < g.len() implies ((#[trigger] g[i]).enclosing matches Some(p) ==> p < i) by {
                if i != e {
                    assert(g[i] == fs[i]);
                }
            }
            Self::lemma_state_frames(*old(self), *self);
        }
    }

    fn take_return(&mut self, e: usize) -> (r: Option<Value>)
        requires
            old(self).wf(),
            e < old(self).frames().len(),
        ensures
            final(self).wf(),
            Self::grows(*old(self), *final(self)),
            final(self).state() == interp_spec::take_return(old(self).state(), e as nat),
            opt_value_view(r) == old(self).state().frames[e as int].return_value,
            final(self).clock_log() == old(self).clock_log(),
            r matches Some(v) ==> final(self).value_ok(v@),
    {
        let ghost fs = self.env@;
        let r = self.env.take_return_from_fn(e);
        proof {
            assert(old(self).ok_fn() == self.ok_fn());
            assert(forall|k: int| 0 <= k < fs[e as int].values.len() ==> #[trigger] self.ok_fn()(fs[e as int].values[k].1));
            assert(fs[e as int].return_value matches Some(v) ==> self.ok_fn()(v));
            lemma_all_values_update(fs, self.ok_fn(), e as int, crate::environment::frame_with_return(fs[e as int], None));
            let g = self.env@;
            assert forall|i: int| 0 <= i < g.len() implies ((#[trigger] g[i]).enclosing matches Some(p) ==> p < i) by {
                if i != e {
                    assert(g[i] == fs[i]);
                }
            }
            Self::lemma_state_frames(*old(self), *self);
        }
        r
    }

    fn release(&mut self, e: usize)
        requires
            old(self).wf(),
            e < old(self).frames().len(),
        ensures
            final(self).wf(),
            Self::grows(*old(self), *final(self)),
            final(self).state() == interp_spec::release(old(self).state(), e as nat),
            final(self).clock_log() == old(self).clock_log(),
    {
        let ghost fs = self.env@;
        self.env.release(e);
        proof {
            assert(old(self).ok_fn() == self.ok_fn());
            match (fs[e as int].return_value, fs[e as int].enclosing) {
                (Some(v), Some(p)) => {
                    assert(self.ok_fn()(v));
                    assert(forall|k: int| 0 <= k < fs[p as int].values.len() ==> #[trigger] self.ok_fn()(fs[p as int].values[k].1));
                    lemma_all_values_update(fs, self.ok_fn(), p as int, crate::environment::frame_with_return(fs[p as int], Some(v)));
                    let g = self.env@;
                    assert forall|i: int| 0 <= i < g.len() implies ((#[trigger] g[i]).enclosing matches Some(q) ==> q < i) by {
                        if i != p {
                            assert(g[i] == fs[i]);
                        }
                    }
                },
                _ => {},
            }
            Self::lemma_state_frames(*old(self), *self);
            assert(interp_spec::release(old(self).state(), e as nat) =~= interp_spec::with_frames(old(self).state(), self.env@));
        }
    }

    fn push_function(&mut self, f: Function) -> (i: usize)
        requires
            old(self).wf(),
            f.closure < old(self).frames().len(),
        ensures
            final(self).wf(),
            Self::grows(*old(self), *final(self)),
            (final(self).state(), i as nat) == interp_spec::push_function(old(self).state(), function_view(f)),
            final(self).clock_log() == old(self).clock_log(),
            i < final(self).function_count(),
    {
        let ghost fv = function_view(f);
        let i = self.functions.len();
        self.functions.push(f);
        proof {
            let a = *old(self);
            let b = *self;
            assert forall|f: int| 0 <= f < b.functions@.len() implies (#[trigger] b.functions@[f]).closure < b.env@.len() by {
                if f < a.functions@.len() {
                    assert(b.functions@[f] == a.functions@[f]);
                }
            }
            assert forall|c: int| 0 <= c < b.classes@.len() implies b.class_ok(#[trigger] b.classes@[c]) by {
                assert(a.class_ok(a.classes@[c]));
            }
            assert forall|k: int| 0 <= k < b.instances@.len() implies b.instance_ok(#[trigger] b.instances@[k]) by {
                assert(a.instance_ok(a.instances@[k]));
                let inst = b.instances@[k];
                assert forall|j: int| 0 <= j < inst.fields@.len() implies b.value_ok(#[trigger] inst.fields@[j].1@) by {
                    assert(a.value_ok(inst.fields@[j].1@));
                }
            }
            Self::lemma_wf_after_push(a, b);
            assert(b.state().functions =~= a.state().functions.push(fv));
            assert(b.state() =~= interp_spec::push_function(a.state(), fv).0);
        }
        i
    }

    fn push_class(&mut self, c: Class) -> (i: usize)
        requires
            old(self).wf(),
            c.superclass matches Some(s) ==> s < old(self).class_count(),
            forall|m: int| 0 <= m < c.methods@.len() ==> (#[trigger] c.methods@[m]).1 < old(self).function_count(),
        ensures
            final(self).wf(),
            Self::grows(*old(self), *final(self)),
            (final(self).state(), i as nat) == interp_spec::push_class(old(self).state(), class_view(c)),
            final(self).clock_log() == old(self).clock_log(),
            i < final(self).class_count(),
    {
        let ghost cv = class_view(c);
        let i = self.classes.len();
        self.classes.push(c);
        proof {
            let a = *old(self);
            let b = *self;
            assert forall|c: int| 0 <= c < b.classes@.len() implies b.class_ok(#[trigger] b.classes@[c]) by {
                if c < a.classes@.len() {
                    assert(b.classes@[c] == a.classes@[c]);
                    assert(a.class_ok(a.classes@[c]));
                }
            }
            assert forall|k: int| 0 <= k < b.instances@.len() implies b.instance_ok(#[trigger] b.instances@[k]) by {
                assert(a.instance_ok(a.instances@[k]));
                let inst = b.instances@[k];
                assert forall|j: int| 0 <= j < inst.fields@.len() implies b.value_ok(#[trigger] inst.fields@[j].1@) by {
                    assert(a.value_ok(inst.fields@[j].1@));
                }
            }
            Self::lemma_wf_after_push(a, b);
            assert(b.state().classes =~= a.state().classes.push(cv));
            assert(b.state() =~= interp_spec::push_class(a.state(), cv).0);
        }
        i
    }

    fn push_instance(&mut self, class: usize) -> (i: usize)
        requires
            old(self).wf(),
            class < old(self).class_count(),
        ensures
            final(self).wf(),
            Self::grows(*old(self), *final(self)),
            (final(self).state(), i as nat) == interp_spec::push_instance(old(self).state(), class as nat),
            final(self).clock_log() == old(self).clock_log(),
            i < final(self).instance_count(),
    {
        let i = self.instances.len();
        let inst = Instance::new(class);
        let ghost iv = instance_view(inst);
        self.instances.push(inst);
        proof {
            let a = *old(self);
            let b = *self;
            assert forall|c: int| 0 <= c < b.classes@.len() implies b.class_ok(#[trigger] b.classes@[c]) by {
                assert(a.class_ok(a.classes@[c]));
            }
            assert forall|k: int| 0 <= k < b.instances@.len() implies b.instance_ok(#[trigger] b.instances@[k]) by {
                if k < a.instances@.len() {
                    assert(b.instances@[k] == a.instances@[k]);
                    assert(a.instance_ok(a.instances@[k]));
                    let inst = b.instances@[k];
                    assert forall|j: int| 0 <= j < inst.fields@.len() implies b.value_ok(#[trigger] inst.fields@[j].1@) by {
                        assert(a.value_ok(inst.fields@[j].1@));
                    }
                }
            }
            Self::lemma_wf_after_push(a, b);
            assert(iv.fields =~= Seq::<(Seq<char>, ValueView)>::empty());
            assert(iv == InstanceView { class: class as nat, fields: Seq::empty() });
            assert(b.state().instances =~= a.state().instances.push(iv));
            assert(b.state() =~= interp_spec::push_instance(a.state(), class as nat).0);
        }
        i
    }

    fn set_field(&mut self, i: usize, name: &String, v: Value)
        requires
            old(self).wf(),
            i < old(self).instance_count(),
            old(self).value_ok(v@),
        ensures
            final(self).wf(),
            Self::grows(*old(self), *final(self)),
            final(self).state() == interp_spec::set_field(old(self).state(), i as nat, name@, v@),
            final(self).clock_log() == old(self).clock_log(),
    {
        let ghost a = *self;
        let ghost vv = v@;
        self.instances[i].set(name, v);
        proof {
            let b = *self;
            let inst = b.instances@[i as int];
            crate::environment::lemma_slot_from(fields_view(a.instances@[i as int].fields@), name@, 0);
            assert(a.instance_ok(a.instances@[i as int]));
            let old_inst = a.instances@[i as int];
            let old_fields = fields_view(old_inst.fields@);
            let new_fields = fields_view(inst.fields@);
            assert(new_fields == crate::object::fields_set(old_fields, name@, vv));
            assert forall|j: int| 0 <= j < inst.fields@.len() implies b.value_ok(#[trigger] inst.fields@[j].1@) by {
                assert(new_fields[j].1 == inst.fields@[j].1@);
                let s = crate::environment::slot_from(old_fields, name@, 0);
                if (0 <= s < old_fields.len() && j == s) || (!(0 <= s < old_fields.len()) && j == old_fields.len()) {
                    assert(new_fields[j].1 == vv);
                } else {
                    assert(old_fields.len() == old_inst.fields@.len());
                    assert(new_fields.len() == inst.fields@.len());
                    if 0 <= s < old_fields.len() {
                        assert(new_fields == old_fields.update(s, (name@, vv)));
                    } else {
                        assert(new_fields == old_fields.push((name@, vv)));
                    }
                    assert(0 <= j < old_fields.len());
                    assert(new_fields[j] == old_fields[j]);
                    assert(old_fields[j].1 == old_inst.fields@[j].1@);
                    assert(a.value_ok(old_inst.fields@[j].1@));
                }
            }
            assert forall|k: int| 0 <= k < b.instances@.len() implies b.instance_ok(#[trigger] b.instances@[k]) by {
                if k != i {
                    assert(b.instances@[k] == a.instances@[k]);
                    assert(a.instance_ok(a.instances@[k]));
                }
            }
            assert forall|c: int| 0 <= c < b.classes@.len() implies b.class_ok(#[trigger] b.classes@[c]) by {
                assert(a.class_ok(a.classes@[c]));
            }
            Self::lemma_wf_after_push(a, b);
            assert(b.state().instances =~= a.state().instances.update(i as int, InstanceView {
                class: a.state().instances[i as int].class,
                fields: crate::object::fields_set(a.state().instances[i as int].fields, name@, vv),
            }));
            assert(b.state() =~= interp_spec::set_field(a.state(), i as nat, name@, vv));
        }
    }

    fn print_line(&mut self, text: &String)
        ensures
            final(self).output@ == old(self).output@ + text@ + seq!['\n'],
            final(self).state() == interp_spec::print_line(old(self).state(), text@),
            final(self).env == old(self).env,
            final(self).functions == old(self).functions,
            final(self).classes == old(self).classes,
            final(self).instances == old(self).instances,
            final(self).log == old(self).log,
    {
        self.output.append(text.as_str());
        push_char(&mut self.output, '\n');
        assert(self.output@ =~= old(self).output@ + text@ + seq!['\n']);
        assert(self.state() =~= interp_spec::print_line(old(self).state(), text@));
    }

    /// Reads the clock, and keeps the reading in the log.
    fn read_clock(&mut self) -> (r: Result<Value, RuntimeError>)
        requires
            old(self).wf(),
        ensures
            final(self).wf(),
            Self::grows(*old(self), *final(self)),
            final(self).state() == interp_spec::read_clock(old(self).state()),
            final(self).clock_log() == old(self).clock_log().push(result_view(r)),
            r matches Ok(v) ==> final(self).value_ok(v@),
    {
        let r = ClockFunction.call();
        self.log = Ghost(self.log@.push(result_view(r)));
        proof {
            Self::lemma_wf_same_stores(*old(self), *self);
            assert(self.state() =~= interp_spec::read_clock(old(self).state()));
        }
        r
    }

    // -----------------------------------------------------------------------
    // Creating the interpreter, and reading values.

    /// An interpreter whose globals hold only the native `clock` function,
    /// with nothing printed yet and no reading of the clock.
    pub fn new() -> (r: Interpreter)
        ensures
            r.wf(),
            r.frames().len() == 1,
            r.state() == interp_spec::initial_state(),
            r.clock_log() == Seq::<Result<ValueView, Seq<char>>>::empty(),
    {
        let mut it = Interpreter {
            env: Env::new(),
            functions: Vec::new(),
            classes: Vec::new(),
            instances: Vec::new(),
            output: String::new(),
            log: Ghost(Seq::empty()),
        };
        proof {
            assert(it.env@[0].values.len() == 0);
            assert(all_values(it.env@, it.ok_fn()));
            assert(it.state() =~= interp_spec::empty_state());
        }
        let name = text_of("clock");
        it.define_var(0, &name, Value::NativeFn(NativeFunction::Clock(ClockFunction)));
        it
    }

    /// The text printed so far.
    pub fn output(&self) -> (r: &String)
        ensures
            r@ == self.output_text(),
            r@ == self.state().output,
    {
        &self.output
    }

    /// The store of frames, whose frame 0 holds the globals.
    pub fn globals(&self) -> (r: &Env)
        ensures
            r@ == self.state().frames,
    {
        &self.env
    }

    /// Takes the text printed so far, leaving the output empty.
    pub fn take_output(&mut self) -> (r: String)
        requires
            old(self).wf(),
        ensures
            r@ == old(self).state().output,
            final(self).state() == interp_spec::without_output(old(self).state()),
            final(self).clock_log() == old(self).clock_log(),
            final(self).wf(),
            final(self).frames() == old(self).frames(),
            final(self).output_text() == Seq::<char>::empty(),
    {
        let mut r = String::new();
        std::mem::swap(&mut r, &mut self.output);
        proof {
            Self::lemma_wf_same_stores(*old(self), *self);
            assert(self.state() =~= interp_spec::without_output(old(self).state()));
        }
        r
    }

    /// How `print` writes `v`.
    pub fn stringify(&self, v: &Value) -> (r: String)
        requires
            self.wf(),
            self.value_ok(v@),
        ensures
            r@ == interp_spec::value_text(self.state(), v@),
    {
        match v {
            Value::Str(s) => s.clone(),
            Value::Num(n) => n.to_display_text(),
            Value::Bool(b) => if *b { text_of("true") } else { text_of("false") },
            Value::NativeFn(_) => text_of("<native fn>"),
            Value::Fn(i) => {
                let mut s = text_of("<fn ");
                let name = self.functions[*i].name();
                s.append(name.as_str());
                s.append(">");
                s
            },
            Value::Class(c) => self.classes[*c].name.lexeme.clone(),
            Value::Object(o) => {
                let c = self.instances[*o].class;
                proof {
                    assert(self.instance_ok(self.instances@[*o as int]));
                }
                let mut s = self.classes[c].name.lexeme.clone();
                s.append(" instance");
                s
            },
            Value::Nil => text_of("nil"),
        }
    }

    /// The value of the variable `b`: as far out from `env` as it was
    /// resolved, else a global.
    fn lookup_variable(&self, b: &Binding, env: usize) -> (r: Option<Value>)
        requires
            self.wf(),
        ensures
            opt_value_view(r) == interp_spec::lookup_var(self.state(), b@.name, b@.depth, env as nat),
            r matches Some(v) ==> self.value_ok(v@),
    {
        proof {
            crate::environment::lemma_lookup_ok(self.env@, self.ok_fn(), 0, b.name.lexeme@);
            match b.depth {
                Some(d) => crate::environment::lemma_lookup_at_ok(self.env@, self.ok_fn(), env as int, d as nat, b.name.lexeme@),
                None => {},
            }
        }
        match b.depth {
            Some(d) => self.env.get_at(env, d, &b.name.lexeme),
            None => self.env.get(0, &b.name.lexeme),
        }
    }

    fn quoted_error(name: &Token, before: &str, after: &str) -> (e: RuntimeError)
        ensures
            e.0@ == crate::lox::runtime_error_text(name.line as nat, before@ + name.lexeme@ + after@),
    {
        let mut msg = text_of(before);
        msg.append(name.lexeme.as_str());
        msg.append(after);
        RuntimeError::new(name, msg.as_str())
    }

    /// A read of a variable: `nil` counts as never initialized.
    pub fn visit_variable_expr(&self, b: &Binding, env: usize) -> (r: Result<Value, RuntimeError>)
        requires
            self.wf(),
        ensures
            result_view(r) == interp_spec::variable_result(self.state(), b@.name, b@.depth, env as nat),
            r matches Ok(v) ==> self.value_ok(v@),
    {
        match self.lookup_variable(b, env) {
            Some(Value::Nil) => {
                proof {
                    reveal_strlit("Uninitialized variable \"");
                    reveal_strlit("\".");
                }
                Err(Self::quoted_error(&b.name, "Uninitialized variable \"", "\"."))
            },
            Some(v) => Ok(v),
            None => {
                proof {
                    reveal_strlit("Undefined variable \"");
                    reveal_strlit("\".");
                }
                Err(Self::quoted_error(&b.name, "Undefined variable \"", "\"."))
            },
        }
    }

    /// The value of a literal.
    pub fn visit_literal_expr(literal: &Literal) -> (v: Value)
        ensures
            v@ == interp_spec::literal_value(literal@),
    {
        match literal {
            Literal::Str(s) => Value::Str(s.clone()),
            Literal::Num(n) => Value::Num(*n),
            Literal::Bool(b) => Value::Bool(*b),
            Literal::Nil => Value::Nil,
        }
    }

    /// A copy of function `f` whose closure is a new frame, nested in the
    /// old closure, where `this` is instance `instance`.
    fn bind(&mut self, f: usize, instance: usize) -> (r: usize)
        requires
            old(self).wf(),
            f < old(self).function_count(),
            instance < old(self).instance_count(),
        ensures
            final(self).wf(),
            Self::grows(*old(self), *final(self)),
            (final(self).state(), r as nat) == interp_spec::bind(old(self).state(), f as nat, instance as nat),
            final(self).clock_log() == old(self).clock_log(),
            r < final(self).function_count(),
    {
        let closure = self.functions[f].closure;
        let e = self.new_frame(closure);
        let this_name = text_of("this");
        self.define_var(e, &this_name, Value::Object(instance));
        let name = match &self.functions[f].name {
            Some(t) => Some(t.clone()),
            None => None,
        };
        let fun = copy_fun(&self.functions[f].fun);
        let is_initializer = self.functions[f].is_initializer;
        let nf = Function { name, fun, closure: e, is_initializer };
        proof {
            let fv = old(self).state().functions[f as int];
            assert(function_view(nf) == FunctionView { name: fv.name, fun: fv.fun, closure: e as nat, is_initializer: fv.is_initializer });
        }
        self.push_function(nf)
    }

    /// The number of arguments a callable value takes.
    fn arity(&self, v: &Value) -> (r: usize)
        requires
            self.wf(),
            self.value_ok(v@),
        ensures
            r == interp_spec::arity(self.state(), v@),
    {
        match v {
            Value::Fn(i) => self.functions[*i].arity(),
            Value::Class(c) => {
                let init = text_of("init");
                proof {
                    assert(self.class_ok(self.classes@[*c as int]));
                    lemma_find_method(self.classes@[*c as int], init@);
                }
                match self.classes[*c].find_method(&init) {
                    Some(f) => {
                        proof {
                            let cl = self.classes@[*c as int];
                            let k = method_from(cl.methods@, init@, 0);
                            assert(cl.methods@[k].1 == f);
                        }
                        self.functions[f].arity()
                    },
                    None => 0,
                }
            },
            _ => 0,
        }
    }

    // -----------------------------------------------------------------------
    // Evaluating expressions. Each spends one step of `fuel` and hands what
    // is left to the parts it evaluates.

    /// The value of `expr` in frame `env`, or the runtime error it raises.
    pub fn evaluate(&mut self, expr: &Expr, env: usize, fuel: u64) -> (r: Result<Value, RuntimeError>)
        requires
            old(self).wf(),
            env < old(self).frames().len(),
        ensures
            final(self).wf(),
            Self::grows(*old(self), *final(self)),
            r matches Ok(v) ==> final(self).value_ok(v@),
            forall|feed: Feed| extends(feed, final(self).clock_log()) ==> #[trigger] interp_spec::eval(
                old(self).state(), expr@, env as nat, fuel as nat, feed) == (final(self).state(), result_view(r)),
        decreases fuel,
    {
        if fuel == 0 {
            return Err(Self::out_of_steps());
        }
        let f = fuel - 1;
        proof {
            assert(f as nat == (fuel as nat - 1) as nat);
        }
        let ghost s0 = self.state();
        match expr {
            Expr::Assign { variable, value } => {
                let r = self.visit_assign_expr(variable, value, env, f);
                proof {
                    assert forall|feed: Feed| extends(feed, self.clock_log()) implies #[trigger] interp_spec::eval(
                        s0, expr@, env as nat, fuel as nat, feed) == (self.state(), result_view(r)) by {
                        assert(interp_spec::eval_assign(s0, variable@.name, variable@.depth, value@, env as nat, f as nat, feed) == (self.state(), result_view(r)));
                    }
                }
                r
            },
            Expr::Binary { left, operator, right } => {
                let r = self.visit_binary_expr(left, operator, right, env, f);
                proof {
                    assert forall|feed: Feed| extends(feed, self.clock_log()) implies #[trigger] interp_spec::eval(
                        s0, expr@, env as nat, fuel as nat, feed) == (self.state(), result_view(r)) by {
                        assert(interp_spec::eval_binary(s0, left@, operator@, right@, env as nat, f as nat, feed) == (self.state(), result_view(r)));
                    }
                }
                r
            },
            Expr::Call { callee, paren, arguments } => {
                let r = self.visit_call_expr(callee, paren, arguments, env, f);
                proof {
                    assert forall|feed: Feed| extends(feed, self.clock_log()) implies #[trigger] interp_spec::eval(
                        s0, expr@, env as nat, fuel as nat, feed) == (self.state(), result_view(r)) by {
                        assert(interp_spec::eval_call(s0, callee@, paren@, exprs_view(arguments@), env as nat, f as nat, feed) == (self.state(), result_view(r)));
                    }
                }
                r
            },
            Expr::Get { object, name } => {
                let r = self.visit_get_expr(object, name, env, f);
                proof {
                    assert forall|feed: Feed| extends(feed, self.clock_log()) implies #[trigger] interp_spec::eval(
                        s0, expr@, env as nat, fuel as nat, feed) == (self.state(), result_view(r)) by {
                        assert(interp_spec::eval_get(s0, object@, name@, env as nat, f as nat, feed) == (self.state(), result_view(r)));
                    }
                }
                r
            },
            Expr::Conditional { cond, left, right } => {
                let r = self.visit_conditional_expr(cond, left, right, env, f);
                proof {
                    assert forall|feed: Feed| extends(feed, self.clock_log()) implies #[trigger] interp_spec::eval(
                        s0, expr@, env as nat, fuel as nat, feed) == (self.state(), result_view(r)) by {
                        assert(interp_spec::eval_conditional(s0, cond@, left@, right@, env as nat, f as nat, feed) == (self.state(), result_view(r)));
                    }
                }
                r
            },
            Expr::Grouping(inner) => {
                let r = self.evaluate(inner, env, f);
                proof {
                    assert forall|feed: Feed| extends(feed, self.clock_log()) implies #[trigger] interp_spec::eval(
                        s0, expr@, env as nat, fuel as nat, feed) == (self.state(), result_view(r)) by {
                        assert(interp_spec::eval(s0, inner@, env as nat, f as nat, feed) == (self.state(), result_view(r)));
                    }
                }
                r
            },
            Expr::Lambda(fx) => {
                let r = self.visit_function_expr(fx, env, f);
                proof {
                    assert forall|feed: Feed| extends(feed, self.clock_log()) implies #[trigger] interp_spec::eval(
                        s0, expr@, env as nat, fuel as nat, feed) == (self.state(), result_view(r)) by {
                        assert(interp_spec::eval_lambda(s0, fun_view(fx), env as nat, f as nat, feed) == (self.state(), result_view(r)));
                    }
                }
                r
            },
            Expr::Literal(l) => Ok(Self::visit_literal_expr(l)),
            Expr::Logical { left, operator, right } => {
                let r = self.visit_logical_expr(left, operator, right, env, f);
                proof {
                    assert forall|feed: Feed| extends(feed, self.clock_log()) implies #[trigger] interp_spec::eval(
                        s0, expr@, env as nat, fuel as nat, feed) == (self.state(), result_view(r)) by {
                        assert(interp_spec::eval_logical(s0, left@, operator@, right@, env as nat, f as nat, feed) == (self.state(), result_view(r)));
                    }
                }
                r
            },
            Expr::SetField { object, name, value } => {
                let r = self.visit_set_expr(object, name, value, env, f);
                proof {
                    assert forall|feed: Feed| extends(feed, self.clock_log()) implies #[trigger] interp_spec::eval(
                        s0, expr@, env as nat, fuel as nat, feed) == (self.state(), result_view(r)) by {
                        assert(interp_spec::eval_set(s0, object@, name@, value@, env as nat, f as nat, feed) == (self.state(), result_view(r)));
                    }
                }
                r
            },
            Expr::Super { keyword, method } => {
                let r = self.visit_super_expr(keyword, method, env, f);
                proof {
                    assert forall|feed: Feed| extends(feed, self.clock_log()) implies #[trigger] interp_spec::eval(
                        s0, expr@, env as nat, fuel as nat, feed) == (self.state(), result_view(r)) by {
                        assert(interp_spec::eval_super(s0, method@, keyword@.depth, env as nat, f as nat, feed) == (self.state(), result_view(r)));
                    }
                }
                r
            },
            Expr::This(b) => {
                let r = self.visit_this_expr(b, env, f);
                proof {
                    assert forall|feed: Feed| extends(feed, self.clock_log()) implies #[trigger] interp_spec::eval(
                        s0, expr@, env as nat, fuel as nat, feed) == (self.state(), result_view(r)) by {
                        assert(interp_spec::eval_this(s0, b@.name, b@.depth, env as nat, f as nat, feed) == (self.state(), result_view(r)));
                    }
                }
                r
            },
            Expr::Unary { operator, right } => {
                let r = self.visit_unary_expr(operator, right, env, f);
                proof {
                    assert forall|feed: Feed| extends(feed, self.clock_log()) implies #[trigger] interp_spec::eval(
                        s0, expr@, env as nat, fuel as nat, feed) == (self.state(), result_view(r)) by {
                        assert(interp_spec::eval_unary(s0, operator@, right@, env as nat, f as nat, feed) == (self.state(), result_view(r)));
                    }
                }
                r
            },
            Expr::Variable(b) => self.visit_variable_expr(b, env),
        }
    }

    fn visit_assign_expr(&mut self, variable: &Binding, value: &Expr, env: usize, fuel: u64) -> (r: Result<Value, RuntimeError>)
        requires
            old(self).wf(),
            env < old(self).frames().len(),
        ensures
            final(self).wf(),
            Self::grows(*old(self), *final(self)),
            r matches Ok(v) ==> final(self).value_ok(v@),
            forall|feed: Feed| extends(feed, final(self).clock_log()) ==> #[trigger] interp_spec::eval_assign(
                old(self).state(), variable@.name, variable@.depth, value@, env as nat, fuel as nat, feed) == (final(self).state(), result_view(r)),
        decreases fuel,
    {
        if fuel == 0 {
            return Err(Self::out_of_steps());
        }
        let f = fuel - 1;
        proof {
            assert(f as nat == (fuel as nat - 1) as nat);
        }
        let ghost s0 = self.state();
        let v = match self.evaluate(value, env, f) {
            Ok(v) => v,
            Err(e) => {
                let r = Err(e);
                proof {
                    assert forall|feed: Feed| extends(feed, self.clock_log()) implies #[trigger] interp_spec::eval_assign(
                        s0, variable@.name, variable@.depth, value@, env as nat, fuel as nat, feed) == (self.state(), result_view(r)) by {
                        assert(interp_spec::eval(s0, value@, env as nat, f as nat, feed) == (self.state(), result_view(r)));
                    }
                }
                return r;
            },
        };
        let ghost mid = *self;
        let ghost vv = v@;
        proof {
            assert(depth_view(variable.depth) == variable@.depth);
        }
        let r = self.assign_var(env, variable.depth, &variable.name, v);
        proof {
            assert forall|feed: Feed| extends(feed, self.clock_log()) implies #[trigger] interp_spec::eval_assign(
                s0, variable@.name, variable@.depth, value@, env as nat, fuel as nat, feed) == (self.state(), result_view(r)) by {
                assert(interp_spec::eval(s0, value@, env as nat, f as nat, feed) == (mid.state(), Ok::<ValueView, Seq<char>>(vv)));
            }
        }
        r
    }

    fn visit_binary_expr(&mut self, left: &Expr, operator: &Token, right: &Expr, env: usize, fuel: u64) -> (r: Result<Value, RuntimeError>)
        requires
            old(self).wf(),
            env < old(self).frames().len(),
        ensures
            final(self).wf(),
            Self::grows(*old(self), *final(self)),
            r matches Ok(v) ==> final(self).value_ok(v@),
            forall|feed: Feed| extends(feed, final(self).clock_log()) ==> #[trigger] interp_spec::eval_binary(
                old(self).state(), left@, operator@, right@, env as nat, fuel as nat, feed) == (final(self).state(), result_view(r)),
        decreases fuel,
    {
        if fuel == 0 {
            return Err(Self::out_of_steps());
        }
        let f = fuel - 1;
        proof {
            assert(f as nat == (fuel as nat - 1) as nat);
        }
        let ghost s0 = self.state();
        let l = match self.evaluate(left, env, f) {
            Ok(v) => v,
            Err(e) => {
                let r = Err(e);
                proof {
                    assert forall|feed: Feed| extends(feed, self.clock_log()) implies #[trigger] interp_spec::eval_binary(
                        s0, left@, operator@, right@, env as nat, fuel as nat, feed) == (self.state(), result_view(r)) by {
                        assert(interp_spec::eval(s0, left@, env as nat, f as nat, feed) == (self.state(), result_view(r)));
                    }
                }
                return r;
            },
        };
        let ghost mid = *self;
        let ghost lv = l@;
        let rv = match self.evaluate(right, env, f) {
            Ok(v) => v,
            Err(e) => {
                let r = Err(e);
                proof {
                    assert forall|feed: Feed| extends(feed, self.clock_log()) implies #[trigger] interp_spec::eval_binary(
                        s0, left@, operator@, right@, env as nat, fuel as nat, feed) == (self.state(), result_view(r)) by {
                        interp_spec::lemma_extends_trans(feed, self.clock_log(), mid.clock_log());
                        assert(interp_spec::eval(s0, left@, env as nat, f as nat, feed) == (mid.state(), Ok::<ValueView, Seq<char>>(lv)));
                        assert(interp_spec::eval(mid.state(), right@, env as nat, f as nat, feed) == (self.state(), result_view(r)));
                    }
                }
                return r;
            },
        };
        proof {
            Self::lemma_value_ok_grows(mid, *self, l@);
        }
        let ghost rvv = rv@;
        let r = binary_op(operator, l, rv);
        proof {
            assert forall|feed: Feed| extends(feed, self.clock_log()) implies #[trigger] interp_spec::eval_binary(
                s0, left@, operator@, right@, env as nat, fuel as nat, feed) == (self.state(), result_view(r)) by {
                interp_spec::lemma_extends_trans(feed, self.clock_log(), mid.clock_log());
                assert(interp_spec::eval(s0, left@, env as nat, f as nat, feed) == (mid.state(), Ok::<ValueView, Seq<char>>(lv)));
                assert(interp_spec::eval(mid.state(), right@, env as nat, f as nat, feed) == (self.state(), Ok::<ValueView, Seq<char>>(rvv)));
            }
        }
        r
    }

    fn visit_logical_expr(&mut self, left: &Expr, operator: &Token, right: &Expr, env: usize, fuel: u64) -> (r: Result<Value, RuntimeError>)
        requires
            old(self).wf(),
            env < old(self).frames().len(),
        ensures
            final(self).wf(),
            Self::grows(*old(self), *final(self)),
            r matches Ok(v) ==> final(self).value_ok(v@),
            forall|feed: Feed| extends(feed, final(self).clock_log()) ==> #[trigger] interp_spec::eval_logical(
                old(self).state(), left@, operator@, right@, env as nat, fuel as nat, feed) == (final(self).state(), result_view(r)),
        decreases fuel,
    {
        if fuel == 0 {
            return Err(Self::out_of_steps());
        }
        let f = fuel - 1;
        proof {
            assert(f as nat == (fuel as nat - 1) as nat);
        }
        let ghost s0 = self.state();
        let l = match self.evaluate(left, env, f) {
            Ok(v) => v,
            Err(e) => {
                let r = Err(e);
                proof {
                    assert forall|feed: Feed| extends(feed, self.clock_log()) implies #[trigger] interp_spec::eval_logical(
                        s0, left@, operator@, right@, env as nat, fuel as nat, feed) == (self.state(), result_view(r)) by {
                        assert(interp_spec::eval(s0, left@, env as nat, f as nat, feed) == (self.state(), result_view(r)));
                    }
                }
                return r;
            },
        };
        let ghost mid = *self;
        let ghost lv = l@;
        let short = if operator.token_type == crate::token::TokenType::OR {
            l.is_truthy()
        } else {
            !l.is_truthy()
        };
        if short {
            let r = Ok(l);
            proof {
                assert forall|feed: Feed| extends(feed, self.clock_log()) implies #[trigger] interp_spec::eval_logical(
                    s0, left@, operator@, right@, env as nat, fuel as nat, feed) == (self.state(), result_view(r)) by {
                    assert(interp_spec::eval(s0, left@, env as nat, f as nat, feed) == (mid.state(), Ok::<ValueView, Seq<char>>(lv)));
                }
            }
            return r;
        }
        let r = self.evaluate(right, env, f);
        proof {
            assert forall|feed: Feed| extends(feed, self.clock_log()) implies #[trigger] interp_spec::eval_logical(
                s0, left@, operator@, right@, env as nat, fuel as nat, feed) == (self.state(), result_view(r)) by {
                interp_spec::lemma_extends_trans(feed, self.clock_log(), mid.clock_log());
                assert(interp_spec::eval(s0, left@, env as nat, f as nat, feed) == (mid.state(), Ok::<ValueView, Seq<char>>(lv)));
                assert(interp_spec::eval(mid.state(), right@, env as nat, f as nat, feed) == (self.state(), result_view(r)));
            }
        }
        r
    }

    fn visit_conditional_expr(&mut self, cond: &Expr, left: &Expr, right: &Expr, env: usize, fuel: u64) -> (r: Result<Value, RuntimeError>)
        requires
            old(self).wf(),
            env < old(self).frames().len(),
        ensures
            final(self).wf(),
            Self::grows(*old(self), *final(self)),
            r matches Ok(v) ==> final(self).value_ok(v@),
            forall|feed: Feed| extends(feed, final(self).clock_log()) ==> #[trigger] interp_spec::eval_conditional(
                old(self).state(), cond@, left@, right@, env as nat, fuel as nat, feed) == (final(self).state(), result_view(r)),
        decreases fuel,
    {
        if fuel == 0 {
            return Err(Self::out_of_steps());
        }
        let f = fuel - 1;
        proof {
            assert(f as nat == (fuel as nat - 1) as nat);
        }
        let ghost s0 = self.state();
        let c = match self.evaluate(cond, env, f) {
            Ok(v) => v,
            Err(e) => {
                let r = Err(e);
                proof {
                    assert forall|feed: Feed| extends(feed, self.clock_log()) implies #[trigger] interp_spec::eval_conditional(
                        s0, cond@, left@, right@, env as nat, fuel as nat, feed) == (self.state(), result_view(r)) by {
                        assert(interp_spec::eval(s0, cond@, env as nat, f as nat, feed) == (self.state(), result_view(r)));
                    }
                }
                return r;
            },
        };
        let ghost mid = *self;
        let ghost cv = c@;
        let truth = c.is_truthy();
        let r = if truth {
            self.evaluate(left, env, f)
        } else {
            self.evaluate(right, env, f)
        };
        proof {
            assert forall|feed: Feed| extends(feed, self.clock_log()) implies #[trigger] interp_spec::eval_conditional(
                s0, cond@, left@, right@, env as nat, fuel as nat, feed) == (self.state(), result_view(r)) by {
                interp_spec::lemma_extends_trans(feed, self.clock_log(), mid.clock_log());
                assert(interp_spec::eval(s0, cond@, env as nat, f as nat, feed) == (mid.state(), Ok::<ValueView, Seq<char>>(cv)));
                if truth {
                    assert(interp_spec::eval(mid.state(), left@, env as nat, f as nat, feed) == (self.state(), result_view(r)));
                } else {
                    assert(interp_spec::eval(mid.state(), right@, env as nat, f as nat, feed) == (self.state(), result_view(r)));
                }
            }
        }
        r
    }

    fn visit_unary_expr(&mut self, operator: &Token, right: &Expr, env: usize, fuel: u64) -> (r: Result<Value, RuntimeError>)
        requires
            old(self).wf(),
            env < old(self).frames().len(),
        ensures
            final(self).wf(),
            Self::grows(*old(self), *final(self)),
            r matches Ok(v) ==> final(self).value_ok(v@),
            forall|feed: Feed| extends(feed, final(self).clock_log()) ==> #[trigger] interp_spec::eval_unary(
                old(self).state(), operator@, right@, env as nat, fuel as nat, feed) == (final(self).state(), result_view(r)),
        decreases fuel,
    {
        if fuel == 0 {
            return Err(Self::out_of_steps());
        }
        let f = fuel - 1;
        proof {
            assert(f as nat == (fuel as nat - 1) as nat);
        }
        let ghost s0 = self.state();
        let v = match self.evaluate(right, env, f) {
            Ok(v) => v,
            Err(e) => {
                let r = Err(e);
                proof {
                    assert forall|feed: Feed| extends(feed, self.clock_log()) implies #[trigger] interp_spec::eval_unary(
                        s0, operator@, right@, env as nat, fuel as nat, feed) == (self.state(), result_view(r)) by {
                        assert(interp_spec::eval(s0, right@, env as nat, f as nat, feed) == (self.state(), result_view(r)));
                    }
                }
                return r;
            },
        };
        let ghost vv = v@;
        let r = unary_op(operator, v);
        proof {
            assert forall|feed: Feed| extends(feed, self.clock_log()) implies #[trigger] interp_spec::eval_unary(
                s0, operator@, right@, env as nat, fuel as nat, feed) == (self.state(), result_view(r)) by {
                assert(interp_spec::eval(s0, right@, env as nat, f as nat, feed) == (self.state(), Ok::<ValueView, Seq<char>>(vv)));
            }
        }
        r
    }

    fn visit_function_expr(&mut self, fx: &FunExpr, env: usize, fuel: u64) -> (r: Result<Value, RuntimeError>)
        requires
            old(self).wf(),
            env < old(self).frames().len(),
        ensures
            final(self).wf(),
            Self::grows(*old(self), *final(self)),
            r matches Ok(v) ==> final(self).value_ok(v@),
            forall|feed: Feed| extends(feed, final(self).clock_log()) ==> #[trigger] interp_spec::eval_lambda(
                old(self).state(), fun_view(fx), env as nat, fuel as nat, feed) == (final(self).state(), result_view(r)),
        decreases fuel,
    {
        if fuel == 0 {
            return Err(Self::out_of_steps());
        }
        let i = self.push_function(Function::new_lambda(fx, env));
        Ok(Value::Fn(i))
    }

    fn visit_this_expr(&mut self, keyword: &Binding, env: usize, fuel: u64) -> (r: Result<Value, RuntimeError>)
        requires
            old(self).wf(),
            env < old(self).frames().len(),
        ensures
            final(self).wf(),
            Self::grows(*old(self), *final(self)),
            r matches Ok(v) ==> final(self).value_ok(v@),
            forall|feed: Feed| extends(feed, final(self).clock_log()) ==> #[trigger] interp_spec::eval_this(
                old(self).state(), keyword@.name, keyword@.depth, env as nat, fuel as nat, feed) == (final(self).state(), result_view(r)),
        decreases fuel,
    {
        if fuel == 0 {
            return Err(Self::out_of_steps());
        }
        match self.lookup_variable(keyword, env) {
            Some(v) => Ok(v),
            None => {
                proof {
                    reveal_strlit("Undefined variable \"");
                    reveal_strlit("\".");
                }
                Err(Self::quoted_error(&keyword.name, "Undefined variable \"", "\"."))
            },
        }
    }

    fn visit_get_expr(&mut self, object: &Expr, name: &Token, env: usize, fuel: u64) -> (r: Result<Value, RuntimeError>)
        requires
            old(self).wf(),
            env < old(self).frames().len(),
        ensures
            final(self).wf(),
            Self::grows(*old(self), *final(self)),
            r matches Ok(v) ==> final(self).value_ok(v@),
            forall|feed: Feed| extends(feed, final(self).clock_log()) ==> #[trigger] interp_spec::eval_get(
                old(self).state(), object@, name@, env as nat, fuel as nat, feed) == (final(self).state(), result_view(r)),
        decreases fuel,
    {
        if fuel == 0 {
            return Err(Self::out_of_steps());
        }
        let f = fuel - 1;
        proof {
            assert(f as nat == (fuel as nat - 1) as nat);
            reveal_strlit("Undefined property '");
            reveal_strlit("'.");
        }
        let ghost s0 = self.state();
        let o = match self.evaluate(object, env, f) {
            Ok(v) => v,
            Err(e) => {
                let r = Err(e);
                proof {
                    assert forall|feed: Feed| extends(feed, self.clock_log()) implies #[trigger] interp_spec::eval_get(
                        s0, object@, name@, env as nat, fuel as nat, feed) == (self.state(), result_view(r)) by {
                        assert(interp_spec::eval(s0, object@, env as nat, f as nat, feed) == (self.state(), result_view(r)));
                    }
                }
                return r;
            },
        };
        let ghost mid = *self;
        let ghost ov = o@;
        let r = match o {
            Value::Object(i) => {
                proof {
                    assert(self.instance_ok(self.instances@[i as int]));
                    crate::environment::lemma_slot_from(fields_view(self.instances@[i as int].fields@), name.lexeme@, 0);
                }
                match self.instances[i].field(&name.lexeme) {
                    Some(v) => {
                        proof {
                            let fs = self.instances@[i as int].fields@;
                            let k = crate::environment::slot_from(fields_view(fs), name.lexeme@, 0);
                            assert(fields_view(fs)[k].1 == fs[k].1@);
                        }
                        Ok(v)
                    },
                    None => {
                        let c = self.instances[i].class;
                        proof {
                            assert(self.class_ok(self.classes@[c as int]));
                            lemma_find_method(self.classes@[c as int], name.lexeme@);
                        }
                        match self.classes[c].find_method(&name.lexeme) {
                            Some(m) => {
                                proof {
                                    let cl = self.classes@[c as int];
                                    let k = method_from(cl.methods@, name.lexeme@, 0);
                                    assert(cl.methods@[k].1 == m);
                                }
                                let b = self.bind(m, i);
                                Ok(Value::Fn(b))
                            },
                            None => Err(Self::quoted_error(name, "Undefined property '", "'.")),
                        }
                    },
                }
            },
            _ => Err(RuntimeError::new(name, "Only instances have properties.")),
        };
        proof {
            assert forall|feed: Feed| extends(feed, self.clock_log()) implies #[trigger] interp_spec::eval_get(
                s0, object@, name@, env as nat, fuel as nat, feed) == (self.state(), result_view(r)) by {
                assert(interp_spec::eval(s0, object@, env as nat, f as nat, feed) == (mid.state(), Ok::<ValueView, Seq<char>>(ov)));
            }
        }
        r
    }

    fn visit_set_expr(&mut self, object: &Expr, name: &Token, value: &Expr, env: usize, fuel: u64) -> (r: Result<Value, RuntimeError>)
        requires
            old(self).wf(),
            env < old(self).frames().len(),
        ensures
            final(self).wf(),
            Self::grows(*old(self), *final(self)),
            r matches Ok(v) ==> final(self).value_ok(v@),
            forall|feed: Feed| extends(feed, final(self).clock_log()) ==> #[trigger] interp_spec::eval_set(
                old(self).state(), object@, name@, value@, env as nat, fuel as nat, feed) == (final(self).state(), result_view(r)),
        decreases fuel,
    {
        if fuel == 0 {
            return Err(Self::out_of_steps());
        }
        let f = fuel - 1;
        proof {
            assert(f as nat == (fuel as nat - 1) as nat);
        }
        let ghost s0 = self.state();
        let o = match self.evaluate(object, env, f) {
            Ok(v) => v,
            Err(e) => {
                let r = Err(e);
                proof {
                    assert forall|feed: Feed| extends(feed, self.clock_log()) implies #[trigger] interp_spec::eval_set(
                        s0, object@, name@, value@, env as nat, fuel as nat, feed) == (self.state(), result_view(r)) by {
                        assert(interp_spec::eval(s0, object@, env as nat, f as nat, feed) == (self.state(), result_view(r)));
                    }
                }
                return r;
            },
        };
        let ghost mid = *self;
        let ghost ov = o@;
        match o {
            Value::Object(i) => {
                let v = match self.evaluate(value, env, f) {
                    Ok(v) => v,
                    Err(e) => {
                        let r = Err(e);
                        proof {
                            assert forall|feed: Feed| extends(feed, self.clock_log()) implies #[trigger] interp_spec::eval_set(
                                s0, object@, name@, value@, env as nat, fuel as nat, feed) == (self.state(), result_view(r)) by {
                                interp_spec::lemma_extends_trans(feed, self.clock_log(), mid.clock_log());
                                assert(interp_spec::eval(s0, object@, env as nat, f as nat, feed) == (mid.state(), Ok::<ValueView, Seq<char>>(ov)));
                                assert(interp_spec::eval(mid.state(), value@, env as nat, f as nat, feed) == (self.state(), result_view(r)));
                            }
                        }
                        return r;
                    },
                };
                proof {
                    Self::lemma_value_ok_grows(mid, *self, ValueView::Object(i as nat));
                }
                let ghost before = *self;
                let ghost vv = v@;
                let v2 = v.clone();
                self.set_field(i, &name.lexeme, v2);
                let r = Ok(v);
                proof {
                    Self::lemma_value_ok_grows(before, *self, vv);
                    assert forall|feed: Feed| extends(feed, self.clock_log()) implies #[trigger] interp_spec::eval_set(
                        s0, object@, name@, value@, env as nat, fuel as nat, feed) == (self.state(), result_view(r)) by {
                        interp_spec::lemma_extends_trans(feed, self.clock_log(), mid.clock_log());
                        assert(interp_spec::eval(s0, object@, env as nat, f as nat, feed) == (mid.state(), Ok::<ValueView, Seq<char>>(ov)));
                        assert(interp_spec::eval(mid.state(), value@, env as nat, f as nat, feed) == (before.state(), Ok::<ValueView, Seq<char>>(vv)));
                    }
                }
                r
            },
            _ => {
                let r = Err(RuntimeError::new(name, "Only instances have fields."));
                proof {
                    assert forall|feed: Feed| extends(feed, self.clock_log()) implies #[trigger] interp_spec::eval_set(
                        s0, object@, name@, value@, env as nat, fuel as nat, feed) == (self.state(), result_view(r)) by {
                        assert(interp_spec::eval(s0, object@, env as nat, f as nat, feed) == (mid.state(), Ok::<ValueView, Seq<char>>(ov)));
                    }
                }
                r
            },
        }
    }

    fn visit_super_expr(&mut self, keyword: &Binding, method: &Token, env: usize, fuel: u64) -> (r: Result<Value, RuntimeError>)
        requires
            old(self).wf(),
            env < old(self).frames().len(),
        ensures
            final(self).wf(),
            Self::grows(*old(self), *final(self)),
            r matches Ok(v) ==> final(self).value_ok(v@),
            forall|feed: Feed| extends(feed, final(self).clock_log()) ==> #[trigger] interp_spec::eval_super(
                old(self).state(), method@, keyword@.depth, env as nat, fuel as nat, feed) == (final(self).state(), result_view(r)),
        decreases fuel,
    {
        proof {
            reveal_strlit("Undefined property '");
            reveal_strlit("'.");
        }
        if fuel == 0 {
            return Err(Self::out_of_steps());
        }
        let super_name = text_of("super");
        let this_name = text_of("this");
        let d = match keyword.depth {
            Some(d) => d,
            None => {
                return Err(Self::quoted_error(method, "Undefined property '", "'."));
            },
        };
        proof {
            crate::environment::lemma_lookup_at_ok(self.env@, self.ok_fn(), env as int, d as nat, super_name@);
        }
        let superclass = match self.env.get_at(env, d, &super_name) {
            Some(Value::Class(c)) => c,
            _ => {
                return Err(Self::quoted_error(method, "Undefined property '", "'."));
            },
        };
        if d == 0 {
            return Err(Self::quoted_error(method, "Undefined property '", "'."));
        }
        proof {
            crate::environment::lemma_lookup_at_ok(self.env@, self.ok_fn(), env as int, (d - 1) as nat, this_name@);
        }
        let object = match self.env.get_at(env, d - 1, &this_name) {
            Some(Value::Object(o)) => o,
            _ => {
                return Err(Self::quoted_error(method, "Undefined property '", "'."));
            },
        };
        proof {
            assert(self.class_ok(self.classes@[superclass as int]));
            lemma_find_method(self.classes@[superclass as int], method.lexeme@);
        }
        match self.classes[superclass].find_method(&method.lexeme) {
            Some(f) => {
                proof {
                    let cl = self.classes@[superclass as int];
                    let k = method_from(cl.methods@, method.lexeme@, 0);
                    assert(cl.methods@[k].1 == f);
                }
                let b = self.bind(f, object);
                Ok(Value::Fn(b))
            },
            None => Err(Self::quoted_error(method, "Undefined property '", "'.")),
        }
    }

    fn visit_call_expr(&mut self, callee: &Expr, paren: &Token, arguments: &Vec<Expr>, env: usize, fuel: u64) -> (r: Result<Value, RuntimeError>)
        requires
            old(self).wf(),
            env < old(self).frames().len(),
        ensures
            final(self).wf(),
            Self::grows(*old(self), *final(self)),
            r matches Ok(v) ==> final(self).value_ok(v@),
            forall|feed: Feed| extends(feed, final(self).clock_log()) ==> #[trigger] interp_spec::eval_call(
                old(self).state(), callee@, paren@, exprs_view(arguments@), env as nat, fuel as nat, feed) == (final(self).state(), result_view(r)),
        decreases fuel,
    {
        if fuel == 0 {
            return Err(Self::out_of_steps());
        }
        let f = fuel - 1;
        proof {
            assert(f as nat == (fuel as nat - 1) as nat);
        }
        let ghost s0 = self.state();
        let c = match self.evaluate(callee, env, f) {
            Ok(v) => v,
            Err(e) => {
                let r = Err(e);
                proof {
                    assert forall|feed: Feed| extends(feed, self.clock_log()) implies #[trigger] interp_spec::eval_call(s0, callee@, paren@, exprs_view(arguments@), env as nat, fuel as nat, feed) == (self.state(), result_view(r)) by {
                        assert(interp_spec::eval(s0, callee@, env as nat, f as nat, feed) == (self.state(), result_view(r)));
                    }
                }
                return r;
            },
        };
        let ghost s1 = self.state();
        let ghost log1 = self.clock_log();
        let ghost avs = exprs_view(arguments@);
        proof {
            lemma_exprs_view_len(arguments@);
        }
        let mut args: Vec<Value> = Vec::new();
        proof {
            assert(values_view(args@) =~= Seq::<ValueView>::empty());
        }
        let mut i: usize = 0;
        while i < arguments.len()
            invariant
                self.wf(),
                Self::grows(*old(self), *self),
                env < self.frames().len(),
                self.value_ok(c@),
                forall|k: int| 0 <= k < args@.len() ==> self.value_ok(#[trigger] args@[k]@),
                i <= arguments@.len(),
                args@.len() == i,
                f == fuel - 1,
                s0 == old(self).state(),
                avs == exprs_view(arguments@),
                avs.len() == arguments@.len(),
                forall|k: int| 0 <= k < arguments@.len() ==> #[trigger] avs[k] == arguments@[k]@,
                extends(self.clock_log(), log1),
                forall|feed: Feed| extends(feed, log1) ==> #[trigger] interp_spec::eval(s0, callee@, env as nat, f as nat, feed)
                    == (s1, Ok::<ValueView, Seq<char>>(c@)),
                forall|feed: Feed| extends(feed, self.clock_log()) ==> #[trigger] interp_spec::eval_args(
                    s1, avs, 0, env as nat, f as nat, Seq::empty(), feed) == interp_spec::eval_args(
                    self.state(), avs, i as int, env as nat, f as nat, values_view(args@), feed),
            decreases arguments.len() - i,
        {
            let ghost before = *self;
            let ghost acc = args@;
            let a = match self.evaluate(&arguments[i], env, f) {
                Ok(v) => v,
                Err(e) => {
                    let r = Err(e);
                    proof {
                        assert forall|feed: Feed| extends(feed, self.clock_log()) implies #[trigger] interp_spec::eval_call(
                            s0, callee@, paren@, avs, env as nat, fuel as nat, feed) == (self.state(), result_view(r)) by {
                            interp_spec::lemma_extends_trans(feed, self.clock_log(), before.clock_log());
                            interp_spec::lemma_extends_trans(feed, before.clock_log(), log1);
                            assert(interp_spec::eval(s0, callee@, env as nat, f as nat, feed) == (s1, Ok::<ValueView, Seq<char>>(c@)));
                            assert(interp_spec::eval_args(s1, avs, 0, env as nat, f as nat, Seq::empty(), feed) == interp_spec::eval_args(
                                before.state(), avs, i as int, env as nat, f as nat, values_view(acc), feed));
                            assert(interp_spec::eval(before.state(), avs[i as int], env as nat, f as nat, feed) == (self.state(), result_view(r)));
                        }
                    }
                    return r;
                },
            };
            let ghost av = a@;
            let ghost iold = i;
            proof {
                Self::lemma_value_ok_grows(before, *self, c@);
                assert forall|k: int| 0 <= k < args@.len() implies self.value_ok(#[trigger] args@[k]@) by {
                    Self::lemma_value_ok_grows(before, *self, args@[k]@);
                }
            }
            args.push(a);
            i += 1;
            proof {
                assert(values_view(args@) =~= values_view(acc).push(av));
                assert forall|feed: Feed| extends(feed, self.clock_log()) implies #[trigger] interp_spec::eval_args(
                    s1, avs, 0, env as nat, f as nat, Seq::empty(), feed) == interp_spec::eval_args(
                    self.state(), avs, i as int, env as nat, f as nat, values_view(args@), feed) by {
                    interp_spec::lemma_extends_trans(feed, self.clock_log(), before.clock_log());
                    assert(interp_spec::eval_args(s1, avs, 0, env as nat, f as nat, Seq::empty(), feed) == interp_spec::eval_args(
                        before.state(), avs, iold as int, env as nat, f as nat, values_view(acc), feed));
                    assert(interp_spec::eval(before.state(), avs[iold as int], env as nat, f as nat, feed) == (self.state(), Ok::<ValueView, Seq<char>>(av)));
                }
                interp_spec::lemma_extends_trans(self.clock_log(), before.clock_log(), log1);
            }
        }
        let ghost s2 = self.state();
        let ghost log2 = self.clock_log();
        let ghost vs = values_view(args@);
        let ghost cv = c@;
        let r = self.call_value(c, paren, args, f);
        proof {
            assert forall|feed: Feed| extends(feed, self.clock_log()) implies #[trigger] interp_spec::eval_call(
                s0, callee@, paren@, avs, env as nat, fuel as nat, feed) == (self.state(), result_view(r)) by {
                interp_spec::lemma_extends_trans(feed, self.clock_log(), log2);
                interp_spec::lemma_extends_trans(feed, log2, log1);
                assert(interp_spec::eval(s0, callee@, env as nat, f as nat, feed) == (s1, Ok::<ValueView, Seq<char>>(cv)));
                assert(interp_spec::eval_args(s2, avs, i as int, env as nat, f as nat, vs, feed) == (s2, Ok::<Seq<ValueView>, Seq<char>>(vs)));
                assert(interp_spec::eval_args(s1, avs, 0, env as nat, f as nat, Seq::empty(), feed) == (s2, Ok::<Seq<ValueView>, Seq<char>>(vs)));
                assert(interp_spec::call_value(s2, cv, paren@, vs, f as nat, feed) == (self.state(), result_view(r)));
            }
        }
        r
    }

    // -----------------------------------------------------------------------
    // Calls.

    /// Calls `callee` with `args`: a function, a class (which makes an
    /// instance) or a native function. Anything else, or the wrong number of
    /// arguments, is an error.
    pub fn call_value(&mut self, callee: Value, paren: &Token, args: Vec<Value>, fuel: u64) -> (r: Result<Value, RuntimeError>)
        requires
            old(self).wf(),
            old(self).value_ok(callee@),
            forall|k: int| 0 <= k < args@.len() ==> old(self).value_ok(#[trigger] args@[k]@),
        ensures
            final(self).wf(),
            Self::grows(*old(self), *final(self)),
            r matches Ok(v) ==> final(self).value_ok(v@),
            forall|feed: Feed| extends(feed, final(self).clock_log()) ==> #[trigger] interp_spec::call_value(
                old(self).state(), callee@, paren@, values_view(args@), fuel as nat, feed) == (final(self).state(), result_view(r)),
        decreases fuel,
    {
        proof {
            reveal_strlit("Expected ");
            reveal_strlit(" arguments but got ");
            reveal_strlit(".");
        }
        if !callee.is_callable() {
            return Err(RuntimeError::new(paren, "Can only call functions and classes."));
        }
        let arity = self.arity(&callee);
        if args.len() != arity {
            let mut msg = text_of("Expected ");
            let a = usize_to_text(arity);
            msg.append(a.as_str());
            msg.append(" arguments but got ");
            let n = usize_to_text(args.len());
            msg.append(n.as_str());
            msg.append(".");
            return Err(RuntimeError::new(paren, msg.as_str()));
        }
        if fuel == 0 {
            return Err(Self::out_of_steps());
        }
        let f = fuel - 1;
        proof {
            assert(f as nat == (fuel as nat - 1) as nat);
        }
        let ghost s0 = self.state();
        let ghost cv = callee@;
        let ghost av = values_view(args@);
        match callee {
            Value::NativeFn(NativeFunction::Clock(_)) => {
                let r = self.read_clock();
                proof {
                    assert forall|feed: Feed| extends(feed, self.clock_log()) implies #[trigger] interp_spec::call_value(
                        s0, cv, paren@, av, fuel as nat, feed) == (self.state(), result_view(r)) by {
                        assert(self.clock_log()[s0.reads as int] == result_view(r));
                        assert(feed[s0.reads as int] == result_view(r));
                    }
                }
                r
            },
            Value::Fn(i) => {
                let r = self.call_function(i, &args, f);
                proof {
                    assert forall|feed: Feed| extends(feed, self.clock_log()) implies #[trigger] interp_spec::call_value(
                        s0, cv, paren@, av, fuel as nat, feed) == (self.state(), result_view(r)) by {
                        assert(interp_spec::call_function(s0, i as nat, av, f as nat, feed) == (self.state(), result_view(r)));
                    }
                }
                r
            },
            Value::Class(c) => {
                let inst = self.push_instance(c);
                let ghost s1 = self.state();
                let init = text_of("init");
                proof {
                    assert(self.class_ok(self.classes@[c as int]));
                    lemma_find_method(self.classes@[c as int], init@);
                }
                match self.classes[c].find_method(&init) {
                    Some(m) => {
                        proof {
                            let cl = self.classes@[c as int];
                            let k = method_from(cl.methods@, init@, 0);
                            assert(cl.methods@[k].1 == m);
                        }
                        let b = self.bind(m, inst);
                        proof {
                            assert forall|k: int| 0 <= k < args@.len() implies self.value_ok(#[trigger] args@[k]@) by {
                                Self::lemma_value_ok_grows(*old(self), *self, args@[k]@);
                            }
                        }
                        let ghost mid = *self;
                        let rc = self.call_function(b, &args, f);
                        let r = match rc {
                            Ok(_) => Ok(Value::Object(inst)),
                            Err(e) => Err(e),
                        };
                        proof {
                            Self::lemma_value_ok_grows(mid, *self, ValueView::Object(inst as nat));
                            assert forall|feed: Feed| extends(feed, self.clock_log()) implies #[trigger] interp_spec::call_value(
                                s0, cv, paren@, av, fuel as nat, feed) == (self.state(), result_view(r)) by {
                                assert(interp_spec::push_instance(s0, c as nat) == (s1, inst as nat));
                                assert(interp_spec::find_method(s1.classes[c as int], "init"@) == Some(m as nat));
                                assert(interp_spec::bind(s1, m as nat, inst as nat) == (mid.state(), b as nat));
                                assert(interp_spec::call_function(mid.state(), b as nat, av, f as nat, feed) == (self.state(), result_view(rc)));
                            }
                        }
                        r
                    },
                    None => {
                        proof {
                            assert forall|feed: Feed| extends(feed, self.clock_log()) implies #[trigger] interp_spec::call_value(
                                s0, cv, paren@, av, fuel as nat, feed) == (self.state(), result_view(Ok(Value::Object(inst)))) by {
                                assert(interp_spec::push_instance(s0, c as nat) == (s1, inst as nat));
                                assert(interp_spec::find_method(s1.classes[c as int], "init"@) == None::<nat>);
                            }
                        }
                        Ok(Value::Object(inst))
                    },
                }
            },
            _ => Err(RuntimeError::new(paren, "Can only call functions and classes.")),
        }
    }

    /// Calls function `fi`: its parameters bound to `args` in a new frame
    /// nested in its closure, then its body. An initializer gives `this`;
    /// another function the value of its `return`, else `nil`.
    #[verifier::spinoff_prover]
    fn call_function(&mut self, fi: usize, args: &Vec<Value>, fuel: u64) -> (r: Result<Value, RuntimeError>)
        requires
            old(self).wf(),
            fi < old(self).function_count(),
            forall|k: int| 0 <= k < args@.len() ==> old(self).value_ok(#[trigger] args@[k]@),
        ensures
            final(self).wf(),
            Self::grows(*old(self), *final(self)),
            r matches Ok(v) ==> final(self).value_ok(v@),
            forall|feed: Feed| extends(feed, final(self).clock_log()) ==> #[trigger] interp_spec::call_function(
                old(self).state(), fi as nat, values_view(args@), fuel as nat, feed) == (final(self).state(), result_view(r)),
        decreases fuel,
    {
        if fuel == 0 {
            return Err(Self::out_of_steps());
        }
        let f = fuel - 1;
        proof {
            assert(f as nat == (fuel as nat - 1) as nat);
        }
        let ghost s0 = self.state();
        let ghost fv = s0.functions[fi as int];
        let ghost av = values_view(args@);
        let fun = copy_fun(&self.functions[fi].fun);
        let closure = self.functions[fi].closure;
        let is_initializer = self.functions[fi].is_initializer;
        let e = self.new_frame(closure);
        let ghost s1 = self.state();
        let n = if fun.params.len() < args.len() { fun.params.len() } else { args.len() };
        proof {
            assert(fv.fun == fun_view(&fun));
            assert(fun_view(&fun).params.len() == fun.params@.len());
        }
        let mut i: usize = 0;
        while i < n
            invariant
                self.wf(),
                Self::grows(*old(self), *self),
                e < self.frames().len(),
                closure < self.frames().len(),
                n <= fun.params@.len(),
                n <= args@.len(),
                i <= n,
                forall|k: int| 0 <= k < args@.len() ==> old(self).value_ok(#[trigger] args@[k]@),
                fv.fun == fun_view(&fun),
                av == values_view(args@),
                self.clock_log() == old(self).clock_log(),
                interp_spec::bind_params(s1, e as nat, fv.fun.params, av, 0, n as int)
                    == interp_spec::bind_params(self.state(), e as nat, fv.fun.params, av, i as int, n as int),
            decreases n - i,
        {
            proof {
                Self::lemma_value_ok_grows(*old(self), *self, args@[i as int]@);
                assert(fv.fun.params[i as int].lexeme == fun.params@[i as int].lexeme@);
                assert(av[i as int] == args@[i as int]@);
            }
            self.define_var(e, &fun.params[i].lexeme, args[i].clone());
            i += 1;
        }
        let ghost s2 = self.state();
        proof {
            assert(s2 == interp_spec::bind_params(s1, e as nat, fv.fun.params, av, 0, n as int));
            assert(fv.fun.body == stmts_view(fun.body@));
            assert(interp_spec::new_frame(s0, fv.closure) == (s1, e as nat));
        }
        let rb = self.execute_block(&fun.body, e, f);
        let ghost s3 = self.state();
        let ghost log3 = self.clock_log();
        let r = match rb {
            Ok(()) => {
                if is_initializer {
                    let this_name = text_of("this");
                    proof {
                        crate::environment::lemma_lookup_at_ok(self.env@, self.ok_fn(), closure as int, 0, this_name@);
                    }
                    match self.env.get_at(closure, 0, &this_name) {
                        Some(v) => Ok(v),
                        None => Err(RuntimeError(text_of("An initializer lost its 'this'."))),
                    }
                } else {
                    match self.take_return(e) {
                        Some(v) => Ok(v),
                        None => Ok(Value::Nil),
                    }
                }
            },
            Err(x) => Err(x),
        };
        proof {
            assert forall|feed: Feed| extends(feed, self.clock_log()) implies #[trigger] interp_spec::call_function(
                s0, fi as nat, av, fuel as nat, feed) == (self.state(), result_view(r)) by {
                assert(log3 == self.clock_log());
                assert(interp_spec::exec_block(s2, fv.fun.body, e as nat, f as nat, feed) == (s3, unit_view(rb)));
            }
        }
        r
    }

    // -----------------------------------------------------------------------
    // Executing statements.

    /// Executes `stmt` in frame `env`.
    pub fn execute(&mut self, stmt: &Stmt, env: usize, fuel: u64) -> (r: Result<(), RuntimeError>)
        requires
            old(self).wf(),
            env < old(self).frames().len(),
        ensures
            final(self).wf(),
            Self::grows(*old(self), *final(self)),
            forall|feed: Feed| extends(feed, final(self).clock_log()) ==> #[trigger] interp_spec::exec(
                old(self).state(), stmt@, env as nat, fuel as nat, feed) == (final(self).state(), unit_view(r)),
        decreases fuel,
    {
        if fuel == 0 {
            return Err(Self::out_of_steps());
        }
        let f = fuel - 1;
        proof {
            assert(f as nat == (fuel as nat - 1) as nat);
        }
        let ghost s0 = self.state();
        match stmt {
            Stmt::Block(stmts) => {
                let e = self.new_frame(env);
                let ghost s1 = self.state();
                let r = self.execute_block(stmts, e, f);
                let ghost mid = *self;
                self.release(e);
                proof {
                    assert forall|feed: Feed| extends(feed, self.clock_log()) implies #[trigger] interp_spec::exec(
                        s0, stmt@, env as nat, fuel as nat, feed) == (self.state(), unit_view(r)) by {
                        assert(interp_spec::exec_block(s1, stmts_view(stmts@), e as nat, f as nat, feed) == (mid.state(), unit_view(r)));
                    }
                }
                r
            },
            Stmt::Class(d) => {
                let r = self.visit_class_stmt(d, env, f);
                proof {
                    assert forall|feed: Feed| extends(feed, self.clock_log()) implies #[trigger] interp_spec::exec(
                        s0, stmt@, env as nat, fuel as nat, feed) == (self.state(), unit_view(r)) by {
                        assert(interp_spec::exec_class(s0, class_decl_view(d), env as nat, f as nat) == (self.state(), unit_view(r)));
                    }
                }
                r
            },
            Stmt::Expression(x) => {
                let rv = self.evaluate(x, env, f);
                let r = match rv {
                    Ok(_) => Ok(()),
                    Err(e) => Err(e),
                };
                proof {
                    assert forall|feed: Feed| extends(feed, self.clock_log()) implies #[trigger] interp_spec::exec(
                        s0, stmt@, env as nat, fuel as nat, feed) == (self.state(), unit_view(r)) by {
                        assert(interp_spec::eval(s0, x@, env as nat, f as nat, feed) == (self.state(), result_view(rv)));
                    }
                }
                r
            },
            Stmt::Function(d) => {
                let nf = crate::object::Function::new(d, env, false);
                proof {
                    assert(function_view(nf) == FunctionView {
                        name: Some(d.name@),
                        fun: fun_view(&d.expr),
                        closure: env as nat,
                        is_initializer: false,
                    });
                }
                let ghost fv = function_view(nf);
                let i = self.push_function(nf);
                let ghost mid = *self;
                self.define_var(env, &d.name.lexeme, Value::Fn(i));
                proof {
                    assert forall|feed: Feed| extends(feed, self.clock_log()) implies #[trigger] interp_spec::exec(
                        s0, stmt@, env as nat, fuel as nat, feed) == (self.state(), unit_view(Ok(()))) by {
                        assert(stmt@ == crate::stmt::StmtView::Function(crate::stmt::fun_decl_view(d)));
                        assert(crate::stmt::fun_decl_view(d) == crate::stmt::FunDeclView { name: d.name@, fun: fun_view(&d.expr) });
                        assert(interp_spec::push_function(s0, fv) == (mid.state(), i as nat));
                        assert(self.state() == interp_spec::define(mid.state(), env as nat, d.name@.lexeme, ValueView::Fn(i as nat)));
                    }
                }
                Ok(())
            },
            Stmt::If { condition, then_branch, else_branch } => {
                let c = match self.evaluate(condition, env, f) {
                    Ok(v) => v,
                    Err(e) => {
                        let r = Err(e);
                        proof {
                            assert forall|feed: Feed| extends(feed, self.clock_log()) implies #[trigger] interp_spec::exec(
                                s0, stmt@, env as nat, fuel as nat, feed) == (self.state(), unit_view(r)) by {
                                assert(interp_spec::eval(s0, condition@, env as nat, f as nat, feed) == (self.state(), Err::<ValueView, Seq<char>>(r->Err_0.0@)));
                            }
                        }
                        return r;
                    },
                };
                let ghost mid = *self;
                let ghost cv = c@;
                let truth = c.is_truthy();
                let r = if truth {
                    self.execute(then_branch, env, f)
                } else {
                    match else_branch {
                        Some(b) => self.execute(b, env, f),
                        None => Ok(()),
                    }
                };
                proof {
                    assert forall|feed: Feed| extends(feed, self.clock_log()) implies #[trigger] interp_spec::exec(
                        s0, stmt@, env as nat, fuel as nat, feed) == (self.state(), unit_view(r)) by {
                        interp_spec::lemma_extends_trans(feed, self.clock_log(), mid.clock_log());
                        assert(interp_spec::eval(s0, condition@, env as nat, f as nat, feed) == (mid.state(), Ok::<ValueView, Seq<char>>(cv)));
                        if truth {
                            assert(interp_spec::exec(mid.state(), then_branch@, env as nat, f as nat, feed) == (self.state(), unit_view(r)));
                        } else {
                            match else_branch {
                                Some(b) => {
                                    assert(interp_spec::exec(mid.state(), b@, env as nat, f as nat, feed) == (self.state(), unit_view(r)));
                                },
                                None => {},
                            }
                        }
                    }
                }
                r
            },
            Stmt::Print(x) => {
                let v = match self.evaluate(x, env, f) {
                    Ok(v) => v,
                    Err(e) => {
                        let r = Err(e);
                        proof {
                            assert forall|feed: Feed| extends(feed, self.clock_log()) implies #[trigger] interp_spec::exec(
                                s0, stmt@, env as nat, fuel as nat, feed) == (self.state(), unit_view(r)) by {
                                assert(interp_spec::eval(s0, x@, env as nat, f as nat, feed) == (self.state(), Err::<ValueView, Seq<char>>(r->Err_0.0@)));
                            }
                        }
                        return r;
                    },
                };
                let ghost mid = *self;
                let ghost vv = v@;
                let text = self.stringify(&v);
                self.print_line(&text);
                proof {
                    Self::lemma_wf_same_stores(mid, *self);
                    assert forall|feed: Feed| extends(feed, self.clock_log()) implies #[trigger] interp_spec::exec(
                        s0, stmt@, env as nat, fuel as nat, feed) == (self.state(), unit_view(Ok(()))) by {
                        assert(interp_spec::eval(s0, x@, env as nat, f as nat, feed) == (mid.state(), Ok::<ValueView, Seq<char>>(vv)));
                    }
                }
                Ok(())
            },
            Stmt::Return { keyword: _, value } => {
                let v = match value {
                    Some(x) => match self.evaluate(x, env, f) {
                        Ok(v) => v,
                        Err(e) => {
                            let r = Err(e);
                            proof {
                                assert forall|feed: Feed| extends(feed, self.clock_log()) implies #[trigger] interp_spec::exec(
                                    s0, stmt@, env as nat, fuel as nat, feed) == (self.state(), unit_view(r)) by {
                                    assert(interp_spec::eval(s0, x@, env as nat, f as nat, feed) == (self.state(), Err::<ValueView, Seq<char>>(r->Err_0.0@)));
                                }
                            }
                            return r;
                        },
                    },
                    None => Value::Nil,
                };
                let ghost mid = *self;
                let ghost vv = v@;
                self.set_return(env, v);
                proof {
                    assert forall|feed: Feed| extends(feed, self.clock_log()) implies #[trigger] interp_spec::exec(
                        s0, stmt@, env as nat, fuel as nat, feed) == (self.state(), unit_view(Ok(()))) by {
                        match value {
                            Some(x) => {
                                assert(interp_spec::eval(s0, x@, env as nat, f as nat, feed) == (mid.state(), Ok::<ValueView, Seq<char>>(vv)));
                            },
                            None => {},
                        }
                    }
                }
                Ok(())
            },
            Stmt::Var { name, initializer } => {
                let v = match initializer {
                    Some(x) => match self.evaluate(x, env, f) {
                        Ok(v) => v,
                        Err(e) => {
                            let r = Err(e);
                            proof {
                                assert forall|feed: Feed| extends(feed, self.clock_log()) implies #[trigger] interp_spec::exec(
                                    s0, stmt@, env as nat, fuel as nat, feed) == (self.state(), unit_view(r)) by {
                                    assert(interp_spec::eval(s0, x@, env as nat, f as nat, feed) == (self.state(), Err::<ValueView, Seq<char>>(r->Err_0.0@)));
                                }
                            }
                            return r;
                        },
                    },
                    None => Value::Nil,
                };
                let ghost mid = *self;
                let ghost vv = v@;
                self.define_var(env, &name.lexeme, v);
                proof {
                    assert forall|feed: Feed| extends(feed, self.clock_log()) implies #[trigger] interp_spec::exec(
                        s0, stmt@, env as nat, fuel as nat, feed) == (self.state(), unit_view(Ok(()))) by {
                        match initializer {
                            Some(x) => {
                                assert(interp_spec::eval(s0, x@, env as nat, f as nat, feed) == (mid.state(), Ok::<ValueView, Seq<char>>(vv)));
                            },
                            None => {},
                        }
                    }
                }
                Ok(())
            },
            Stmt::While { condition, body } => {
                let r = self.visit_while_stmt(condition, body, env, f);
                proof {
                    assert forall|feed: Feed| extends(feed, self.clock_log()) implies #[trigger] interp_spec::exec(
                        s0, stmt@, env as nat, fuel as nat, feed) == (self.state(), unit_view(r)) by {
                        assert(interp_spec::exec_while(s0, condition@, body@, env as nat, f as nat, feed) == (self.state(), unit_view(r)));
                    }
                }
                r
            },
        }
    }

    /// Executes `statements` in turn in frame `env`, up to the first error
    /// or until a `return` leaves a value in the frame.
    pub fn execute_block(&mut self, statements: &Vec<Stmt>, env: usize, fuel: u64) -> (r: Result<(), RuntimeError>)
        requires
            old(self).wf(),
            env < old(self).frames().len(),
        ensures
            final(self).wf(),
            Self::grows(*old(self), *final(self)),
            forall|feed: Feed| extends(feed, final(self).clock_log()) ==> #[trigger] interp_spec::exec_block(
                old(self).state(), stmts_view(statements@), env as nat, fuel as nat, feed) == (final(self).state(), unit_view(r)),
        decreases fuel,
    {
        if fuel == 0 {
            return Err(Self::out_of_steps());
        }
        let f = fuel - 1;
        proof {
            assert(f as nat == (fuel as nat - 1) as nat);
        }
        let ghost s0 = self.state();
        let ghost ss = stmts_view(statements@);
        proof {
            lemma_stmts_view_len(statements@);
        }
        let mut i: usize = 0;
        while i < statements.len()
            invariant
                self.wf(),
                Self::grows(*old(self), *self),
                env < self.frames().len(),
                i <= statements@.len(),
                f == fuel - 1,
                s0 == old(self).state(),
                ss == stmts_view(statements@),
                ss.len() == statements@.len(),
                forall|k: int| 0 <= k < statements@.len() ==> #[trigger] ss[k] == statements@[k]@,
                forall|feed: Feed| extends(feed, self.clock_log()) ==> #[trigger] interp_spec::exec_block(
                    s0, ss, env as nat, fuel as nat, feed) == interp_spec::exec_block_from(self.state(), ss, i as int, env as nat, f as nat, feed),
            decreases statements.len() - i,
        {
            let ghost before = *self;
            let r = self.execute(&statements[i], env, f);
            proof {
                assert forall|feed: Feed| extends(feed, self.clock_log()) implies #[trigger] interp_spec::exec_block(
                    s0, ss, env as nat, fuel as nat, feed) == interp_spec::exec_block_from(before.state(), ss, i as int, env as nat, f as nat, feed)
                    && interp_spec::exec(before.state(), ss[i as int], env as nat, f as nat, feed) == (self.state(), unit_view(r)) by {
                    interp_spec::lemma_extends_trans(feed, self.clock_log(), before.clock_log());
                }
            }
            let returning = match r {
                Ok(()) => self.env.is_returning_from_fn(env),
                Err(_) => true,
            };
            if returning {
                proof {
                    assert forall|feed: Feed| extends(feed, self.clock_log()) implies #[trigger] interp_spec::exec_block(
                        s0, ss, env as nat, fuel as nat, feed) == (self.state(), unit_view(r)) by {
                        assert(interp_spec::exec_block(s0, ss, env as nat, fuel as nat, feed)
                            == interp_spec::exec_block_from(before.state(), ss, i as int, env as nat, f as nat, feed));
                        assert(interp_spec::exec(before.state(), ss[i as int], env as nat, f as nat, feed) == (self.state(), unit_view(r)));
                    }
                }
                return r;
            }
            proof {
                assert forall|feed: Feed| extends(feed, self.clock_log()) implies #[trigger] interp_spec::exec_block(
                    s0, ss, env as nat, fuel as nat, feed) == interp_spec::exec_block_from(self.state(), ss, i + 1, env as nat, f as nat, feed) by {
                    assert(interp_spec::exec_block(s0, ss, env as nat, fuel as nat, feed)
                        == interp_spec::exec_block_from(before.state(), ss, i as int, env as nat, f as nat, feed));
                    assert(interp_spec::exec(before.state(), ss[i as int], env as nat, f as nat, feed) == (self.state(), unit_view(r)));
                }
            }
            i += 1;
        }
        proof {
            assert forall|feed: Feed| extends(feed, self.clock_log()) implies #[trigger] interp_spec::exec_block(
                s0, ss, env as nat, fuel as nat, feed) == (self.state(), unit_view(Ok(()))) by {
                assert(interp_spec::exec_block_from(self.state(), ss, i as int, env as nat, f as nat, feed) == (self.state(), unit_view(Ok(()))));
            }
        }
        Ok(())
    }

    fn visit_while_stmt(&mut self, condition: &Expr, body: &Stmt, env: usize, fuel: u64) -> (r: Result<(), RuntimeError>)
        requires
            old(self).wf(),
            env < old(self).frames().len(),
        ensures
            final(self).wf(),
            Self::grows(*old(self), *final(self)),
            forall|feed: Feed| extends(feed, final(self).clock_log()) ==> #[trigger] interp_spec::exec_while(
                old(self).state(), condition@, body@, env as nat, fuel as nat, feed) == (final(self).state(), unit_view(r)),
        decreases fuel,
    {
        let ghost s0 = self.state();
        let mut fuel_left = fuel;
        loop
            invariant
                self.wf(),
                Self::grows(*old(self), *self),
                env < self.frames().len(),
                s0 == old(self).state(),
                fuel_left <= fuel,
                forall|feed: Feed| extends(feed, self.clock_log()) ==> #[trigger] interp_spec::exec_while(
                    s0, condition@, body@, env as nat, fuel as nat, feed) == interp_spec::exec_while(
                    self.state(), condition@, body@, env as nat, fuel_left as nat, feed),
            decreases fuel_left,
        {
            if fuel_left == 0 {
                return Err(Self::out_of_steps());
            }
            let f = fuel_left - 1;
            proof {
                assert(f as nat == (fuel_left as nat - 1) as nat);
            }
            let ghost st = *self;
            let c = match self.evaluate(condition, env, f) {
                Ok(v) => v,
                Err(e) => {
                    let r = Err(e);
                    proof {
                        assert forall|feed: Feed| extends(feed, self.clock_log()) implies #[trigger] interp_spec::exec_while(
                            s0, condition@, body@, env as nat, fuel as nat, feed) == (self.state(), unit_view(r)) by {
                            interp_spec::lemma_extends_trans(feed, self.clock_log(), st.clock_log());
                            assert(interp_spec::eval(st.state(), condition@, env as nat, f as nat, feed) == (self.state(), Err::<ValueView, Seq<char>>(r->Err_0.0@)));
                            assert(interp_spec::exec_while(st.state(), condition@, body@, env as nat, fuel_left as nat, feed) == (self.state(), unit_view(r)));
                        }
                    }
                    return r;
                },
            };
            let ghost mid = *self;
            let ghost cv = c@;
            if !c.is_truthy() {
                proof {
                    assert forall|feed: Feed| extends(feed, self.clock_log()) implies #[trigger] interp_spec::exec_while(
                        s0, condition@, body@, env as nat, fuel as nat, feed) == (self.state(), unit_view(Ok(()))) by {
                        interp_spec::lemma_extends_trans(feed, self.clock_log(), st.clock_log());
                        assert(interp_spec::eval(st.state(), condition@, env as nat, f as nat, feed) == (self.state(), Ok::<ValueView, Seq<char>>(cv)));
                        assert(interp_spec::exec_while(st.state(), condition@, body@, env as nat, fuel_left as nat, feed) == (self.state(), unit_view(Ok(()))));
                    }
                }
                return Ok(());
            }
            let rb = self.execute(body, env, f);
            proof {
                assert forall|feed: Feed| extends(feed, self.clock_log()) implies #[trigger] interp_spec::exec_while(
                    s0, condition@, body@, env as nat, fuel as nat, feed) == interp_spec::exec_while(
                    st.state(), condition@, body@, env as nat, fuel_left as nat, feed)
                    && interp_spec::eval(st.state(), condition@, env as nat, f as nat, feed) == (mid.state(), Ok::<ValueView, Seq<char>>(cv))
                    && interp_spec::exec(mid.state(), body@, env as nat, f as nat, feed) == (self.state(), unit_view(rb)) by {
                    interp_spec::lemma_extends_trans(feed, self.clock_log(), mid.clock_log());
                    interp_spec::lemma_extends_trans(feed, mid.clock_log(), st.clock_log());
                }
            }
            match rb {
                Ok(()) => {},
                Err(e) => {
                    return Err(e);
                },
            }
            if self.env.is_returning_from_fn(env) {
                return Ok(());
            }
            proof {
                assert forall|feed: Feed| extends(feed, self.clock_log()) implies #[trigger] interp_spec::exec_while(
                    s0, condition@, body@, env as nat, fuel as nat, feed) == interp_spec::exec_while(
                    self.state(), condition@, body@, env as nat, f as nat, feed) by {
                    assert(interp_spec::exec_while(s0, condition@, body@, env as nat, fuel as nat, feed) == interp_spec::exec_while(
                        st.state(), condition@, body@, env as nat, fuel_left as nat, feed));
                    assert(interp_spec::exec_while(st.state(), condition@, body@, env as nat, fuel_left as nat, feed)
                        == interp_spec::exec_while(self.state(), condition@, body@, env as nat, f as nat, feed));
                }
            }
            fuel_left = f;
        }
    }

    /// Binds `name` to function `f` among `methods`: in place if the name is
    /// there, else last.
    fn insert_method(methods: &mut Vec<(String, usize)>, name: &String, f: usize)
        ensures
            methods_view(final(methods)@) == interp_spec::insert_method(methods_view(old(methods)@), name@, f as nat),
            forall|m: int| 0 <= m < final(methods)@.len() ==> (#[trigger] final(methods)@[m]).1 == f
                || exists|k: int| 0 <= k < old(methods)@.len() && old(methods)@[k].1 == final(methods)@[m].1,
    {
        proof {
            lemma_method_index(methods@, name@, 0);
        }
        let mut i: usize = 0;
        while i < methods.len()
            invariant
                i <= methods@.len(),
                methods@ == old(methods)@,
                method_from(methods@, name@, 0) == method_from(methods@, name@, i as int),
                interp_spec::method_index_from(methods_view(old(methods)@), name@, 0) == method_from(old(methods)@, name@, 0),
            decreases methods.len() - i,
        {
            if methods[i].0 == *name {
                methods.set(i, (name.clone(), f));
                proof {
                    assert(method_from(old(methods)@, name@, i as int) == i);
                    assert(interp_spec::method_index_from(methods_view(old(methods)@), name@, 0) == i);
                    assert(methods_view(methods@) =~= methods_view(old(methods)@).update(i as int, (name@, f as nat)));
                    assert forall|m: int| 0 <= m < methods@.len() implies (#[trigger] methods@[m]).1 == f
                        || exists|k: int| 0 <= k < old(methods)@.len() && old(methods)@[k].1 == methods@[m].1 by {
                        if m != i {
                            assert(old(methods)@[m].1 == methods@[m].1);
                        }
                    }
                }
                return;
            }
            i += 1;
        }
        methods.push((name.clone(), f));
        proof {
            assert(method_from(old(methods)@, name@, i as int) == i);
            assert(interp_spec::method_index_from(methods_view(old(methods)@), name@, 0) == old(methods)@.len());
            assert(methods_view(methods@) =~= methods_view(old(methods)@).push((name@, f as nat)));
            assert forall|m: int| 0 <= m < methods@.len() implies (#[trigger] methods@[m]).1 == f
                || exists|k: int| 0 <= k < old(methods)@.len() && old(methods)@[k].1 == methods@[m].1 by {
                if m < old(methods)@.len() {
                    assert(old(methods)@[m].1 == methods@[m].1);
                }
            }
        }
    }

    fn visit_class_stmt(&mut self, d: &ClassDecl, env: usize, fuel: u64) -> (r: Result<(), RuntimeError>)
        requires
            old(self).wf(),
            env < old(self).frames().len(),
        ensures
            final(self).wf(),
            Self::grows(*old(self), *final(self)),
            final(self).clock_log() == old(self).clock_log(),
            interp_spec::exec_class(old(self).state(), class_decl_view(d), env as nat, fuel as nat) == (final(self).state(), unit_view(r)),
    {
        if fuel == 0 {
            return Err(Self::out_of_steps());
        }
        let ghost s0 = self.state();
        let superclass: Option<usize> = match &d.superclass {
            Some(b) => {
                let v = match self.visit_variable_expr(b, env) {
                    Ok(v) => v,
                    Err(e) => {
                        return Err(e);
                    },
                };
                match v {
                    Value::Class(c) => Some(c),
                    _ => {
                        return Err(RuntimeError::new(&b.name, "Superclass must be a class."));
                    },
                }
            },
            None => None,
        };
        self.define_var(env, &d.name.lexeme, Value::Nil);
        let methods_env = match superclass {
            Some(c) => {
                let e = self.new_frame(env);
                let super_name = text_of("super");
                self.define_var(e, &super_name, Value::Class(c));
                e
            },
            None => env,
        };
        let ghost s2 = self.state();
        let ghost ms = fun_decls_view(d.methods@);
        proof {
            lemma_fun_decls_view_len(d.methods@);
        }
        let init = text_of("init");
        let mut methods: Vec<(String, usize)> = Vec::new();
        proof {
            assert(methods_view(methods@) =~= Seq::<(Seq<char>, nat)>::empty());
        }
        let mut i: usize = 0;
        while i < d.methods.len()
            invariant
                self.wf(),
                Self::grows(*old(self), *self),
                self.clock_log() == old(self).clock_log(),
                env < self.frames().len(),
                methods_env < self.frames().len(),
                superclass matches Some(c) ==> c < self.class_count(),
                forall|m: int| 0 <= m < methods@.len() ==> (#[trigger] methods@[m]).1 < self.function_count(),
                i <= d.methods@.len(),
                ms == fun_decls_view(d.methods@),
                ms.len() == d.methods@.len(),
                forall|k: int| 0 <= k < d.methods@.len() ==> #[trigger] ms[k] == crate::stmt::fun_decl_view(&d.methods@[k]),
                init@ == "init"@,
                interp_spec::make_methods(s2, ms, 0, methods_env as nat, Seq::empty())
                    == interp_spec::make_methods(self.state(), ms, i as int, methods_env as nat, methods_view(methods@)),
            decreases d.methods.len() - i,
        {
            let is_initializer = d.methods[i].name.lexeme == init;
            let nf = Function::new(&d.methods[i], methods_env, is_initializer);
            proof {
                assert(function_view(nf) == FunctionView {
                    name: Some(ms[i as int].name),
                    fun: ms[i as int].fun,
                    closure: methods_env as nat,
                    is_initializer: ms[i as int].name.lexeme == "init"@,
                });
            }
            let f = self.push_function(nf);
            let ghost before = methods@;
            Self::insert_method(&mut methods, &d.methods[i].name.lexeme, f);
            proof {
                assert forall|m: int| 0 <= m < methods@.len() implies (#[trigger] methods@[m]).1 < self.function_count() by {
                    if methods@[m].1 != f {
                        let k = choose|k: int| 0 <= k < before.len() && before[k].1 == methods@[m].1;
                        assert(before[k].1 < self.function_count());
                    }
                }
            }
            i += 1;
        }
        let cls = Class::new(d.name.clone(), superclass, methods);
        let c = self.push_class(cls);
        proof {
            assert(depth_view(Some(0usize)) == Some(0nat));
        }
        match self.assign_var(env, Some(0), &d.name, Value::Class(c)) {
            Ok(_) => Ok(()),
            Err(e) => Err(e),
        }
    }

    // -----------------------------------------------------------------------
    // Programs.

    /// Executes a program's statements in the global frame, each with the
    /// full budget, up to the first runtime error, or until a `return`
    /// leaves a value in that frame.
    pub fn interpret(&mut self, statements: &Vec<Stmt>) -> (r: Result<(), RuntimeError>)
        requires
            old(self).wf(),
        ensures
            final(self).wf(),
            Self::grows(*old(self), *final(self)),
            forall|feed: Feed| extends(feed, final(self).clock_log()) ==> #[trigger] interp_spec::run_program(
                old(self).state(), stmts_view(statements@), feed) == (final(self).state(), unit_view(r)),
    {
        let ghost s0 = self.state();
        let ghost ss = stmts_view(statements@);
        proof {
            lemma_stmts_view_len(statements@);
        }
        let mut i: usize = 0;
        while i < statements.len()
            invariant
                self.wf(),
                Self::grows(*old(self), *self),
                i <= statements@.len(),
                s0 == old(self).state(),
                ss == stmts_view(statements@),
                ss.len() == statements@.len(),
                forall|k: int| 0 <= k < statements@.len() ==> #[trigger] ss[k] == statements@[k]@,
                forall|feed: Feed| extends(feed, self.clock_log()) ==> #[trigger] interp_spec::run_program(s0, ss, feed)
                    == interp_spec::exec_block_from(self.state(), ss, i as int, 0, u64::MAX as nat, feed),
            decreases statements.len() - i,
        {
            let ghost before = *self;
            let r = self.execute(&statements[i], 0, u64::MAX);
            proof {
                assert forall|feed: Feed| extends(feed, self.clock_log()) implies #[trigger] interp_spec::run_program(s0, ss, feed)
                    == interp_spec::exec_block_from(before.state(), ss, i as int, 0, u64::MAX as nat, feed)
                    && interp_spec::exec(before.state(), ss[i as int], 0, u64::MAX as nat, feed) == (self.state(), unit_view(r)) by {
                    interp_spec::lemma_extends_trans(feed, self.clock_log(), before.clock_log());
                }
            }
            let returning = match r {
                Ok(()) => self.env.is_returning_from_fn(0),
                Err(_) => true,
            };
            if returning {
                proof {
                    assert forall|feed: Feed| extends(feed, self.clock_log()) implies #[trigger] interp_spec::run_program(s0, ss, feed)
                        == (self.state(), unit_view(r)) by {
                        assert(interp_spec::run_program(s0, ss, feed)
                            == interp_spec::exec_block_from(before.state(), ss, i as int, 0, u64::MAX as nat, feed));
                        assert(interp_spec::exec(before.state(), ss[i as int], 0, u64::MAX as nat, feed) == (self.state(), unit_view(r)));
                    }
                }
                return r;
            }
            proof {
                assert forall|feed: Feed| extends(feed, self.clock_log()) implies #[trigger] interp_spec::run_program(s0, ss, feed)
                    == interp_spec::exec_block_from(self.state(), ss, i + 1, 0, u64::MAX as nat, feed) by {
                    assert(interp_spec::run_program(s0, ss, feed)
                        == interp_spec::exec_block_from(before.state(), ss, i as int, 0, u64::MAX as nat, feed));
                    assert(interp_spec::exec(before.state(), ss[i as int], 0, u64::MAX as nat, feed) == (self.state(), unit_view(r)));
                }
            }
            i += 1;
        }
        proof {
            assert forall|feed: Feed| extends(feed, self.clock_log()) implies #[trigger] interp_spec::run_program(s0, ss, feed)
                == (self.state(), unit_view(Ok(()))) by {
                assert(interp_spec::exec_block_from(self.state(), ss, i as int, 0, u64::MAX as nat, feed) == (self.state(), unit_view(Ok(()))));
            }
        }
        Ok(())
    }

    /// The value of an expression in the global frame, as `print` writes it.
    pub fn interpret_expr(&mut self, expr: &Expr) -> (r: Result<String, RuntimeError>)
        requires
            old(self).wf(),
        ensures
            final(self).wf(),
            Self::grows(*old(self), *final(self)),
            forall|feed: Feed| extends(feed, final(self).clock_log()) ==> match #[trigger] interp_spec::run_expr(
                old(self).state(), expr@, feed) {
                (st, Ok(s)) => final(self).state() == st && (r matches Ok(x) && x@ == s),
                (st, Err(m)) => final(self).state() == st && (r matches Err(e) && e.0@ == m),
            },
    {
        match self.evaluate(expr, 0, u64::MAX) {
            Ok(v) => {
                let s = self.stringify(&v);
                Ok(s)
            },
            Err(e) => Err(e),
        }
    }
}

} // verus!
