//! Environments: the frames of variables of the interpreter, each with the
//! frame it is nested in, kept in one store and named by their index.

use vstd::prelude::*;
use crate::error::RuntimeError;
use crate::lox::runtime_error_text;
use crate::token::Token;
use crate::value::{Value, ValueView};

verus! {

/// One frame: its variables in the order they were defined, the frame it
/// is nested in, and the value a `return` left in it.
pub struct Frame {
    values: Vec<(String, Value)>,
    enclosing: Option<usize>,
    return_value: Option<Value>,
}

/// A frame as plain values.
pub struct FrameView {
    pub values: Seq<(Seq<char>, ValueView)>,
    pub enclosing: Option<nat>,
    pub return_value: Option<ValueView>,
}

pub open spec fn opt_value_view(v: Option<Value>) -> Option<ValueView> {
    match v {
        Some(x) => Some(x@),
        None => None,
    }
}

impl View for Frame {
    type V = FrameView;

    closed spec fn view(&self) -> FrameView {
        FrameView {
            values: self.values@.map_values(|p: (String, Value)| (p.0@, p.1@)),
            enclosing: match self.enclosing {
                Some(p) => Some(p as nat),
                None => None,
            },
            return_value: opt_value_view(self.return_value),
        }
    }
}

/// The position of the variable `name` in `vals` from `i` on (`vals.len()` if none).
pub open spec fn slot_from(vals: Seq<(Seq<char>, ValueView)>, name: Seq<char>, i: int) -> int
    decreases vals.len() - i,
{
    if i < 0 || i >= vals.len() {
        vals.len() as int
    } else if vals[i].0 == name {
        i
    } else {
        slot_from(vals, name, i + 1)
    }
}

pub open spec fn frame_slot(f: FrameView, name: Seq<char>) -> int {
    slot_from(f.values, name, 0)
}

pub open spec fn frame_has(f: FrameView, name: Seq<char>) -> bool {
    frame_slot(f, name) < f.values.len()
}

/// The frame with `name` bound to `v`: in place if it was there, else last.
pub open spec fn frame_define(f: FrameView, name: Seq<char>, v: ValueView) -> FrameView {
    FrameView {
        values: if frame_has(f, name) { f.values.update(frame_slot(f, name), (name, v)) } else { f.values.push((name, v)) },
        enclosing: f.enclosing,
        return_value: f.return_value,
    }
}

pub open spec fn frame_with_return(f: FrameView, rv: Option<ValueView>) -> FrameView {
    FrameView { values: f.values, enclosing: f.enclosing, return_value: rv }
}

/// Every frame is nested in an earlier one.
pub open spec fn frames_wf(fs: Seq<FrameView>) -> bool {
    &&& fs.len() > 0
    &&& forall|i: int| 0 <= i < fs.len() ==> ((#[trigger] fs[i]).enclosing matches Some(p) ==> p < i)
}

/// The value of `name` seen from frame `e`: its own, else the one of the
/// frames it is nested in.
pub open spec fn lookup(fs: Seq<FrameView>, e: int, name: Seq<char>) -> Option<ValueView>
    decreases e,
{
    if e < 0 || e >= fs.len() {
        None
    } else if frame_has(fs[e], name) {
        Some(fs[e].values[frame_slot(fs[e], name)].1)
    } else {
        match fs[e].enclosing {
            Some(p) => if p < e { lookup(fs, p as int, name) } else { None },
            None => None,
        }
    }
}

/// The frame `d` levels out from frame `e`.
pub open spec fn ancestor(fs: Seq<FrameView>, e: int, d: nat) -> Option<nat>
    decreases d,
{
    if e < 0 || e >= fs.len() {
        None
    } else if d == 0 {
        Some(e as nat)
    } else {
        match fs[e].enclosing {
            Some(p) => ancestor(fs, p as int, (d - 1) as nat),
            None => None,
        }
    }
}

pub open spec fn lookup_at(fs: Seq<FrameView>, e: int, d: nat, name: Seq<char>) -> Option<ValueView> {
    match ancestor(fs, e, d) {
        Some(a) => lookup(fs, a as int, name),
        None => None,
    }
}

/// The frames after assigning `v` to `name` as seen from frame `e`
/// (`None` where no frame of the chain has it).
pub open spec fn assign_in(fs: Seq<FrameView>, e: int, name: Seq<char>, v: ValueView) -> Option<Seq<FrameView>>
    decreases e,
{
    if e < 0 || e >= fs.len() {
        None
    } else if frame_has(fs[e], name) {
        Some(fs.update(e, frame_define(fs[e], name, v)))
    } else {
        match fs[e].enclosing {
            Some(p) => if p < e { assign_in(fs, p as int, name, v) } else { None },
            None => None,
        }
    }
}

pub open spec fn assign_at(fs: Seq<FrameView>, e: int, d: nat, name: Seq<char>, v: ValueView) -> Option<Seq<FrameView>> {
    match ancestor(fs, e, d) {
        Some(a) => assign_in(fs, a as int, name, v),
        None => None,
    }
}

/// The report for an assignment to a name no frame holds.
pub open spec fn undefined_assign_error(name: crate::token::TokenView) -> Seq<char> {
    runtime_error_text(name.line, "Undefined variable \""@ + name.lexeme + "\""@)
}

/// Every value held in the frames satisfies `ok`.
pub open spec fn all_values(fs: Seq<FrameView>, ok: spec_fn(ValueView) -> bool) -> bool {
    &&& forall|i: int, k: int| 0 <= i < fs.len() && 0 <= k < fs[i].values.len() ==> #[trigger] ok(fs[i].values[k].1)
    &&& forall|i: int| 0 <= i < fs.len() ==> ((#[trigger] fs[i]).return_value matches Some(v) ==> ok(v))
}

pub proof fn lemma_slot_from(vals: Seq<(Seq<char>, ValueView)>, name: Seq<char>, i: int)
    requires
        0 <= i,
    ensures
        slot_from(vals, name, i) <= vals.len(),
        i <= vals.len() ==> i <= slot_from(vals, name, i),
        slot_from(vals, name, i) < vals.len() ==> vals[slot_from(vals, name, i)].0 == name,
    decreases vals.len() - i,
{
    if i < vals.len() && vals[i].0 != name {
        lemma_slot_from(vals, name, i + 1);
    }
}

/// Putting a value that satisfies `ok` in frame `e` keeps all values `ok`.
pub proof fn lemma_all_values_update(fs: Seq<FrameView>, ok: spec_fn(ValueView) -> bool, e: int, f: FrameView)
    requires
        all_values(fs, ok),
        0 <= e < fs.len(),
        forall|k: int| 0 <= k < f.values.len() ==> #[trigger] ok(f.values[k].1),
        (f.return_value matches Some(v) ==> ok(v)),
    ensures
        all_values(fs.update(e, f), ok),
{
    let g = fs.update(e, f);
    assert forall|i: int, k: int| 0 <= i < g.len() && 0 <= k < g[i].values.len() implies #[trigger] ok(g[i].values[k].1) by {
        if i != e {
            assert(g[i] == fs[i]);
        }
    }
    assert forall|i: int| 0 <= i < g.len() implies ((#[trigger] g[i]).return_value matches Some(v) ==> ok(v)) by {
        if i != e {
            assert(g[i] == fs[i]);
        }
    }
}

/// A frame with `name` bound to an `ok` value keeps all its values `ok`.
pub proof fn lemma_frame_define_ok(f: FrameView, ok: spec_fn(ValueView) -> bool, name: Seq<char>, v: ValueView)
    requires
        forall|k: int| 0 <= k < f.values.len() ==> #[trigger] ok(f.values[k].1),
        ok(v),
    ensures
        forall|k: int| 0 <= k < frame_define(f, name, v).values.len() ==> #[trigger] ok(frame_define(f, name, v).values[k].1),
{
    lemma_slot_from(f.values, name, 0);
}

pub proof fn lemma_assign_in_ok(fs: Seq<FrameView>, ok: spec_fn(ValueView) -> bool, e: int, name: Seq<char>, v: ValueView)
    requires
        all_values(fs, ok),
        ok(v),
    ensures
        assign_in(fs, e, name, v) matches Some(g) ==> all_values(g, ok) && g.len() == fs.len()
            && (forall|i: int| 0 <= i < g.len() ==> (#[trigger] g[i]).enclosing == fs[i].enclosing),
    decreases e,
{
    if 0 <= e < fs.len() {
        if frame_has(fs[e], name) {
            lemma_frame_define_ok(fs[e], ok, name, v);
            lemma_all_values_update(fs, ok, e, frame_define(fs[e], name, v));
            let g = fs.update(e, frame_define(fs[e], name, v));
            assert forall|i: int| 0 <= i < g.len() implies (#[trigger] g[i]).enclosing == fs[i].enclosing by {
                if i != e {
                    assert(g[i] == fs[i]);
                }
            }
        } else {
            match fs[e].enclosing {
                Some(p) => if p < e {
                    lemma_assign_in_ok(fs, ok, p as int, name, v);
                },
                None => {},
            }
        }
    }
}

pub proof fn lemma_ancestor_bound(fs: Seq<FrameView>, e: int, d: nat)
    ensures
        ancestor(fs, e, d) matches Some(a) ==> a < fs.len(),
    decreases d,
{
    if 0 <= e < fs.len() && d > 0 {
        match fs[e].enclosing {
            Some(p) => lemma_ancestor_bound(fs, p as int, (d - 1) as nat),
            None => {},
        }
    }
}

/// A weaker predicate holds of all values where a stronger one did.
pub proof fn lemma_all_values_weaken(fs: Seq<FrameView>, ok1: spec_fn(ValueView) -> bool, ok2: spec_fn(ValueView) -> bool)
    requires
        all_values(fs, ok1),
        forall|v: ValueView| #[trigger] ok1(v) ==> ok2(v),
    ensures
        all_values(fs, ok2),
{
    assert forall|i: int, k: int| 0 <= i < fs.len() && 0 <= k < fs[i].values.len() implies #[trigger] ok2(fs[i].values[k].1) by {
        assert(ok1(fs[i].values[k].1));
    }
    assert forall|i: int| 0 <= i < fs.len() implies ((#[trigger] fs[i]).return_value matches Some(v) ==> ok2(v)) by {
        if fs[i].return_value is Some {
            assert(ok1(fs[i].return_value->0));
        }
    }
}

/// An empty frame keeps all values `ok`.
pub proof fn lemma_all_values_push_empty(fs: Seq<FrameView>, ok: spec_fn(ValueView) -> bool, p: nat)
    requires
        all_values(fs, ok),
    ensures
        all_values(fs.push(FrameView { values: Seq::empty(), enclosing: Some(p), return_value: None }), ok),
{
    let g = fs.push(FrameView { values: Seq::empty(), enclosing: Some(p), return_value: None });
    assert forall|i: int, k: int| 0 <= i < g.len() && 0 <= k < g[i].values.len() implies #[trigger] ok(g[i].values[k].1) by {
        assert(i < fs.len());
        assert(g[i] == fs[i]);
    }
    assert forall|i: int| 0 <= i < g.len() implies ((#[trigger] g[i]).return_value matches Some(v) ==> ok(v)) by {
        if i < fs.len() {
            assert(g[i] == fs[i]);
        }
    }
}

/// A value looked up in frames whose values are all `ok` is `ok`.
pub proof fn lemma_lookup_ok(fs: Seq<FrameView>, ok: spec_fn(ValueView) -> bool, e: int, name: Seq<char>)
    requires
        all_values(fs, ok),
    ensures
        lookup(fs, e, name) matches Some(v) ==> ok(v),
    decreases e,
{
    if 0 <= e < fs.len() {
        lemma_slot_from(fs[e].values, name, 0);
        if !frame_has(fs[e], name) {
            match fs[e].enclosing {
                Some(p) => if p < e {
                    lemma_lookup_ok(fs, ok, p as int, name);
                },
                None => {},
            }
        }
    }
}

pub proof fn lemma_lookup_at_ok(fs: Seq<FrameView>, ok: spec_fn(ValueView) -> bool, e: int, d: nat, name: Seq<char>)
    requires
        all_values(fs, ok),
    ensures
        lookup_at(fs, e, d, name) matches Some(v) ==> ok(v),
{
    match ancestor(fs, e, d) {
        Some(a) => lemma_lookup_ok(fs, ok, a as int, name),
        None => {},
    }
}

/// The store of all frames. Frame 0 holds the globals.
pub struct Env {
    frames: Vec<Frame>,
}

impl View for Env {
    type V = Seq<FrameView>;

    closed spec fn view(&self) -> Seq<FrameView> {
        self.frames@.map_values(|f: Frame| f@)
    }
}

impl Env {
    /// A store holding only the empty global frame.
    pub fn new() -> (r: Env)
        ensures
            r@ == seq![FrameView { values: Seq::empty(), enclosing: None, return_value: None }],
            frames_wf(r@),
    {
        let mut frames: Vec<Frame> = Vec::new();
        frames.push(Frame { values: Vec::new(), enclosing: None, return_value: None });
        let r = Env { frames };
        assert(r@[0].values =~= Seq::<(Seq<char>, ValueView)>::empty());
        assert(r@ =~= seq![FrameView { values: Seq::empty(), enclosing: None, return_value: None }]);
        r
    }

    /// The number of frames.
    pub fn len(&self) -> (n: usize)
        ensures
            n == self@.len(),
    {
        self.frames.len()
    }

    proof fn lemma_view_index(&self, i: int)
        requires
            0 <= i < self.frames@.len(),
        ensures
            self@[i] == self.frames@[i]@,
            self@.len() == self.frames@.len(),
    {
    }

    /// A new empty frame nested in frame `e`; its index.
    pub fn new_enclosed_with(&mut self, e: usize) -> (r: usize)
        requires
            e < old(self)@.len(),
            frames_wf(old(self)@),
        ensures
            r == old(self)@.len(),
            final(self)@ == old(self)@.push(FrameView { values: Seq::empty(), enclosing: Some(e as nat), return_value: None }),
            frames_wf(final(self)@),
    {
        let r = self.frames.len();
        self.frames.push(Frame { values: Vec::new(), enclosing: Some(e), return_value: None });
        proof {
            assert(self.frames@[r as int]@.values =~= Seq::<(Seq<char>, ValueView)>::empty());
            assert(self@ =~= old(self)@.push(FrameView { values: Seq::empty(), enclosing: Some(e as nat), return_value: None }));
        }
        r
    }

    fn slot(&self, e: usize, name: &String) -> (i: usize)
        requires
            e < self@.len(),
        ensures
            i == frame_slot(self@[e as int], name@),
    {
        proof {
            self.lemma_view_index(e as int);
        }
        let vals = &self.frames[e].values;
        let mut i: usize = 0;
        while i < vals.len()
            invariant
                i <= vals@.len(),
                self@[e as int].values.len() == vals@.len(),
                self@[e as int].values == vals@.map_values(|p: (String, Value)| (p.0@, p.1@)),
                frame_slot(self@[e as int], name@) == slot_from(self@[e as int].values, name@, i as int),
            decreases vals.len() - i,
        {
            if vals[i].0 == *name {
                return i;
            }
            i += 1;
        }
        i
    }

    /// Binds `name` to `value` in frame `e`, replacing an earlier binding there.
    pub fn define(&mut self, e: usize, name: &String, value: Value)
        requires
            e < old(self)@.len(),
        ensures
            final(self)@ == old(self)@.update(e as int, frame_define(old(self)@[e as int], name@, value@)),
    {
        proof {
            self.lemma_view_index(e as int);
        }
        let i = self.slot(e, name);
        let ghost v0 = self@[e as int];
        let n = self.frames[e].values.len();
        if i < n {
            self.frames[e].values.set(i, (name.clone(), value));
        } else {
            self.frames[e].values.push((name.clone(), value));
        }
        proof {
            self.lemma_view_index(e as int);
            assert(self@[e as int].values =~= frame_define(v0, name@, value@).values);
            assert(self@ =~= old(self)@.update(e as int, frame_define(old(self)@[e as int], name@, value@)));
        }
    }

    /// The value of `name` as seen from frame `e`.
    pub fn get(&self, e: usize, name: &String) -> (r: Option<Value>)
        requires
            frames_wf(self@),
        ensures
            opt_value_view(r) == lookup(self@, e as int, name@),
    {
        let mut cur = e;
        while cur < self.frames.len()
            invariant
                frames_wf(self@),
                self@.len() == self.frames@.len(),
                lookup(self@, e as int, name@) == lookup(self@, cur as int, name@),
            decreases cur,
        {
            proof {
                self.lemma_view_index(cur as int);
            }
            let i = self.slot(cur, name);
            if i < self.frames[cur].values.len() {
                proof {
                    assert(self@[cur as int].values[i as int] == (self.frames@[cur as int].values@[i as int].0@, self.frames@[cur as int].values@[i as int].1@));
                }
                return Some(self.frames[cur].values[i].1.clone());
            }
            match self.frames[cur].enclosing {
                Some(p) => {
                    assert(self@[cur as int].enclosing == Some(p as nat));
                    cur = p;
                },
                None => {
                    return None;
                },
            }
        }
        None
    }

    /// The frame `d` levels out from frame `e`, if there is one.
    pub fn ancestor(&self, e: usize, d: usize) -> (r: Option<usize>)
        ensures
            (match r { Some(a) => Some(a as nat), None => None::<nat> }) == ancestor(self@, e as int, d as nat),
    {
        let mut cur = e;
        let mut k = d;
        while k > 0
            invariant
                self@.len() == self.frames@.len(),
                ancestor(self@, e as int, d as nat) == ancestor(self@, cur as int, k as nat),
            decreases k,
        {
            if cur >= self.frames.len() {
                return None;
            }
            proof {
                self.lemma_view_index(cur as int);
            }
            match self.frames[cur].enclosing {
                Some(p) => {
                    cur = p;
                },
                None => {
                    return None;
                },
            }
            k = k - 1;
        }
        if cur < self.frames.len() {
            Some(cur)
        } else {
            None
        }
    }

    /// The value of `name` as seen from the frame `d` levels out from `e`.
    pub fn get_at(&self, e: usize, d: usize, name: &String) -> (r: Option<Value>)
        requires
            frames_wf(self@),
        ensures
            opt_value_view(r) == lookup_at(self@, e as int, d as nat, name@),
    {
        match self.ancestor(e, d) {
            Some(a) => self.get(a, name),
            None => None,
        }
    }

    fn assign_error(name: &Token) -> (r: RuntimeError)
        ensures
            r.0@ == undefined_assign_error(name@),
    {
        let mut msg = crate::text::text_of("Undefined variable \"");
        msg.append(name.lexeme.as_str());
        msg.append("\"");
        RuntimeError::new(name, msg.as_str())
    }

    /// Assigns `value` to `name` in the first frame of the chain from `e`
    /// that has it; the value, or the report that none has it.
    pub fn assign(&mut self, e: usize, name: &Token, value: Value) -> (r: Result<Value, RuntimeError>)
        requires
            frames_wf(old(self)@),
        ensures
            match assign_in(old(self)@, e as int, name@.lexeme, value@) {
                Some(fs) => final(self)@ == fs && (r matches Ok(v) && v@ == value@),
                None => final(self)@ == old(self)@ && (r matches Err(x) && x.0@ == undefined_assign_error(name@)),
            },
    {
        let mut cur = e;
        while cur < self.frames.len()
            invariant
                frames_wf(self@),
                self@ == old(self)@,
                self@.len() == self.frames@.len(),
                assign_in(self@, e as int, name@.lexeme, value@) == assign_in(self@, cur as int, name@.lexeme, value@),
            decreases cur,
        {
            proof {
                self.lemma_view_index(cur as int);
            }
            let i = self.slot(cur, &name.lexeme);
            if i < self.frames[cur].values.len() {
                let v = value.clone();
                self.define(cur, &name.lexeme, value);
                return Ok(v);
            }
            match self.frames[cur].enclosing {
                Some(p) => {
                    assert(self@[cur as int].enclosing == Some(p as nat));
                    cur = p;
                },
                None => {
                    return Err(Self::assign_error(name));
                },
            }
        }
        Err(Self::assign_error(name))
    }

    /// Assigns `value` to `name` as seen from the frame `d` levels out from `e`.
    pub fn assign_at(&mut self, e: usize, d: usize, name: &Token, value: Value) -> (r: Result<Value, RuntimeError>)
        requires
            frames_wf(old(self)@),
        ensures
            match assign_at(old(self)@, e as int, d as nat, name@.lexeme, value@) {
                Some(fs) => final(self)@ == fs && (r matches Ok(v) && v@ == value@),
                None => final(self)@ == old(self)@ && (r matches Err(x) && x.0@ == undefined_assign_error(name@)),
            },
    {
        match self.ancestor(e, d) {
            Some(a) => self.assign(a, name, value),
            None => Err(Self::assign_error(name)),
        }
    }

    /// Leaves `value` as the return value of frame `e`.
    pub fn set_return_from_fn(&mut self, e: usize, value: Value)
        requires
            e < old(self)@.len(),
        ensures
            final(self)@ == old(self)@.update(e as int, frame_with_return(old(self)@[e as int], Some(value@))),
    {
        proof {
            self.lemma_view_index(e as int);
        }
        self.frames[e].return_value = Some(value);
        proof {
            self.lemma_view_index(e as int);
            assert(self@ =~= old(self)@.update(e as int, frame_with_return(old(self)@[e as int], Some(value@))));
        }
    }

    /// Frame `e` holds a return value.
    pub fn is_returning_from_fn(&self, e: usize) -> (r: bool)
        requires
            e < self@.len(),
        ensures
            r == (self@[e as int].return_value is Some),
    {
        proof {
            self.lemma_view_index(e as int);
        }
        self.frames[e].return_value.is_some()
    }

    /// Takes the return value out of frame `e`.
    pub fn take_return_from_fn(&mut self, e: usize) -> (r: Option<Value>)
        requires
            e < old(self)@.len(),
        ensures
            opt_value_view(r) == old(self)@[e as int].return_value,
            final(self)@ == old(self)@.update(e as int, frame_with_return(old(self)@[e as int], None)),
    {
        proof {
            self.lemma_view_index(e as int);
        }
        let r = self.frames[e].return_value.take();
        proof {
            self.lemma_view_index(e as int);
            assert(self@ =~= old(self)@.update(e as int, frame_with_return(old(self)@[e as int], None)));
        }
        r
    }

    /// Leaving the frame `e` of a block: a return value left in it moves to
    /// the frame it is nested in.
    pub fn release(&mut self, e: usize)
        requires
            e < old(self)@.len(),
            frames_wf(old(self)@),
        ensures
            final(self)@ == match (old(self)@[e as int].return_value, old(self)@[e as int].enclosing) {
                (Some(v), Some(p)) => old(self)@.update(p as int, frame_with_return(old(self)@[p as int], Some(v))),
                _ => old(self)@,
            },
    {
        proof {
            self.lemma_view_index(e as int);
        }
        match self.frames[e].enclosing {
            Some(p) => {
                match &self.frames[e].return_value {
                    Some(v) => {
                        let v = v.clone();
                        self.set_return_from_fn(p, v);
                    },
                    None => {},
                }
            },
            None => {},
        }
    }
}

} // verus!

verus! {

/// A read of `name` in frame `e` right after defining it there gives the
/// value defined.
pub proof fn law_get_after_define(fs: Seq<FrameView>, e: int, name: Seq<char>, v: ValueView)
    requires
        0 <= e < fs.len(),
    ensures
        lookup(fs.update(e, frame_define(fs[e], name, v)), e, name) == Some(v),
{
    let g = fs.update(e, frame_define(fs[e], name, v));
    let old_vals = fs[e].values;
    let new_vals = g[e].values;
    lemma_slot_from(old_vals, name, 0);
    lemma_slot_from_first(old_vals, name, 0);
    let k = frame_slot(fs[e], name);
    if k < old_vals.len() {
        assert(new_vals == old_vals.update(k, (name, v)));
    } else {
        assert(new_vals == old_vals.push((name, v)));
    }
    assert(new_vals[k] == (name, v));
    assert forall|j: int| 0 <= j < k implies new_vals[j].0 != name by {
        assert(new_vals[j] == old_vals[j]);
    }
    lemma_first_slot(new_vals, name, k);
    assert(frame_has(g[e], name));
}

proof fn lemma_first_slot(vals: Seq<(Seq<char>, ValueView)>, name: Seq<char>, k: int)
    requires
        0 <= k < vals.len(),
        vals[k].0 == name,
        forall|j: int| 0 <= j < k ==> vals[j].0 != name,
    ensures
        slot_from(vals, name, 0) == k,
{
    lemma_slot_from_skip(vals, name, 0, k);
}

proof fn lemma_slot_from_skip(vals: Seq<(Seq<char>, ValueView)>, name: Seq<char>, i: int, k: int)
    requires
        0 <= i <= k < vals.len(),
        vals[k].0 == name,
        forall|j: int| i <= j < k ==> vals[j].0 != name,
    ensures
        slot_from(vals, name, i) == k,
    decreases k - i,
{
    if i < k {
        lemma_slot_from_skip(vals, name, i + 1, k);
    }
}

proof fn lemma_slot_from_none(vals: Seq<(Seq<char>, ValueView)>, name: Seq<char>, i: int)
    requires
        0 <= i,
        slot_from(vals, name, i) >= vals.len(),
    ensures
        forall|j: int| i <= j < vals.len() ==> vals[j].0 != name,
    decreases vals.len() - i,
{
    if i < vals.len() {
        lemma_slot_from_none(vals, name, i + 1);
    }
}

proof fn lemma_slot_from_first(vals: Seq<(Seq<char>, ValueView)>, name: Seq<char>, i: int)
    requires
        0 <= i,
    ensures
        forall|j: int| i <= j < slot_from(vals, name, i) && j < vals.len() ==> vals[j].0 != name,
    decreases vals.len() - i,
{
    if i < vals.len() && vals[i].0 != name {
        lemma_slot_from_first(vals, name, i + 1);
    }
}

/// Defining `name` in frame `e` leaves what every other name reads as,
/// from every frame, unchanged.
pub proof fn law_define_keeps_other_names(fs: Seq<FrameView>, e: int, name: Seq<char>, v: ValueView, from: int, other: Seq<char>)
    requires
        frames_wf(fs),
        0 <= e < fs.len(),
        other != name,
    ensures
        lookup(fs.update(e, frame_define(fs[e], name, v)), from, other) == lookup(fs, from, other),
    decreases from,
{
    let g = fs.update(e, frame_define(fs[e], name, v));
    if 0 <= from < fs.len() {
        let f = fs[from];
        let h = g[from];
        if from == e {
            lemma_slot_from(f.values, other, 0);
            lemma_slot_from(f.values, name, 0);
            lemma_slot_from_first(f.values, other, 0);
            lemma_slot_from(h.values, other, 0);
            lemma_slot_from_first(h.values, other, 0);
            if frame_has(f, other) {
                let k = frame_slot(f, other);
                assert(h.values[k] == f.values[k]);
                lemma_first_slot(h.values, other, k);
            } else {
                lemma_slot_from_none(f.values, other, 0);
                assert forall|j: int| 0 <= j < h.values.len() implies h.values[j].0 != other by {
                    if j < f.values.len() && (frame_has(f, name) ==> j != frame_slot(f, name)) {
                        assert(h.values[j] == f.values[j]);
                    }
                }
                if frame_has(h, other) {
                    assert(h.values[frame_slot(h, other)].0 == other);
                }
            }
        } else {
            assert(h == f);
        }
        if !frame_has(f, other) {
            match f.enclosing {
                Some(p) => if p < from {
                    law_define_keeps_other_names(fs, e, name, v, p as int, other);
                },
                None => {},
            }
        }
    }
}

/// After an assignment to `name` seen from frame `e` succeeds, `name`
/// reads as the value assigned from there.
pub proof fn law_get_after_assign(fs: Seq<FrameView>, e: int, name: Seq<char>, v: ValueView)
    requires
        frames_wf(fs),
        assign_in(fs, e, name, v) is Some,
    ensures
        lookup(assign_in(fs, e, name, v)->0, e, name) == Some(v),
    decreases e,
{
    let g = assign_in(fs, e, name, v)->0;
    if frame_has(fs[e], name) {
        law_get_after_define(fs, e, name, v);
    } else {
        let p = fs[e].enclosing->0;
        law_get_after_assign(fs, p as int, name, v);
        lemma_assign_in_frames(fs, p as int, name, v);
        assert(g[e] == fs[e]);
    }
}

proof fn lemma_assign_in_frames(fs: Seq<FrameView>, e: int, name: Seq<char>, v: ValueView)
    requires
        frames_wf(fs),
        assign_in(fs, e, name, v) is Some,
    ensures
        assign_in(fs, e, name, v)->0.len() == fs.len(),
        forall|i: int| e < i < fs.len() ==> #[trigger] assign_in(fs, e, name, v)->0[i] == fs[i],
    decreases e,
{
    if !frame_has(fs[e], name) {
        let p = fs[e].enclosing->0;
        lemma_assign_in_frames(fs, p as int, name, v);
    }
}

} // verus!
