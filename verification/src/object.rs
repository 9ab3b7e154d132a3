//! Runtime values and the environment that binds names to them.
//!
//! An [`Environment`] is an arena of scope frames. A frame maps names to
//! values and may have a parent; a closure holds the index of the frame it was
//! defined in, so that frame outlives the call that created it.

use crate::ast::{
    block_text, block_view, clone_identifiers, identifiers_view, parameters_text,
    parameters_to_string, BlockStatement, BlockView, Identifier, IdentifierView, Inspect,
};
use crate::text::{decimal, decimal_text};
use vstd::prelude::*;
use vstd::string::StringExecFns;

verus! {

/// A function that the evaluator itself provides.
#[derive(Debug, Clone, Copy, PartialEq, Eq, Structural)]
pub enum Builtin {
    /// `len` of the namespace `std.string`: the length of a string in bytes.
    StringLen,
}

/// A closure: parameters, body and the frame it was defined in.
#[derive(Debug)]
pub struct Function {
    pub parameters: Vec<Identifier>,
    pub body: BlockStatement,
    pub env: usize,
}

/// A runtime value.
#[derive(Debug)]
pub enum Object {
    Integer(i32),
    Boolean(bool),
    String(String),
    ReturnValue(Box<Object>),
    Null,
    Error(String),
    Function(Function),
    Builtin(Builtin),
}

/// The value of a [`Function`].
pub struct FunctionView {
    pub parameters: Seq<IdentifierView>,
    pub body: BlockView,
    pub env: nat,
}

/// The value of an [`Object`].
pub enum ObjectView {
    Integer(i32),
    Boolean(bool),
    String(Seq<char>),
    ReturnValue(Box<ObjectView>),
    Null,
    Error(Seq<char>),
    Function(FunctionView),
    Builtin(Builtin),
}

impl View for Function {
    type V = FunctionView;

    open spec fn view(&self) -> FunctionView {
        FunctionView {
            parameters: identifiers_view(self.parameters@),
            body: block_view(&self.body),
            env: self.env as nat,
        }
    }
}

/// The value of an object.
pub open spec fn object_view(o: &Object) -> ObjectView
    decreases o,
{
    match o {
        Object::Integer(i) => ObjectView::Integer(*i),
        Object::Boolean(b) => ObjectView::Boolean(*b),
        Object::String(s) => ObjectView::String(s@),
        Object::ReturnValue(r) => ObjectView::ReturnValue(Box::new(object_view(&**r))),
        Object::Null => ObjectView::Null,
        Object::Error(e) => ObjectView::Error(e@),
        Object::Function(f) => ObjectView::Function(f@),
        Object::Builtin(b) => ObjectView::Builtin(*b),
    }
}

impl View for Object {
    type V = ObjectView;

    open spec fn view(&self) -> ObjectView {
        object_view(self)
    }
}

impl Clone for Function {
    fn clone(&self) -> (r: Self)
        ensures
            r@ == self@,
    {
        Function {
            parameters: clone_identifiers(&self.parameters),
            body: self.body.clone(),
            env: self.env,
        }
    }
}

impl Clone for Object {
    fn clone(&self) -> (r: Self)
        ensures
            r@ == self@,
        decreases self,
    {
        match self {
            Object::Integer(i) => Object::Integer(*i),
            Object::Boolean(b) => Object::Boolean(*b),
            Object::String(s) => Object::String(s.clone()),
            Object::ReturnValue(r) => Object::ReturnValue(Box::new((&**r).clone())),
            Object::Null => Object::Null,
            Object::Error(e) => Object::Error(e.clone()),
            Object::Function(f) => Object::Function(f.clone()),
            Object::Builtin(b) => Object::Builtin(*b),
        }
    }
}

/// The name of a value's type, as error messages spell it.
pub open spec fn type_label(o: ObjectView) -> Seq<char> {
    match o {
        ObjectView::Integer(_) => "INTEGER"@,
        ObjectView::Boolean(_) => "BOOLEAN"@,
        ObjectView::String(_) => "STRING"@,
        ObjectView::ReturnValue(_) => "RETURN_VALUE"@,
        ObjectView::Error(_) => "ERROR"@,
        ObjectView::Null => "NULL"@,
        ObjectView::Function(_) => "FUNCTION"@,
        ObjectView::Builtin(_) => "BUILTIN"@,
    }
}

/// The name of a value's type.
pub fn get_type(obj: &Object) -> (r: String)
    ensures
        r@ == type_label(obj@),
{
    match obj {
        Object::Integer(_) => String::from_str("INTEGER"),
        Object::Boolean(_) => String::from_str("BOOLEAN"),
        Object::String(_) => String::from_str("STRING"),
        Object::ReturnValue(_) => String::from_str("RETURN_VALUE"),
        Object::Error(_) => String::from_str("ERROR"),
        Object::Null => String::from_str("NULL"),
        Object::Function(_) => String::from_str("FUNCTION"),
        Object::Builtin(_) => String::from_str("BUILTIN"),
    }
}

/// How a value is shown: an integer in decimal, a boolean as `true` or
/// `false`, a string as its contents, null as `null`, an error as its message
/// after `Error: `, a return signal as the value it carries, and a closure as
/// `fn(` parameters `) {` body `}`, with a comma after each parameter.
pub open spec fn inspect_text(o: ObjectView) -> Seq<char>
    decreases o,
{
    match o {
        ObjectView::Integer(i) => decimal_text(i as int),
        ObjectView::Boolean(b) => if b {
            "true"@
        } else {
            "false"@
        },
        ObjectView::String(s) => s,
        ObjectView::ReturnValue(r) => inspect_text(*r),
        ObjectView::Error(e) => "Error: "@ + e,
        ObjectView::Null => "null"@,
        ObjectView::Function(f) => "fn("@ + parameters_text(f.parameters, ","@, f.parameters.len())
            + ") {"@ + block_text(f.body) + "}"@,
        ObjectView::Builtin(_) => "builtin function"@,
    }
}

impl Object {
    /// The text that shows the value.
    pub fn inspect(&self) -> (r: String)
        ensures
            r@ == inspect_text(self@),
        decreases self,
    {
        match self {
            Object::Integer(i) => decimal(*i),
            Object::Boolean(b) => if *b {
                String::from_str("true")
            } else {
                String::from_str("false")
            },
            Object::String(s) => s.clone(),
            Object::ReturnValue(r) => (&**r).inspect(),
            Object::Error(e) => {
                let mut out = String::from_str("Error: ");
                out.append(e.as_str());
                out
            },
            Object::Null => String::from_str("null"),
            Object::Function(f) => {
                let mut out = String::from_str("fn(");
                let params = parameters_to_string(&f.parameters, ",");
                out.append(params.as_str());
                out.append(") {");
                let body = f.body.to_string();
                out.append(body.as_str());
                out.append("}");
                out
            },
            Object::Builtin(_) => String::from_str("builtin function"),
        }
    }
}

/// Whether every closure in `o` refers to one of the first `frames` frames.
pub open spec fn closures_within(o: ObjectView, frames: nat) -> bool
    decreases o,
{
    match o {
        ObjectView::Function(f) => f.env < frames,
        ObjectView::ReturnValue(r) => closures_within(*r, frames),
        _ => true,
    }
}

/// The value of a scope frame: its bindings, the namespaces imported in it and
/// its parent frame.
pub struct FrameView {
    pub store: Map<Seq<char>, ObjectView>,
    pub imports: Set<Seq<char>>,
    pub parent: Option<nat>,
}

/// The value of an [`Environment`]: all frames, and the index of the frame in
/// which evaluation currently takes place.
pub struct EnvironmentView {
    pub frames: Seq<FrameView>,
    pub current: nat,
}

impl FrameView {
    /// A frame without bindings or imports.
    pub open spec fn fresh(parent: Option<nat>) -> FrameView {
        FrameView { store: Map::empty(), imports: Set::empty(), parent }
    }
}

impl EnvironmentView {
    /// Well-formedness: the current frame exists, every parent comes before
    /// its child, and every stored closure refers to an existing frame.
    pub open spec fn wf(self) -> bool {
        &&& self.current < self.frames.len()
        &&& forall|i: int|
            0 <= i < self.frames.len() ==> (#[trigger] self.frames[i].parent matches Some(p)
                ==> p < i)
        &&& forall|i: int, name: Seq<char>|
            0 <= i < self.frames.len() && #[trigger] self.frames[i].store.contains_key(name)
                ==> closures_within(self.frames[i].store[name], self.frames.len())
    }

    /// The value bound to `name` in `frame` or the nearest of its ancestors
    /// that binds it.
    pub open spec fn lookup(self, frame: nat, name: Seq<char>) -> Option<ObjectView>
        decreases frame,
    {
        if frame >= self.frames.len() {
            None
        } else if self.frames[frame as int].store.contains_key(name) {
            Some(self.frames[frame as int].store[name])
        } else {
            match self.frames[frame as int].parent {
                Some(p) => if p < frame {
                    self.lookup(p, name)
                } else {
                    None
                },
                None => None,
            }
        }
    }

    /// Whether `namespace` was imported in `frame` or one of its ancestors.
    pub open spec fn imported(self, frame: nat, namespace: Seq<char>) -> bool
        decreases frame,
    {
        if frame >= self.frames.len() {
            false
        } else if self.frames[frame as int].imports.contains(namespace) {
            true
        } else {
            match self.frames[frame as int].parent {
                Some(p) => if p < frame {
                    self.imported(p, namespace)
                } else {
                    false
                },
                None => false,
            }
        }
    }

    /// The environment after binding `name` to `value` in the current frame.
    pub open spec fn bind(self, name: Seq<char>, value: ObjectView) -> EnvironmentView {
        let frame = self.frames[self.current as int];
        EnvironmentView {
            frames: self.frames.update(
                self.current as int,
                FrameView { store: frame.store.insert(name, value), ..frame },
            ),
            current: self.current,
        }
    }

    /// The environment after importing `namespace` in the current frame.
    pub open spec fn import(self, namespace: Seq<char>) -> EnvironmentView {
        let frame = self.frames[self.current as int];
        EnvironmentView {
            frames: self.frames.update(
                self.current as int,
                FrameView { imports: frame.imports.insert(namespace), ..frame },
            ),
            current: self.current,
        }
    }

    /// The environment after adding an empty child of `parent` and making it
    /// the current frame.
    pub open spec fn enclose(self, parent: nat) -> EnvironmentView {
        EnvironmentView {
            frames: self.frames.push(FrameView::fresh(Some(parent))),
            current: self.frames.len(),
        }
    }

    /// The same frames with another current frame.
    pub open spec fn at(self, frame: nat) -> EnvironmentView {
        EnvironmentView { frames: self.frames, current: frame }
    }
}

struct Binding {
    name: String,
    value: Object,
}

struct Frame {
    bindings: Vec<Binding>,
    imports: Vec<String>,
    parent: Option<usize>,
}

/// The scope frames of a session and the frame in which evaluation currently
/// takes place.
pub struct Environment {
    frames: Vec<Frame>,
    current: usize,
}

/// The map that a list of bindings stands for: where a name occurs more than
/// once, the last binding holds.
spec fn bindings_map(bs: Seq<Binding>) -> Map<Seq<char>, ObjectView>
    decreases bs.len(),
{
    if bs.len() == 0 {
        Map::empty()
    } else {
        bindings_map(bs.drop_last()).insert(bs.last().name@, bs.last().value@)
    }
}

spec fn no_later_binding(bs: Seq<Binding>, name: Seq<char>, i: int) -> bool {
    forall|j: int| i < j < bs.len() ==> (#[trigger] bs[j]).name@ != name
}

proof fn lemma_bindings_found(bs: Seq<Binding>, name: Seq<char>, i: int)
    requires
        0 <= i < bs.len(),
        bs[i].name@ == name,
        no_later_binding(bs, name, i),
    ensures
        bindings_map(bs).contains_key(name),
        bindings_map(bs)[name] == bs[i].value@,
    decreases bs.len(),
{
    if i < bs.len() - 1 {
        assert(bs[bs.len() - 1].name@ != name);
        assert(bs.drop_last()[i] == bs[i]);
        assert(no_later_binding(bs.drop_last(), name, i)) by {
            assert forall|j: int| i < j < bs.drop_last().len() implies (
            #[trigger] bs.drop_last()[j]).name@ != name by {
                assert(bs.drop_last()[j] == bs[j]);
            }
        }
        lemma_bindings_found(bs.drop_last(), name, i);
    }
}

proof fn lemma_bindings_absent(bs: Seq<Binding>, name: Seq<char>)
    requires
        no_later_binding(bs, name, -1),
    ensures
        !bindings_map(bs).contains_key(name),
    decreases bs.len(),
{
    if bs.len() > 0 {
        assert(bs[bs.len() - 1].name@ != name);
        assert(no_later_binding(bs.drop_last(), name, -1)) by {
            assert forall|j: int| -1 < j < bs.drop_last().len() implies (
            #[trigger] bs.drop_last()[j]).name@ != name by {
                assert(bs.drop_last()[j] == bs[j]);
            }
        }
        lemma_bindings_absent(bs.drop_last(), name);
    }
}

proof fn lemma_bindings_replace(bs: Seq<Binding>, i: int, b: Binding)
    requires
        0 <= i < bs.len(),
        bs[i].name@ == b.name@,
        no_later_binding(bs, b.name@, i),
    ensures
        bindings_map(bs.update(i, b)) == bindings_map(bs).insert(b.name@, b.value@),
    decreases bs.len(),
{
    let after = bs.update(i, b);
    if i == bs.len() - 1 {
        assert(after.drop_last() =~= bs.drop_last());
        assert(bindings_map(after) =~= bindings_map(bs).insert(b.name@, b.value@));
    } else {
        assert(bs[bs.len() - 1].name@ != b.name@);
        assert(bs.drop_last()[i] == bs[i]);
        assert(no_later_binding(bs.drop_last(), b.name@, i)) by {
            assert forall|j: int| i < j < bs.drop_last().len() implies (
            #[trigger] bs.drop_last()[j]).name@ != b.name@ by {
                assert(bs.drop_last()[j] == bs[j]);
            }
        }
        lemma_bindings_replace(bs.drop_last(), i, b);
        assert(after.drop_last() =~= bs.drop_last().update(i, b));
        assert(after.last() == bs.last());
        assert(bindings_map(after) =~= bindings_map(bs).insert(b.name@, b.value@));
    }
}

/// The set of the texts in a list of strings.
spec fn texts_set(v: Seq<String>) -> Set<Seq<char>> {
    Set::new(|t: Seq<char>| exists|i: int| 0 <= i < v.len() && #[trigger] v[i]@ == t)
}

impl View for Frame {
    type V = FrameView;

    closed spec fn view(&self) -> FrameView {
        FrameView {
            store: bindings_map(self.bindings@),
            imports: texts_set(self.imports@),
            parent: match self.parent {
                Some(p) => Some(p as nat),
                None => None,
            },
        }
    }
}

impl Frame {
    fn find(&self, name: &str) -> (r: Option<usize>)
        ensures
            match r {
                Some(i) => i < self.bindings@.len() && self.bindings@[i as int].name@ == name@
                    && no_later_binding(self.bindings@, name@, i as int),
                None => no_later_binding(self.bindings@, name@, -1),
            },
    {
        let mut i: usize = self.bindings.len();
        while i > 0
            invariant
                i <= self.bindings@.len(),
                no_later_binding(self.bindings@, name@, i as int - 1),
            decreases i,
        {
            i -= 1;
            if crate::text::same_text(self.bindings[i].name.as_str(), name) {
                return Some(i);
            }
        }
        None
    }
}

impl Frame {
    fn holds_import(&self, namespace: &str) -> (r: bool)
        ensures
            r == self@.imports.contains(namespace@),
    {
        let mut i: usize = 0;
        while i < self.imports.len()
            invariant
                i <= self.imports@.len(),
                forall|j: int| 0 <= j < i ==> (#[trigger] self.imports@[j])@ != namespace@,
            decreases self.imports@.len() - i,
        {
            if crate::text::same_text(self.imports[i].as_str(), namespace) {
                assert(texts_set(self.imports@).contains(namespace@));
                return true;
            }
            i += 1;
        }
        assert(!texts_set(self.imports@).contains(namespace@));
        false
    }
}

impl View for Environment {
    type V = EnvironmentView;

    closed spec fn view(&self) -> EnvironmentView {
        EnvironmentView {
            frames: Seq::new(self.frames@.len(), |i: int| self.frames@[i]@),
            current: self.current as nat,
        }
    }
}

impl Environment {
    /// Well-formedness of the environment: that of its value.
    pub open spec fn wf(&self) -> bool {
        self@.wf()
    }

    /// An environment with one empty root frame, which is the current frame.
    pub fn new() -> (r: Self)
        ensures
            r.wf(),
            r@.frames == seq![FrameView::fresh(None)],
            r@.current == 0,
    {
        let mut frames: Vec<Frame> = Vec::new();
        frames.push(Frame { bindings: Vec::new(), imports: Vec::new(), parent: None });
        let r = Environment { frames, current: 0 };
        proof {
            assert(r.frames@[0]@.store =~= Map::<Seq<char>, ObjectView>::empty());
            assert(r.frames@[0]@.imports =~= Set::<Seq<char>>::empty());
            assert(r@.frames =~= seq![FrameView::fresh(None)]);
        }
        r
    }

    /// The index of the current frame.
    pub fn current_frame(&self) -> (r: usize)
        ensures
            r == self@.current,
    {
        self.current
    }

    /// The number of frames.
    pub fn frame_count(&self) -> (r: usize)
        ensures
            r == self@.frames.len(),
    {
        self.frames.len()
    }

    /// Whether `val` may be stored: every closure in it refers to a frame that
    /// exists.
    pub fn admits(&self, val: &Object) -> (r: bool)
        ensures
            r == closures_within(val@, self@.frames.len()),
        decreases val,
    {
        match val {
            Object::Function(f) => f.env < self.frames.len(),
            Object::ReturnValue(inner) => self.admits(&**inner),
            _ => true,
        }
    }

    /// Looks `name` up in the current frame and then in its ancestors, nearest
    /// first, and returns a copy of the first value found.
    pub fn get(&self, name: &String) -> (r: Option<Object>)
        requires
            self.wf(),
        ensures
            match r {
                Some(o) => self@.lookup(self@.current, name@) == Some(o@),
                None => self@.lookup(self@.current, name@) is None,
            },
            r matches Some(o) ==> closures_within(o@, self@.frames.len()),
    {
        let mut f: usize = self.current;
        loop
            invariant
                self.wf(),
                f < self.frames@.len(),
                self@.lookup(self@.current, name@) == self@.lookup(f as nat, name@),
            decreases f,
        {
            let frame = &self.frames[f];
            assert(self@.frames[f as int] == frame@);
            match frame.find(name.as_str()) {
                Some(i) => {
                    proof {
                        lemma_bindings_found(frame.bindings@, name@, i as int);
                    }
                    return Some(frame.bindings[i].value.clone());
                },
                None => {
                    proof {
                        lemma_bindings_absent(frame.bindings@, name@);
                    }
                    match frame.parent {
                        Some(p) => {
                            f = p;
                        },
                        None => {
                            return None;
                        },
                    }
                },
            }
        }
    }

    /// Binds `name` to `val` in the current frame, replacing an earlier
    /// binding of the name in that frame. No other frame changes.
    pub fn set(&mut self, name: String, val: Object)
        requires
            old(self).wf(),
            closures_within(val@, old(self)@.frames.len()),
        ensures
            final(self).wf(),
            final(self)@ == old(self)@.bind(name@, val@),
    {
        let c = self.current;
        let ghost before = self.frames@;
        let found = self.frames[c].find(name.as_str());
        let b = Binding { name, value: val };
        match found {
            Some(i) => {
                proof {
                    lemma_bindings_replace(before[c as int].bindings@, i as int, b);
                }
                self.frames[c].bindings[i] = b;
            },
            None => {
                self.frames[c].bindings.push(b);
                proof {
                    assert(self.frames@[c as int].bindings@.drop_last()
                        =~= before[c as int].bindings@);
                }
            },
        }
        proof {
            assert(self.frames@[c as int].imports == before[c as int].imports);
            assert(self.frames@[c as int].parent == before[c as int].parent);
            assert(self@.frames =~= old(self)@.bind(b.name@, b.value@).frames);
        }
    }

    /// Records that `namespace` was imported in the current frame.
    pub fn add_import(&mut self, namespace: String)
        requires
            old(self).wf(),
        ensures
            final(self).wf(),
            final(self)@ == old(self)@.import(namespace@),
    {
        let c = self.current;
        let ghost before = self.frames@;
        self.frames[c].imports.push(namespace);
        proof {
            let now = self.frames@[c as int].imports@;
            let was = before[c as int].imports@;
            assert(now == was.push(namespace));
            assert(texts_set(now) =~= texts_set(was).insert(namespace@)) by {
                assert forall|t: Seq<char>| texts_set(now).contains(t) implies texts_set(
                    was,
                ).insert(namespace@).contains(t) by {
                    let i = choose|i: int| 0 <= i < now.len() && #[trigger] now[i]@ == t;
                    if i < was.len() {
                        assert(was[i]@ == t);
                    }
                }
                assert forall|t: Seq<char>|
                    texts_set(was).insert(namespace@).contains(t) implies texts_set(
                    now,
                ).contains(t) by {
                    if t == namespace@ {
                        assert(now[was.len() as int]@ == t);
                    } else {
                        let i = choose|i: int| 0 <= i < was.len() && #[trigger] was[i]@ == t;
                        assert(now[i]@ == t);
                    }
                }
            }
            assert(self@.frames =~= old(self)@.import(namespace@).frames);
        }
    }

    /// Whether `namespace` was imported in the current frame or one of its
    /// ancestors.
    pub fn has_import(&self, namespace: &str) -> (r: bool)
        requires
            self.wf(),
        ensures
            r == self@.imported(self@.current, namespace@),
    {
        let mut f: usize = self.current;
        loop
            invariant
                self.wf(),
                f < self.frames@.len(),
                self@.imported(self@.current, namespace@) == self@.imported(
                    f as nat,
                    namespace@,
                ),
            decreases f,
        {
            let frame = &self.frames[f];
            assert(self@.frames[f as int] == frame@);
            if frame.holds_import(namespace) {
                return true;
            }
            match frame.parent {
                Some(p) => {
                    f = p;
                },
                None => {
                    return false;
                },
            }
        }
    }

    /// Adds an empty child frame of `parent`, makes it the current frame and
    /// returns the index of the frame that was current before.
    pub fn enter(&mut self, parent: usize) -> (saved: usize)
        requires
            old(self).wf(),
            parent < old(self)@.frames.len(),
        ensures
            final(self).wf(),
            final(self)@ == old(self)@.enclose(parent as nat),
            saved == old(self)@.current,
    {
        let saved = self.current;
        let ghost before = self@;
        self.current = self.frames.len();
        self.frames.push(Frame { bindings: Vec::new(), imports: Vec::new(), parent: Some(parent) });
        proof {
            let last = self.frames@[self.frames@.len() - 1];
            assert(last@.store =~= Map::<Seq<char>, ObjectView>::empty());
            assert(last@.imports =~= Set::<Seq<char>>::empty());
            assert(self@.frames =~= before.enclose(parent as nat).frames);
            assert forall|i: int, name: Seq<char>|
                0 <= i < self@.frames.len() && #[trigger] self@.frames[i].store.contains_key(
                    name,
                ) implies closures_within(self@.frames[i].store[name], self@.frames.len()) by {
                assert(i < before.frames.len());
                assert(before.frames[i].store.contains_key(name));
                lemma_closures_within_more(
                    before.frames[i].store[name],
                    before.frames.len(),
                    self@.frames.len(),
                );
            }
        }
        saved
    }

    /// Makes `frame` the current frame.
    pub fn leave(&mut self, frame: usize)
        requires
            old(self).wf(),
            frame < old(self)@.frames.len(),
        ensures
            final(self).wf(),
            final(self)@ == old(self)@.at(frame as nat),
    {
        self.current = frame;
        assert(self@.frames =~= old(self)@.frames);
    }
}

/// A closure that refers to one of the first `n` frames refers to one of the
/// first `m` frames for every `m` that is at least `n`.
pub proof fn lemma_closures_within_more(o: ObjectView, n: nat, m: nat)
    requires
        closures_within(o, n),
        n <= m,
    ensures
        closures_within(o, m),
    decreases o,
{
    match o {
        ObjectView::ReturnValue(r) => lemma_closures_within_more(*r, n, m),
        _ => {},
    }
}

/// A new environment whose current frame is an empty child of the current
/// frame of `parent`. The frames of `parent` are kept.
pub fn new_enclosed_env(parent: Environment) -> (r: Environment)
    requires
        parent.wf(),
    ensures
        r.wf(),
        r@ == parent@.enclose(parent@.current),
{
    let mut env = parent;
    let c = env.current_frame();
    let _ = env.enter(c);
    env
}

} // verus!
