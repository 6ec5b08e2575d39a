//! One scope of a render.

use vstd::prelude::*;
use crate::context::Context;
use crate::renderer::for_loop::{ForLoop, LoopData};
use crate::text::{str_eq, string_of, to_chars};
use crate::value::{inserted, lookup, resolve, Data, Object, Value};
use vstd::string::StrSliceExecFns;

verus! {

/// The kinds of scope.
#[derive(Clone, Copy, Debug, PartialEq, Eq, Structural)]
pub enum FrameType {
    /// The scope that a render starts in.
    Origin,
    /// The scope of a macro call.
    Macro,
    /// The scope of a `for` loop's body.
    ForLoop,
    /// The scope of an included template.
    Include,
}


/// The mathematical content of a [`StackFrame`].
pub struct FrameData {
    /// The kind of scope.
    pub kind: FrameType,
    /// The name of the scope.
    pub name: Seq<char>,
    /// The local bindings, as entries of name and value.
    pub bindings: Seq<(Seq<char>, Data)>,
    /// The name of the template that the scope belongs to.
    pub template: Seq<char>,
    /// The loop state, in the scope of a `for` loop's body.
    pub for_loop: Option<LoopData>,
    /// The namespace of the macro, in the scope of a macro call.
    pub macro_namespace: Option<Seq<char>>,
}

/// Whether position `i` holds the first dot of `path`.
pub open spec fn is_first_dot(path: Seq<char>, i: int) -> bool {
    &&& 0 <= i < path.len()
    &&& path[i] == '.'
    &&& forall|j: int| 0 <= j < i ==> path[j] != '.'
}

/// The position of the first dot of `path`, or -1 if it has none.
pub open spec fn first_dot(path: Seq<char>) -> int {
    if exists|i: int| is_first_dot(path, i) {
        choose|i: int| is_first_dot(path, i)
    } else {
        -1
    }
}

/// The part of `path` before its first dot: the name of a binding.
pub open spec fn head(path: Seq<char>) -> Seq<char> {
    if first_dot(path) < 0 {
        path
    } else {
        path.subrange(0, first_dot(path))
    }
}

/// The part of `path` behind its first dot; empty if it has no dot.
pub open spec fn tail(path: Seq<char>) -> Seq<char> {
    if first_dot(path) < 0 {
        Seq::empty()
    } else {
        path.subrange(first_dot(path) + 1, path.len() as int)
    }
}

/// What a dotted path finds among named bindings: the binding that the part
/// before the first dot names, and from there the value that the rest of the
/// path leads to.
pub open spec fn find_in_bindings(bindings: Seq<(Seq<char>, Data)>, key: Seq<char>) -> Option<
    Data,
> {
    if first_dot(key) < 0 {
        lookup(bindings, key)
    } else {
        match lookup(bindings, head(key)) {
            Some(v) => resolve(v, tail(key)),
            None => None,
        }
    }
}

/// The key of the current iteration, as a value.
pub open spec fn current_key(l: LoopData) -> Option<Data> {
    match l.keys {
        Some(keys) => if l.current < keys.len() {
            Some(Data::String(keys[l.current as int]))
        } else {
            None
        },
        None => None,
    }
}

/// The value of the current iteration.
pub open spec fn current_value(l: LoopData) -> Option<Data> {
    if l.current < l.values.len() {
        Some(l.values[l.current as int])
    } else {
        None
    }
}

/// What a path finds in the state of a loop. In this order: the loop's key
/// name finds the current key; `loop.index`, `loop.index0`, `loop.first` and
/// `loop.last` find the one-based position, the zero-based position, whether
/// this is the first iteration and whether it is the last, and nothing else
/// is found under `loop`; the loop's value name finds the current value, and
/// a path that starts with the value name leads on from the current value.
pub open spec fn find_in_loop(l: LoopData, key: Seq<char>) -> Option<Data> {
    if l.key_name == Some(key) {
        current_key(l)
    } else if head(key) == "loop"@ {
        if tail(key) == "index"@ {
            Some(Data::Integer(l.current as int + 1))
        } else if tail(key) == "index0"@ {
            Some(Data::Integer(l.current as int))
        } else if tail(key) == "first"@ {
            Some(Data::Bool(l.current == 0))
        } else if tail(key) == "last"@ {
            Some(Data::Bool(l.current + 1 == l.values.len()))
        } else {
            None
        }
    } else if key == l.value_name {
        current_value(l)
    } else if head(key) == l.value_name && tail(key).len() > 0 {
        match current_value(l) {
            Some(v) => resolve(v, tail(key)),
            None => None,
        }
    } else {
        None
    }
}

/// What a path finds in one scope: first among the local bindings, then in
/// the loop state if the scope has one.
pub open spec fn find_in_frame(frame: FrameData, key: Seq<char>) -> Option<Data> {
    match find_in_bindings(frame.bindings, key) {
        Some(v) => Some(v),
        None => match frame.for_loop {
            Some(l) => find_in_loop(l, key),
            None => None,
        },
    }
}

/// What a path resolves to against the innermost `depth` scopes of a stack
/// and the global context: the innermost scope that finds the path decides,
/// whatever its kind; if no scope finds it, the context's bindings do; if
/// they do not either, the path is undefined.
pub open spec fn find_in_stack(
    frames: Seq<FrameData>,
    depth: nat,
    context: Seq<(Seq<char>, Data)>,
    key: Seq<char>,
) -> Option<Data>
    decreases depth,
{
    if depth == 0 || depth > frames.len() {
        find_in_bindings(context, key)
    } else {
        match find_in_frame(frames[depth - 1], key) {
            Some(v) => Some(v),
            None => find_in_stack(frames, (depth - 1) as nat, context, key),
        }
    }
}

/// One scope of a render: its kind, its local bindings and, for the body of
/// a `for` loop, the loop state.
#[derive(Debug)]
pub struct StackFrame {
    kind: FrameType,
    name: String,
    context: Object,
    active_template: String,
    for_loop: Option<ForLoop>,
    macro_namespace: Option<String>,
}

/// The position of the first dot in `chars`, if it has one.
fn find_first_dot(chars: &Vec<char>) -> (r: Option<usize>)
    ensures
        match r {
            Some(i) => i < chars@.len() && first_dot(chars@) == i && is_first_dot(chars@, i as int),
            None => first_dot(chars@) == -1,
        },
{
    let mut i: usize = 0;
    while i < chars.len()
        invariant
            i <= chars@.len(),
            forall|j: int| 0 <= j < i ==> chars@[j] != '.',
        decreases chars.len() - i,
    {
        if chars[i] == '.' {
            assert(is_first_dot(chars@, i as int));
            return Some(i);
        }
        i += 1;
    }
    None
}

/// What a dotted path finds among the entries of `bindings`.
pub(crate) fn find_among(bindings: &Object, key: &str) -> (r: Option<Value>)
    ensures
        match r {
            Some(v) => find_in_bindings(bindings@, key@) == Some(v@),
            None => find_in_bindings(bindings@, key@) is None,
        },
{
    let chars = to_chars(key);
    match find_first_dot(&chars) {
        Some(dot) => {
            let name = string_of(&chars, 0, dot);
            let rest = string_of(&chars, dot + 1, chars.len());
            match bindings.get(name.as_str()) {
                Some(v) => match v.pointer(rest.as_str()) {
                    Some(found) => Some(found.clone()),
                    None => None,
                },
                None => None,
            }
        },
        None => match bindings.get(key) {
            Some(found) => Some(found.clone()),
            None => None,
        },
    }
}

impl StackFrame {
    /// The mathematical content of the scope.
    pub closed spec fn view(&self) -> FrameData {
        FrameData {
            kind: self.kind,
            name: self.name@,
            bindings: self.context@,
            template: self.active_template@,
            for_loop: match self.for_loop {
                Some(l) => Some(l@),
                None => None,
            },
            macro_namespace: match self.macro_namespace {
                Some(n) => Some(n@),
                None => None,
            },
        }
    }

    /// A scope of the given kind without bindings.
    pub fn new(kind: FrameType, name: &str, tpl: &str) -> (frame: StackFrame)
        ensures
            frame@ == (FrameData {
                kind,
                name: name@,
                bindings: Seq::empty(),
                template: tpl@,
                for_loop: None,
                macro_namespace: None,
            }),
    {
        let context = Object::new();
        assert(context@ =~= Seq::empty());
        StackFrame {
            kind,
            name: name.to_owned(),
            context,
            active_template: tpl.to_owned(),
            for_loop: None,
            macro_namespace: None,
        }
    }

    /// The scope of a `for` loop's body, without bindings.
    pub fn new_for_loop(name: &str, tpl: &str, for_loop: ForLoop) -> (frame: StackFrame)
        ensures
            frame@ == (FrameData {
                kind: FrameType::ForLoop,
                name: name@,
                bindings: Seq::empty(),
                template: tpl@,
                for_loop: Some(for_loop@),
                macro_namespace: None,
            }),
    {
        let context = Object::new();
        assert(context@ =~= Seq::empty());
        StackFrame {
            kind: FrameType::ForLoop,
            name: name.to_owned(),
            context,
            active_template: tpl.to_owned(),
            for_loop: Some(for_loop),
            macro_namespace: None,
        }
    }

    /// The scope of a macro call: its bindings are the arguments of the
    /// call and nothing else.
    pub fn new_macro(name: &str, tpl: &str, macro_namespace: &str, context: Object) -> (frame:
        StackFrame)
        ensures
            frame@ == (FrameData {
                kind: FrameType::Macro,
                name: name@,
                bindings: context@,
                template: tpl@,
                for_loop: None,
                macro_namespace: Some(macro_namespace@),
            }),
    {
        StackFrame {
            kind: FrameType::Macro,
            name: name.to_owned(),
            context,
            active_template: tpl.to_owned(),
            for_loop: None,
            macro_namespace: Some(macro_namespace.to_owned()),
        }
    }

    /// The scope of an included template, without bindings.
    pub fn new_include(name: &str, tpl: &str) -> (frame: StackFrame)
        ensures
            frame@ == (FrameData {
                kind: FrameType::Include,
                name: name@,
                bindings: Seq::empty(),
                template: tpl@,
                for_loop: None,
                macro_namespace: None,
            }),
    {
        let context = Object::new();
        assert(context@ =~= Seq::empty());
        StackFrame {
            kind: FrameType::Include,
            name: name.to_owned(),
            context,
            active_template: tpl.to_owned(),
            for_loop: None,
            macro_namespace: None,
        }
    }

    /// The kind of scope.
    pub fn kind(&self) -> (kind: FrameType)
        ensures
            kind == self@.kind,
    {
        self.kind
    }

    /// The name of the scope.
    pub fn name(&self) -> (name: &str)
        ensures
            name@ == self@.name,
    {
        self.name.as_str()
    }

    /// The name of the template that the scope belongs to.
    pub fn active_template(&self) -> (name: &str)
        ensures
            name@ == self@.template,
    {
        self.active_template.as_str()
    }

    /// The namespace of the macro, in the scope of a macro call.
    pub fn macro_namespace(&self) -> (r: Option<&str>)
        ensures
            match r {
                Some(n) => self@.macro_namespace == Some(n@),
                None => self@.macro_namespace is None,
            },
    {
        match &self.macro_namespace {
            Some(n) => Some(n.as_str()),
            None => None,
        }
    }

    /// The loop state, in the scope of a `for` loop's body.
    pub fn for_loop(&self) -> (r: Option<&ForLoop>)
        ensures
            match r {
                Some(l) => self@.for_loop == Some(l@),
                None => self@.for_loop is None,
            },
    {
        match &self.for_loop {
            Some(l) => Some(l),
            None => None,
        }
    }

    /// Moves the loop of this scope on to its next iteration. A scope
    /// without a loop stays as it is.
    pub fn increment(&mut self)
        ensures
            final(self)@ == (FrameData {
                for_loop: match old(self)@.for_loop {
                    Some(l) => Some(
                        LoopData {
                            current: if l.current < l.values.len() {
                                l.current + 1
                            } else {
                                l.current
                            },
                            ..l
                        },
                    ),
                    None => None,
                },
                ..old(self)@
            }),
    {
        match &mut self.for_loop {
            Some(l) => {
                l.increment();
            },
            None => {},
        }
    }

    /// What the path finds in this scope: among the local bindings first,
    /// then in the loop state.
    pub fn find_value(&self, key: &str) -> (r: Option<Value>)
        ensures
            match r {
                Some(v) => find_in_frame(self@, key@) == Some(v@),
                None => find_in_frame(self@, key@) is None,
            },
    {
        match self.find_value_in_frame(key) {
            Some(v) => Some(v),
            None => self.find_value_in_for_loop(key),
        }
    }

    /// What the path finds among the local bindings.
    pub fn find_value_in_frame(&self, key: &str) -> (r: Option<Value>)
        ensures
            match r {
                Some(v) => find_in_bindings(self@.bindings, key@) == Some(v@),
                None => find_in_bindings(self@.bindings, key@) is None,
            },
    {
        find_among(&self.context, key)
    }

    /// What the path finds in the loop state, if the scope has one.
    pub fn find_value_in_for_loop(&self, key: &str) -> (r: Option<Value>)
        ensures
            match r {
                Some(v) => self@.for_loop matches Some(l) && find_in_loop(l, key@) == Some(v@),
                None => self@.for_loop matches Some(l) ==> find_in_loop(l, key@) is None,
            },
    {
        let for_loop = match &self.for_loop {
            Some(l) => l,
            None => {
                return None;
            },
        };
        let position = for_loop.current();
        if for_loop.is_key(key) {
            return match for_loop.get_current_key() {
                Some(k) => Some(Value::String(k.to_owned())),
                None => None,
            };
        }
        let chars = to_chars(key);
        let (real_key, rest) = match find_first_dot(&chars) {
            Some(dot) => (string_of(&chars, 0, dot), string_of(&chars, dot + 1, chars.len())),
            None => (string_of(&chars, 0, chars.len()), String::new()),
        };
        assert(chars@.subrange(0, chars@.len() as int) =~= chars@);
        assert(real_key@ == head(key@));
        assert(rest@ =~= tail(key@));
        if str_eq(real_key.as_str(), "loop") {
            return if str_eq(rest.as_str(), "index") {
                Some(Value::Integer(for_loop.index()))
            } else if str_eq(rest.as_str(), "index0") {
                Some(Value::Integer(position as i64))
            } else if str_eq(rest.as_str(), "first") {
                Some(Value::Bool(for_loop.first()))
            } else if str_eq(rest.as_str(), "last") {
                Some(Value::Bool(for_loop.last()))
            } else {
                None
            };
        }
        if str_eq(key, for_loop.value_name()) {
            return match for_loop.get_current_value() {
                Some(v) => Some(v.clone()),
                None => None,
            };
        }
        if str_eq(real_key.as_str(), for_loop.value_name()) && rest.as_str().unicode_len() > 0 {
            return match for_loop.get_current_value() {
                Some(v) => match v.pointer(rest.as_str()) {
                    Some(found) => Some(found.clone()),
                    None => None,
                },
                None => None,
            };
        }
        None
    }

    /// Binds `key` to `value` in this scope.
    pub fn insert(&mut self, key: &str, value: Value)
        ensures
            final(self)@ == (FrameData {
                bindings: inserted(old(self)@.bindings, key@, value@),
                ..old(self)@
            }),
    {
        self.context.insert(key.to_owned(), value);
    }

    /// Forgets the local bindings of a loop's scope, as is done between two
    /// iterations; the loop state stays. Other scopes keep their bindings.
    pub fn clear_context(&mut self)
        ensures
            final(self)@ == (FrameData {
                bindings: if old(self)@.for_loop is Some {
                    Seq::empty()
                } else {
                    old(self)@.bindings
                },
                ..old(self)@
            }),
    {
        if self.for_loop.is_some() {
            self.context = Object::new();
            assert(self.context@ =~= Seq::empty());
        }
    }
}

/// The content of each scope of a stack, outermost first.
pub open spec fn frames_of(stack: Seq<StackFrame>) -> Seq<FrameData> {
    Seq::new(stack.len(), |i: int| stack[i]@)
}

/// Resolves a dotted path against a stack of scopes, innermost last, and the
/// global context. `None` means that the path is undefined.
pub fn resolve_variable(stack: &Vec<StackFrame>, context: &Context, key: &str) -> (r: Option<Value>)
    ensures
        match r {
            Some(v) => find_in_stack(frames_of(stack@), stack@.len(), context@, key@) == Some(v@),
            None => find_in_stack(frames_of(stack@), stack@.len(), context@, key@) is None,
        },
{
    let mut depth: usize = stack.len();
    while depth > 0
        invariant
            depth <= stack@.len(),
            find_in_stack(frames_of(stack@), stack@.len(), context@, key@) == find_in_stack(
                frames_of(stack@),
                depth as nat,
                context@,
                key@,
            ),
        decreases depth,
    {
        match stack[depth - 1].find_value(key) {
            Some(v) => {
                return Some(v);
            },
            None => {},
        }
        depth -= 1;
    }
    context.find_value(key)
}

} // verus!
