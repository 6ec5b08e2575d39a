//! The top-level bindings of one render, and how values are rendered.

use vstd::prelude::*;
use vstd::std_specs::cmp::PartialEqSpecImpl;
use vstd::string::StringExecFns;
use crate::text::{push_int, to_chars};
use crate::trusted::push_char;
use crate::value::{
    contents, has_key, inserted, lookup, lookup_after_insert, rendering, rendering_items,
    unique_keys, Data, Object, Value,
};

verus! {

/// The named values that a template is rendered with.
#[derive(Debug)]
pub struct Context {
    data: Object,
}

/// The entries of `target` after each of the first `n` entries of `source`
/// was stored in it, in order.
pub open spec fn extended(
    target: Seq<(Seq<char>, Data)>,
    source: Seq<(Seq<char>, Data)>,
    n: nat,
) -> Seq<(Seq<char>, Data)>
    decreases n,
{
    if n == 0 || n > source.len() {
        target
    } else {
        inserted(extended(target, source, (n - 1) as nat), source[n - 1].0, source[n - 1].1)
    }
}

/// Extending keeps every key once; a key of the first `n` source entries
/// leads to the source's value, and any other key to what it led to before.
pub proof fn lookup_after_extend(
    target: Seq<(Seq<char>, Data)>,
    source: Seq<(Seq<char>, Data)>,
    n: nat,
    key: Seq<char>,
)
    requires
        unique_keys(target),
        unique_keys(source),
        n <= source.len(),
    ensures
        unique_keys(extended(target, source, n)),
        lookup(extended(target, source, n), key) == if has_key(source.subrange(0, n as int), key) {
            lookup(source, key)
        } else {
            lookup(target, key)
        },
    decreases n,
{
    let front = source.subrange(0, n as int);
    if n == 0 {
        assert(!has_key(front, key));
    } else {
        let before = extended(target, source, (n - 1) as nat);
        let shorter = source.subrange(0, n - 1);
        lookup_after_extend(target, source, (n - 1) as nat, key);
        lookup_after_insert(before, source[n - 1].0, source[n - 1].1, key);
        if key == source[n - 1].0 {
            assert(front[n - 1].0 == key);
            assert(has_key(source, key));
        } else if has_key(shorter, key) {
            let at = crate::value::key_position(shorter, key);
            assert(front[at].0 == key);
        } else if has_key(front, key) {
            let at = crate::value::key_position(front, key);
            assert(shorter[at].0 == key);
        }
    }
}

impl Context {
    /// The bindings, as entries of name and value.
    pub closed spec fn view(&self) -> Seq<(Seq<char>, Data)> {
        self.data@
    }

    /// An empty context.
    pub fn new() -> (c: Context)
        ensures
            c@.len() == 0,
    {
        Context { data: Object::new() }
    }

    /// Binds `key` to `val`, in place of what it was bound to before.
    pub fn insert(&mut self, key: &str, val: Value)
        ensures
            final(self)@ == inserted(old(self)@, key@, val@),
            forall|other: Seq<char>|
                lookup(final(self)@, other) == if other == key@ {
                    Some(val@)
                } else {
                    lookup(old(self)@, other)
                },
    {
        self.data.insert(key.to_owned(), val);
    }

    /// The number of bindings.
    pub fn len(&self) -> (n: usize)
        ensures
            n == self@.len(),
    {
        self.data.len()
    }

    /// The binding at position `i`, in the order in which the names were
    /// first bound, if there are that many.
    pub fn entry(&self, i: usize) -> (r: Option<(&str, &Value)>)
        ensures
            match r {
                Some((k, v)) => i < self@.len() && self@[i as int] == (k@, v@),
                None => i >= self@.len(),
            },
    {
        self.data.entry(i)
    }

    /// The value bound to `key`, if any.
    pub fn get(&self, key: &str) -> (r: Option<&Value>)
        ensures
            match r {
                Some(v) => lookup(self@, key@) == Some(v@),
                None => lookup(self@, key@) is None,
            },
    {
        self.data.get(key)
    }

    /// What a dotted path finds among the bindings: the binding that the
    /// part before the first dot names, and from there the value that the rest
    /// of the path leads to.
    pub fn find_value(&self, key: &str) -> (r: Option<Value>)
        ensures
            match r {
                Some(v) => crate::renderer::stack_frame::find_in_bindings(self@, key@) == Some(v@),
                None => crate::renderer::stack_frame::find_in_bindings(self@, key@) is None,
            },
    {
        crate::renderer::stack_frame::find_among(&self.data, key)
    }

    /// Adds the bindings of `source` to this context. Where both bind a
    /// name, the binding of `source` wins.
    pub fn extend(&mut self, source: Context)
        ensures
            final(self)@ == extended(old(self)@, source@, source@.len()),
            forall|key: Seq<char>|
                lookup(final(self)@, key) == if has_key(source@, key) {
                    lookup(source@, key)
                } else {
                    lookup(old(self)@, key)
                },
    {
        let count = source.data.len();
        // Asking for the length also tells that no name is bound twice.
        let _ = self.data.len();
        let mut i: usize = 0;
        while i < count
            invariant
                i <= source@.len(),
                count == source@.len(),
                self@ == extended(old(self)@, source@, i as nat),
            decreases source@.len() - i,
        {
            match source.data.entry(i) {
                Some((k, v)) => {
                    self.data.insert(k.to_owned(), v.clone());
                },
                None => {},
            }
            i += 1;
        }
        proof {
            assert(source@.subrange(0, source@.len() as int) =~= source@);
            assert forall|key: Seq<char>|
                lookup(self@, key) == if has_key(source@, key) {
                    lookup(source@, key)
                } else {
                    lookup(old(self)@, key)
                } by {
                lookup_after_extend(old(self)@, source@, source@.len(), key);
            }
        }
    }
}

impl Clone for Context {
    fn clone(&self) -> (copy: Context)
        ensures
            copy@ == self@,
    {
        Context { data: self.data.clone() }
    }
}

impl PartialEq for Context {
    fn eq(&self, other: &Context) -> (r: bool) {
        self.data == other.data
    }
}

impl PartialEqSpecImpl for Context {
    open spec fn obeys_eq_spec() -> bool {
        true
    }

    open spec fn eq_spec(&self, other: &Context) -> bool {
        crate::value::same(Data::Object(self@), Data::Object(other@))
    }
}

impl Default for Context {
    fn default() -> (c: Context)
        ensures
            c@.len() == 0,
    {
        Context::new()
    }
}

/// How a value is rendered into a template's output.
pub trait ValueRender {
    /// The rendered text.
    spec fn rendered(&self) -> Seq<char>;

    /// The rendered text.
    fn render(&self) -> (s: String)
        ensures
            s@ == self.rendered(),
    ;
}

/// Appends the items, each rendered, joined by `", "`.
fn push_rendered_items(items: &Vec<Value>, out: &mut String)
    ensures
        final(out)@ == old(out)@ + rendering_items(contents(items@), items@.len()),
    decreases items,
{
    let ghost start = out@;
    let mut i: usize = 0;
    while i < items.len()
        invariant
            i <= items.len(),
            out@ == start + rendering_items(contents(items@), i as nat),
        decreases items.len() - i,
    {
        if i > 0 {
            out.append(", ");
        }
        push_rendered(&items[i], out);
        i += 1;
    }
}

/// Appends the rendered text of `value` to `out`.
pub fn push_rendered(value: &Value, out: &mut String)
    ensures
        final(out)@ == old(out)@ + rendering(value@),
    decreases value,
{
    match value {
        Value::String(s) => out.append(s.as_str()),
        Value::Integer(i) => push_int(out, *i),
        Value::Float(f) => out.append(f.as_text()),
        Value::Bool(b) => {
            if *b {
                out.append("true");
            } else {
                out.append("false");
            }
        },
        Value::Array(a) => {
            out.append("[");
            push_rendered_items(a, out);
            out.append("]");
        },
        Value::Object(_) => out.append("[object]"),
    }
}

impl ValueRender for Value {
    open spec fn rendered(&self) -> Seq<char> {
        rendering(self@)
    }

    fn render(&self) -> (s: String) {
        let mut s = String::new();
        push_rendered(self, &mut s);
        s
    }
}

/// The path with a slash in front and a slash in place of every dot.
pub open spec fn json_pointer(key: Seq<char>) -> Seq<char> {
    seq!['/'] + Seq::new(
        key.len(),
        |i: int|
            if key[i] == '.' {
                '/'
            } else {
                key[i]
            },
    )
}

/// Converts a dotted path to a JSON pointer.
pub fn get_json_pointer(key: &str) -> (pointer: String)
    ensures
        pointer@ == json_pointer(key@),
{
    let chars = to_chars(key);
    let mut pointer = String::new();
    push_char(&mut pointer, '/');
    let mut i: usize = 0;
    while i < chars.len()
        invariant
            i <= chars@.len(),
            chars@ == key@,
            pointer@ == json_pointer(key@.subrange(0, i as int)),
        decreases chars.len() - i,
    {
        let c = if chars[i] == '.' {
            '/'
        } else {
            chars[i]
        };
        push_char(&mut pointer, c);
        assert(pointer@ =~= json_pointer(key@.subrange(0, i + 1)));
        i += 1;
    }
    assert(key@.subrange(0, chars@.len() as int) =~= key@);
    pointer
}

} // verus!
