//! The dynamically typed value model.

use vstd::prelude::*;
use vstd::std_specs::cmp::PartialEqSpecImpl;
use vstd::string::{StrSliceExecFns, StringExecFns};
use crate::errors::{message_about, Error, ErrorKind};
use crate::number::{
    check_nan, check_numbers_equal, check_zero, is_nan, is_zero, numbers_equal, Comparison,
    Number,
};
use crate::text::{int_text, push_int, str_eq};

verus! {

/// A floating-point number, held as its IEEE-754 binary64 bit pattern together
/// with its decimal text.
///
/// The library never computes with floating-point numbers: it classifies,
/// compares and orders them by their bit pattern and prints the text.
#[derive(Debug)]
pub struct Float {
    bits: u64,
    text: String,
}

/// A dynamically typed value.
#[derive(Debug)]
pub enum Value {
    Bool(bool),
    Integer(i64),
    Float(Float),
    String(String),
    Array(Vec<Value>),
    Object(Object),
}

/// A mapping from string keys to values. No key occurs twice; entries are
/// kept in the order in which their keys were first inserted.
#[derive(Debug)]
pub struct Object {
    entries: Vec<(String, Value)>,
}

/// The mathematical content of a [`Value`].
pub enum Data {
    Bool(bool),
    Integer(int),
    Float { bits: u64, text: Seq<char> },
    String(Seq<char>),
    Array(Seq<Data>),
    Object(Seq<(Seq<char>, Data)>),
}

/// Whether some entry has the given key.
pub open spec fn has_key(entries: Seq<(Seq<char>, Data)>, key: Seq<char>) -> bool {
    exists|i: int| 0 <= i < entries.len() && (#[trigger] entries[i]).0 == key
}

/// The position of an entry with the given key.
pub open spec fn key_position(entries: Seq<(Seq<char>, Data)>, key: Seq<char>) -> int {
    choose|i: int| 0 <= i < entries.len() && (#[trigger] entries[i]).0 == key
}

/// The value stored under `key`, if any.
pub open spec fn lookup(entries: Seq<(Seq<char>, Data)>, key: Seq<char>) -> Option<Data> {
    if has_key(entries, key) {
        Some(entries[key_position(entries, key)].1)
    } else {
        None
    }
}

/// No key occurs twice.
pub open spec fn unique_keys(entries: Seq<(Seq<char>, Data)>) -> bool {
    forall|i: int, j: int|
        0 <= i < j < entries.len() ==> (#[trigger] entries[i]).0 != (#[trigger] entries[j]).0
}

/// Equality of values: booleans, integers and strings are equal when they
/// are the same; floats when they are the same number (a NaN equals nothing);
/// arrays when they are equal element by element; objects when they hold equal
/// values under the same keys, in whatever order. Values of different kinds
/// are never equal.
pub open spec fn same(a: Data, b: Data) -> bool
    decreases a,
{
    match (a, b) {
        (Data::Bool(x), Data::Bool(y)) => x == y,
        (Data::Integer(x), Data::Integer(y)) => x == y,
        (Data::Float { bits: x, .. }, Data::Float { bits: y, .. }) => numbers_equal(x, y),
        (Data::String(x), Data::String(y)) => x == y,
        (Data::Array(x), Data::Array(y)) => x.len() == y.len() && forall|i: int|
            0 <= i < x.len() ==> same(#[trigger] x[i], y[i]),
        (Data::Object(x), Data::Object(y)) => x.len() == y.len() && forall|i: int|
            0 <= i < x.len() ==> has_key(y, (#[trigger] x[i]).0) && same(
                x[i].1,
                y[key_position(y, x[i].0)].1,
            ),
        _ => false,
    }
}

/// The text of the first `n` items, each shown by [`display`], joined by `", "`.
pub open spec fn display_items(items: Seq<Data>, n: nat) -> Seq<char>
    decreases items, n,
{
    if n == 0 || n > items.len() {
        Seq::empty()
    } else if n == 1 {
        display(items[0])
    } else {
        display_items(items, (n - 1) as nat) + ", "@ + display(items[n - 1])
    }
}

/// The text of the first `n` entries, each as `key: value`, joined by `", "`.
pub open spec fn display_entries(entries: Seq<(Seq<char>, Data)>, n: nat) -> Seq<char>
    decreases entries, n,
{
    if n == 0 || n > entries.len() {
        Seq::empty()
    } else if n == 1 {
        entries[0].0 + ": "@ + display(entries[0].1)
    } else {
        display_entries(entries, (n - 1) as nat) + ", "@ + entries[n - 1].0 + ": "@ + display(
            entries[n - 1].1,
        )
    }
}

/// How a value is shown in messages and as a grouping key: booleans as `true`
/// or `false`, integers in decimal, floats by their text, strings between
/// double quotes, arrays between square brackets and objects between braces.
pub open spec fn display(d: Data) -> Seq<char>
    decreases d, 0nat,
{
    match d {
        Data::Bool(b) => if b { "true"@ } else { "false"@ },
        Data::Integer(i) => int_text(i),
        Data::Float { text, .. } => text,
        Data::String(s) => "\""@ + s + "\""@,
        Data::Array(items) => "["@ + display_items(items, items.len()) + "]"@,
        Data::Object(entries) => "{"@ + display_entries(entries, entries.len()) + "}"@,
    }
}

/// The text of the first `n` items, each rendered by [`rendering`], joined by `", "`.
pub open spec fn rendering_items(items: Seq<Data>, n: nat) -> Seq<char>
    decreases items, n,
{
    if n == 0 || n > items.len() {
        Seq::empty()
    } else if n == 1 {
        rendering(items[0])
    } else {
        rendering_items(items, (n - 1) as nat) + ", "@ + rendering(items[n - 1])
    }
}

/// How a value is rendered into a template's output: strings verbatim,
/// booleans as `true` or `false`, integers in decimal, floats by their text,
/// arrays between square brackets with their items joined by `", "`, and every
/// object as `[object]`.
pub open spec fn rendering(d: Data) -> Seq<char>
    decreases d, 0nat,
{
    match d {
        Data::Bool(b) => if b { "true"@ } else { "false"@ },
        Data::Integer(i) => int_text(i),
        Data::Float { text, .. } => text,
        Data::String(s) => s,
        Data::Array(items) => "["@ + rendering_items(items, items.len()) + "]"@,
        Data::Object(_) => "[object]"@,
    }
}

/// Whether a value counts as true in a condition: a true boolean, a non-zero
/// integer, a float that is neither zero nor NaN, and a non-empty string,
/// array or object.
pub open spec fn truthy(d: Data) -> bool {
    match d {
        Data::Bool(b) => b,
        Data::Integer(i) => i != 0,
        Data::Float { bits, .. } => !is_zero(bits) && !is_nan(bits),
        Data::String(s) => s.len() > 0,
        Data::Array(items) => items.len() > 0,
        Data::Object(entries) => entries.len() > 0,
    }
}

impl Float {
    /// The bit pattern.
    pub closed spec fn bits(&self) -> u64 {
        self.bits
    }

    /// The decimal text.
    pub closed spec fn text(&self) -> Seq<char> {
        self.text@
    }

    /// A float with the given bit pattern and decimal text.
    pub fn new(bits: u64, text: String) -> (f: Float)
        ensures
            f.bits() == bits,
            f.text() == text@,
    {
        Float { bits, text }
    }

    /// The bit pattern.
    pub fn to_bits(&self) -> (bits: u64)
        ensures
            bits == self.bits(),
    {
        self.bits
    }

    /// The decimal text.
    pub fn as_text(&self) -> (text: &str)
        ensures
            text@ == self.text(),
    {
        self.text.as_str()
    }
}

impl Clone for Float {
    fn clone(&self) -> (f: Float)
        ensures
            f.bits() == self.bits(),
            f.text() == self.text(),
    {
        Float { bits: self.bits, text: self.text.clone() }
    }
}

impl Value {
    /// The mathematical content of the value.
    pub open spec fn view(&self) -> Data
        decreases self,
    {
        match self {
            Value::Bool(b) => Data::Bool(*b),
            Value::Integer(i) => Data::Integer(*i as int),
            Value::Float(f) => Data::Float { bits: f.bits(), text: f.text() },
            Value::String(s) => Data::String(s@),
            Value::Array(a) => Data::Array(contents(a@)),
            Value::Object(o) => Data::Object(o.view()),
        }
    }
}

/// The contents of a sequence of values, item by item.
pub open spec fn contents(values: Seq<Value>) -> Seq<Data>
    decreases values,
{
    Seq::new(
        values.len(),
        |i: int|
            if 0 <= i < values.len() {
                values[i].view()
            } else {
                Data::Bool(false)
            },
    )
}

impl Object {
    /// The entries as pairs of key and content, in insertion order.
    pub closed spec fn view(&self) -> Seq<(Seq<char>, Data)>
        decreases self,
    {
        Seq::new(
            self.entries@.len(),
            |i: int|
                if 0 <= i < self.entries@.len() {
                    (self.entries@[i].0@, self.entries@[i].1.view())
                } else {
                    (Seq::empty(), Data::Bool(false))
                },
        )
    }

    #[verifier::type_invariant]
    spec fn well_formed(&self) -> bool {
        unique_keys(self.view())
    }
}


/// The entries after storing `value` under `key`: in place of the entry that
/// had the key, or else as a new last entry.
pub open spec fn inserted(entries: Seq<(Seq<char>, Data)>, key: Seq<char>, value: Data) -> Seq<
    (Seq<char>, Data),
> {
    if has_key(entries, key) {
        entries.update(key_position(entries, key), (key, value))
    } else {
        entries.push((key, value))
    }
}

impl Object {
    /// An object without entries.
    pub fn new() -> (o: Object)
        ensures
            o@.len() == 0,
    {
        Object { entries: Vec::new() }
    }

    /// The number of entries.
    pub fn len(&self) -> (n: usize)
        ensures
            n == self@.len(),
            unique_keys(self@),
    {
        proof {
            use_type_invariant(self);
        }
        self.entries.len()
    }

    /// Whether there is no entry.
    pub fn is_empty(&self) -> (b: bool)
        ensures
            b == (self@.len() == 0),
    {
        self.entries.len() == 0
    }

    /// The position of the entry with the given key.
    fn position(&self, key: &str) -> (r: Option<usize>)
        ensures
            unique_keys(self@),
            match r {
                Some(i) => i < self@.len() && self@[i as int].0 == key@ && has_key(self@, key@)
                    && key_position(self@, key@) == i,
                None => !has_key(self@, key@),
            },
    {
        proof {
            use_type_invariant(self);
        }
        let mut i: usize = 0;
        while i < self.entries.len()
            invariant
                i <= self.entries.len(),
                self.entries@.len() == self@.len(),
                unique_keys(self@),
                forall|j: int| 0 <= j < i ==> (#[trigger] self@[j]).0 != key@,
            decreases self.entries.len() - i,
        {
            if str_eq(self.entries[i].0.as_str(), key) {
                assert(self@[i as int].0 == key@);
                return Some(i);
            }
            i += 1;
        }
        None
    }

    /// The value stored under `key`, if any.
    pub fn get(&self, key: &str) -> (r: Option<&Value>)
        ensures
            unique_keys(self@),
            match r {
                Some(v) => lookup(self@, key@) == Some(v@) && decreases_to!(self => v),
                None => lookup(self@, key@) is None,
            },
    {
        match self.position(key) {
            Some(i) => Some(&self.entries[i].1),
            None => None,
        }
    }

    /// Whether some value is stored under `key`.
    pub fn contains_key(&self, key: &str) -> (b: bool)
        ensures
            b == has_key(self@, key@),
    {
        self.position(key).is_some()
    }

    /// Stores `value` under `key`, in place of the value that the key had
    /// before, if it had one.
    pub fn insert(&mut self, key: String, value: Value)
        ensures
            final(self)@ == inserted(old(self)@, key@, value@),
            unique_keys(old(self)@),
            unique_keys(final(self)@),
            forall|other: Seq<char>|
                lookup(final(self)@, other) == if other == key@ {
                    Some(value@)
                } else {
                    lookup(old(self)@, other)
                },
    {
        let found = self.position(key.as_str());
        proof {
            assert forall|other: Seq<char>|
                lookup(inserted(self@, key@, value@), other) == if other == key@ {
                    Some(value@)
                } else {
                    lookup(self@, other)
                } by {
                lookup_after_insert(self@, key@, value@, other);
            }
        }
        let mut taken = Object::new();
        core::mem::swap(self, &mut taken);
        let mut entries = taken.entries;
        match found {
            Some(i) => {
                entries.set(i, (key, value));
            },
            None => {
                entries.push((key, value));
            },
        }
        let ghost target = inserted(old(self)@, key@, value@);
        assert(Object { entries }@ =~= target);
        *self = Object { entries };
    }

    /// The entry at position `i` in insertion order, if there are that many.
    pub fn entry(&self, i: usize) -> (r: Option<(&str, &Value)>)
        ensures
            unique_keys(self@),
            match r {
                Some((k, v)) => i < self@.len() && self@[i as int] == (k@, v@) && decreases_to!(self => v),
                None => i >= self@.len(),
            },
    {
        proof {
            use_type_invariant(self);
        }
        if i < self.entries.len() {
            Some((self.entries[i].0.as_str(), &self.entries[i].1))
        } else {
            None
        }
    }
}


/// Appends `true` or `false` to `out`.
fn push_bool(out: &mut String, b: bool)
    ensures
        final(out)@ == old(out)@ + (if b { "true"@ } else { "false"@ }),
{
    if b {
        out.append("true");
    } else {
        out.append("false");
    }
}

impl Value {
    /// The empty string value.
    pub fn empty_string() -> (v: Value)
        ensures
            v@ == Data::String(Seq::empty()),
    {
        Value::String(String::new())
    }

    /// Whether the value counts as true in a condition.
    pub fn is_truthy(&self) -> (b: bool)
        ensures
            b == truthy(self@),
    {
        match self {
            Value::Integer(i) => *i != 0,
            Value::Float(f) => !check_zero(f.to_bits()) && !check_nan(f.to_bits()),
            Value::Bool(b) => *b,
            Value::String(s) => s.as_str().unicode_len() > 0,
            Value::Array(a) => a.len() > 0,
            Value::Object(o) => !o.is_empty(),
        }
    }

    /// Appends the text that shows the value in messages to `out`.
    pub fn push_display(&self, out: &mut String)
        ensures
            final(out)@ == old(out)@ + display(self@),
        decreases self,
    {
        match self {
            Value::Bool(b) => push_bool(out, *b),
            Value::Integer(i) => push_int(out, *i),
            Value::Float(f) => out.append(f.as_text()),
            Value::String(s) => {
                out.append("\"");
                out.append(s.as_str());
                out.append("\"");
            },
            Value::Array(a) => {
                out.append("[");
                push_display_items(a, out);
                out.append("]");
            },
            Value::Object(o) => {
                out.append("{");
                push_display_entries(o, out);
                out.append("}");
            },
        }
    }

    /// The text that shows the value in messages.
    pub fn to_string(&self) -> (s: String)
        ensures
            s@ == display(self@),
    {
        let mut s = String::new();
        self.push_display(&mut s);
        s
    }
}


/// Appends the items, each as [`display`] shows it, joined by `", "`.
fn push_display_items(items: &Vec<Value>, out: &mut String)
    ensures
        final(out)@ == old(out)@ + display_items(contents(items@), items@.len()),
    decreases items,
{
    let ghost start = out@;
    let mut i: usize = 0;
    while i < items.len()
        invariant
            i <= items.len(),
            out@ == start + display_items(contents(items@), i as nat),
        decreases items.len() - i,
    {
        if i > 0 {
            out.append(", ");
        }
        items[i].push_display(out);
        i += 1;
    }
}

/// Appends the entries, each as `key: value`, joined by `", "`.
fn push_display_entries(object: &Object, out: &mut String)
    ensures
        final(out)@ == old(out)@ + display_entries(object@, object@.len()),
    decreases object,
{
    let ghost start = out@;
    let mut i: usize = 0;
    while i < object.len()
        invariant
            i <= object@.len(),
            out@ == start + display_entries(object@, i as nat),
        decreases object@.len() - i,
    {
        if i > 0 {
            out.append(", ");
        }
        match object.entry(i) {
            Some((k, v)) => {
                out.append(k);
                out.append(": ");
                v.push_display(out);
            },
            None => {},
        }
        i += 1;
    }
}

/// The value of a run of decimal digits.
pub open spec fn digits_value(s: Seq<char>) -> nat
    decreases s.len(),
{
    if s.len() == 0 {
        0
    } else {
        (digits_value(s.drop_last()) * 10 + (s.last() as nat - 48)) as nat
    }
}

/// Whether every character is a decimal digit.
pub open spec fn all_digits(s: Seq<char>) -> bool {
    forall|i: int| 0 <= i < s.len() ==> '0' <= #[trigger] s[i] <= '9'
}

/// The index that a path segment stands for: one or more decimal digits,
/// with an optional plus sign in front.
pub open spec fn parse_index(s: Seq<char>) -> Option<nat> {
    let digits = if s.len() > 0 && s[0] == '+' {
        s.subrange(1, s.len() as int)
    } else {
        s
    };
    if digits.len() > 0 && all_digits(digits) {
        Some(digits_value(digits))
    } else {
        None
    }
}

/// One step of a path: into an object by key, into an array by index.
pub open spec fn step(d: Data, segment: Seq<char>) -> Option<Data> {
    match d {
        Data::Object(entries) => lookup(entries, segment),
        Data::Array(items) => match parse_index(segment) {
            Some(n) => if n < items.len() {
                Some(items[n as int])
            } else {
                None
            },
            None => None,
        },
        _ => None,
    }
}

/// The position of the last dot in `path`, or -1 if it has none.
pub open spec fn last_dot(path: Seq<char>) -> int
    decreases path.len(),
{
    if path.len() == 0 {
        -1
    } else if path.last() == '.' {
        path.len() - 1
    } else {
        last_dot(path.drop_last())
    }
}

/// The value that a dotted path leads to from `d`: the path is cut at its
/// dots, and each segment makes one [`step`] from the value that the segments
/// before it led to. Any step that fails makes the whole lookup fail.
pub open spec fn resolve(d: Data, path: Seq<char>) -> Option<Data>
    decreases path.len(),
{
    let dot = last_dot(path);
    if dot < 0 || dot >= path.len() {
        step(d, path)
    } else {
        match resolve(d, path.subrange(0, dot)) {
            Some(inner) => step(inner, path.subrange(dot + 1, path.len() as int)),
            None => None,
        }
    }
}

/// The last dot of a prefix that ends in a run without dots is the dot in
/// front of that run, or -1 if the run starts the path.
proof fn last_dot_of_extended(path: Seq<char>, dot: int, end: int)
    requires
        -1 <= dot < end <= path.len(),
        dot >= 0 ==> path[dot] == '.',
        forall|j: int| dot < j < end ==> path[j] != '.',
    ensures
        last_dot(path.subrange(0, end)) == dot,
    decreases end - dot,
{
    let prefix = path.subrange(0, end);
    if end == dot + 1 {
        if dot >= 0 {
            assert(prefix.last() == '.');
        } else {
            assert(prefix.len() == 0);
        }
    } else {
        assert(prefix.last() == path[end - 1]);
        assert(prefix.drop_last() =~= path.subrange(0, end - 1));
        last_dot_of_extended(path, dot, end - 1);
    }
}

impl Value {
    /// The value under `key`, if this is an object that has the key.
    pub fn get(&self, key: &str) -> (r: Option<&Value>)
        ensures
            match r {
                Some(v) => self@ matches Data::Object(entries) && lookup(entries, key@) == Some(v@),
                None => self@ matches Data::Object(entries) ==> lookup(entries, key@) is None,
            },
    {
        match self {
            Value::Object(o) => o.get(key),
            _ => None,
        }
    }

    /// One step of a path: into an object by key, into an array by index.
    #[verifier::loop_isolation(false)]
    fn get_by_key(&self, key: &Vec<char>, from: usize, to: usize) -> (r: Option<&Value>)
        requires
            from <= to <= key@.len(),
        ensures
            match r {
                Some(v) => step(self@, key@.subrange(from as int, to as int)) == Some(v@),
                None => step(self@, key@.subrange(from as int, to as int)) is None,
            },
    {
        let ghost segment = key@.subrange(from as int, to as int);
        match self {
            Value::Object(o) => {
                let k = crate::text::string_of(key, from, to);
                o.get(k.as_str())
            },
            Value::Array(a) => {
                let start: usize = if from < to && key[from] == '+' {
                    from + 1
                } else {
                    from
                };
                let ghost digits = key@.subrange(start as int, to as int);
                assert(digits =~= if segment.len() > 0 && segment[0] == '+' {
                    segment.subrange(1, segment.len() as int)
                } else {
                    segment
                });
                if start == to {
                    return None;
                }
                let len: usize = a.len();
                let mut index: usize = 0;
                let mut i: usize = start;
                while i < to
                    invariant
                        start <= i <= to <= key@.len(),
                        len == a@.len(),
                        digits == key@.subrange(start as int, to as int),
                        all_digits(key@.subrange(start as int, i as int)),
                        index <= len,
                        index == if digits_value(key@.subrange(start as int, i as int)) < len {
                            digits_value(key@.subrange(start as int, i as int))
                        } else {
                            len as nat
                        },
                    decreases to - i,
                {
                    let c = key[i];
                    let ghost before = key@.subrange(start as int, i as int);
                    let ghost after = key@.subrange(start as int, i + 1);
                    assert(after.drop_last() =~= before);
                    assert(after.last() == c);
                    if c < '0' || c > '9' {
                        assert(digits[i - start] == c);
                        assert(!all_digits(digits));
                        return None;
                    }
                    let digit: u128 = (c as u32 - 48) as u128;
                    let next: u128 = (index as u128) * 10 + digit;
                    index = if next < len as u128 {
                        next as usize
                    } else {
                        len
                    };
                    assert(all_digits(after)) by {
                        assert forall|j: int| 0 <= j < after.len() implies '0' <= #[trigger] after[j]
                            <= '9' by {
                            if j < before.len() {
                                assert(before[j] == after[j]);
                            }
                        }
                    }
                    i += 1;
                }
                assert(key@.subrange(start as int, to as int) == digits);
                if index < len {
                    Some(&a[index])
                } else {
                    None
                }
            },
            _ => None,
        }
    }

    /// The value that the dotted path leads to, if every segment resolves.
    pub fn pointer(&self, pointer: &str) -> (r: Option<&Value>)
        ensures
            match r {
                Some(v) => resolve(self@, pointer@) == Some(v@),
                None => resolve(self@, pointer@) is None,
            },
    {
        let path = crate::text::to_chars(pointer);
        let mut current: &Value = self;
        let mut from: usize = 0;
        let mut i: usize = 0;
        let ghost mut dot: int = -1;
        while i < path.len()
            invariant
                path@ == pointer@,
                from <= i <= path@.len(),
                dot == from - 1,
                dot >= 0 ==> path@[dot] == '.',
                dot >= 0 ==> resolve(self@, path@.subrange(0, dot)) == Some(current@),
                dot < 0 ==> current@ == self@,
                forall|j: int| from <= j < i ==> path@[j] != '.',
            decreases path.len() - i,
        {
            if path[i] == '.' {
                proof {
                    last_dot_of_extended(path@, dot, i as int);
                    if dot >= 0 {
                        assert(path@.subrange(0, i as int).subrange(0, dot) =~= path@.subrange(
                            0,
                            dot,
                        ));
                    }
                    assert(path@.subrange(0, i as int).subrange(dot + 1, i as int) =~= path@.subrange(
                        from as int,
                        i as int,
                    ));
                }
                match current.get_by_key(&path, from, i) {
                    Some(next) => {
                        current = next;
                    },
                    None => {
                        proof {
                            resolve_fails_on(self@, path@, i as int);
                        }
                        return None;
                    },
                }
                from = i + 1;
                proof {
                    dot = i as int;
                }
            }
            i += 1;
        }
        proof {
            last_dot_of_extended(path@, dot, path@.len() as int);
            assert(path@.subrange(0, path@.len() as int) =~= path@);
        }
        current.get_by_key(&path, from, path.len())
    }
}

/// Once the path up to a dot fails to resolve, the whole path does.
proof fn resolve_fails_on(d: Data, path: Seq<char>, dot: int)
    requires
        0 <= dot < path.len(),
        path[dot] == '.',
        resolve(d, path.subrange(0, dot)) is None,
    ensures
        resolve(d, path) is None,
    decreases path.len(),
{
    let last = last_dot(path);
    last_dot_bounds(path);
    last_dot_is_last(path, dot);
    if last == dot {
    } else {
        let shorter = path.subrange(0, last);
        assert(shorter.subrange(0, dot) =~= path.subrange(0, dot));
        resolve_fails_on(d, shorter, dot);
    }
}

/// The last dot is a dot inside the path, or -1.
proof fn last_dot_bounds(path: Seq<char>)
    ensures
        -1 <= last_dot(path) < path.len(),
        last_dot(path) >= 0 ==> path[last_dot(path)] == '.',
    decreases path.len(),
{
    if path.len() > 0 && path.last() != '.' {
        last_dot_bounds(path.drop_last());
    }
}

/// No dot lies behind the last dot.
proof fn last_dot_is_last(path: Seq<char>, dot: int)
    requires
        0 <= dot < path.len(),
        path[dot] == '.',
    ensures
        dot <= last_dot(path),
    decreases path.len(),
{
    if path.last() != '.' {
        last_dot_is_last(path.drop_last(), dot);
    }
}


/// A copy of each value, in order.
pub fn clone_values(values: &Vec<Value>) -> (copy: Vec<Value>)
    ensures
        contents(copy@) == contents(values@),
    decreases values,
{
    let mut copy: Vec<Value> = Vec::new();
    let mut i: usize = 0;
    while i < values.len()
        invariant
            i <= values.len(),
            copy@.len() == i,
            forall|j: int| 0 <= j < i ==> (#[trigger] copy@[j])@ == values@[j]@,
        decreases values.len() - i,
    {
        copy.push(values[i].clone());
        i += 1;
    }
    assert(contents(copy@) =~= contents(values@));
    copy
}

impl Clone for Object {
    fn clone(&self) -> (copy: Object)
        ensures
            copy@ == self@,
        decreases self,
    {
        proof {
            use_type_invariant(self);
        }
        let mut entries: Vec<(String, Value)> = Vec::new();
        let mut i: usize = 0;
        while i < self.len()
            invariant
                i <= self@.len(),
                entries@.len() == i,
                unique_keys(self@),
                forall|j: int|
                    0 <= j < i ==> (#[trigger] entries@[j]).0@ == self@[j].0 && entries@[j].1@
                        == self@[j].1,
            decreases self@.len() - i,
        {
            match self.entry(i) {
                Some((k, v)) => {
                    entries.push((k.to_owned(), v.clone()));
                },
                None => {},
            }
            i += 1;
        }
        assert(Object { entries }@ =~= self@);
        Object { entries }
    }
}

impl Clone for Value {
    fn clone(&self) -> (copy: Value)
        ensures
            copy@ == self@,
        decreases self,
    {
        match self {
            Value::Bool(b) => Value::Bool(*b),
            Value::Integer(i) => Value::Integer(*i),
            Value::Float(f) => Value::Float(f.clone()),
            Value::String(s) => Value::String(s.clone()),
            Value::Array(a) => Value::Array(clone_values(a)),
            Value::Object(o) => Value::Object(o.clone()),
        }
    }
}

/// Whether two sequences of values are equal item by item.
fn same_items(a: &Vec<Value>, b: &Vec<Value>) -> (r: bool)
    ensures
        r == same(Data::Array(contents(a@)), Data::Array(contents(b@))),
    decreases a,
{
    if a.len() != b.len() {
        return false;
    }
    let mut i: usize = 0;
    while i < a.len()
        invariant
            i <= a.len(),
            a.len() == b.len(),
            forall|j: int| 0 <= j < i ==> same(#[trigger] contents(a@)[j], contents(b@)[j]),
        decreases a.len() - i,
    {
        if !a[i].same_as(&b[i]) {
            assert(!same(contents(a@)[i as int], contents(b@)[i as int]));
            return false;
        }
        i += 1;
    }
    true
}

/// Whether two objects hold equal values under the same keys.
fn same_entries(a: &Object, b: &Object) -> (r: bool)
    ensures
        r == same(Data::Object(a@), Data::Object(b@)),
    decreases a,
{
    if a.len() != b.len() {
        return false;
    }
    let mut i: usize = 0;
    while i < a.len()
        invariant
            i <= a@.len(),
            a@.len() == b@.len(),
            forall|j: int|
                0 <= j < i ==> has_key(b@, (#[trigger] a@[j]).0) && same(
                    a@[j].1,
                    b@[key_position(b@, a@[j].0)].1,
                ),
        decreases a@.len() - i,
    {
        match a.entry(i) {
            Some((k, v)) => {
                match b.get(k) {
                    Some(w) => {
                        if !v.same_as(w) {
                            assert(!same(a@[i as int].1, b@[key_position(b@, a@[i as int].0)].1));
                            return false;
                        }
                    },
                    None => {
                        assert(!has_key(b@, a@[i as int].0));
                        return false;
                    },
                }
            },
            None => {},
        }
        i += 1;
    }
    true
}

impl Value {
    /// Whether the two values are equal, as [`same`] defines it.
    pub fn same_as(&self, other: &Value) -> (r: bool)
        ensures
            r == same(self@, other@),
        decreases self,
    {
        match (self, other) {
            (Value::Bool(x), Value::Bool(y)) => *x == *y,
            (Value::Integer(x), Value::Integer(y)) => *x == *y,
            (Value::Float(x), Value::Float(y)) => check_numbers_equal(x.to_bits(), y.to_bits()),
            (Value::String(x), Value::String(y)) => str_eq(x.as_str(), y.as_str()),
            (Value::Array(x), Value::Array(y)) => same_items(x, y),
            (Value::Object(x), Value::Object(y)) => same_entries(x, y),
            _ => false,
        }
    }
}


impl PartialEq for Object {
    fn eq(&self, other: &Object) -> (r: bool) {
        same_entries(self, other)
    }
}

impl PartialEqSpecImpl for Object {
    open spec fn obeys_eq_spec() -> bool {
        true
    }

    open spec fn eq_spec(&self, other: &Object) -> bool {
        same(Data::Object(self@), Data::Object(other@))
    }
}

impl PartialEq for Value {
    fn eq(&self, other: &Value) -> (r: bool) {
        self.same_as(other)
    }
}

impl PartialEqSpecImpl for Value {
    open spec fn obeys_eq_spec() -> bool {
        true
    }

    open spec fn eq_spec(&self, other: &Value) -> bool {
        same(self@, other@)
    }
}

impl Value {
    /// The integer, or a `TypeMismatch` error if the value is not an integer.
    pub fn try_integer(&self) -> (r: Result<i64, Error>)
        ensures
            match r {
                Ok(i) => self@ == Data::Integer(i as int),
                Err(e) => !(self@ is Integer) && e.kind == ErrorKind::TypeMismatch && e.message@
                    == message_about("expected integer number got "@, self@, ""@),
            },
    {
        match self {
            Value::Integer(i) => Ok(*i),
            val => {
                Err(Error::about(ErrorKind::TypeMismatch, "expected integer number got ", val, ""))
            },
        }
    }

    /// The float, or a `TypeMismatch` error if the value is not a float.
    pub fn try_float(&self) -> (r: Result<&Float, Error>)
        ensures
            match r {
                Ok(f) => self@ == (Data::Float { bits: f.bits(), text: f.text() }),
                Err(e) => !(self@ is Float) && e.kind == ErrorKind::TypeMismatch && e.message@
                    == message_about("expected float number got "@, self@, ""@),
            },
    {
        match self {
            Value::Float(f) => Ok(f),
            val => {
                Err(Error::about(ErrorKind::TypeMismatch, "expected float number got ", val, ""))
            },
        }
    }

    /// The boolean, or a `TypeMismatch` error if the value is not a boolean.
    pub fn try_bool(&self) -> (r: Result<bool, Error>)
        ensures
            match r {
                Ok(b) => self@ == Data::Bool(b),
                Err(e) => !(self@ is Bool) && e.kind == ErrorKind::TypeMismatch && e.message@
                    == message_about("expected boolean got "@, self@, ""@),
            },
    {
        match self {
            Value::Bool(b) => Ok(*b),
            val => Err(Error::about(ErrorKind::TypeMismatch, "expected boolean got ", val, "")),
        }
    }

    /// The string, or a `TypeMismatch` error if the value is not a string.
    pub fn try_str(&self) -> (r: Result<&str, Error>)
        ensures
            match r {
                Ok(s) => self@ == Data::String(s@),
                Err(e) => !(self@ is String) && e.kind == ErrorKind::TypeMismatch && e.message@
                    == message_about("expected string got "@, self@, ""@),
            },
    {
        match self {
            Value::String(s) => Ok(s.as_str()),
            val => Err(Error::about(ErrorKind::TypeMismatch, "expected string got ", val, "")),
        }
    }

    /// The items, or a `TypeMismatch` error if the value is not an array.
    pub fn try_array(&self) -> (r: Result<&Vec<Value>, Error>)
        ensures
            match r {
                Ok(a) => self@ == Data::Array(contents(a@)) && *self == Value::Array(*a),
                Err(e) => !(self@ is Array) && e.kind == ErrorKind::TypeMismatch && e.message@
                    == message_about("expected array got "@, self@, ""@),
            },
    {
        match self {
            Value::Array(a) => Ok(a),
            val => Err(Error::about(ErrorKind::TypeMismatch, "expected array got ", val, "")),
        }
    }

    /// The object, or a `TypeMismatch` error if the value is not an object.
    pub fn try_object(&self) -> (r: Result<&Object, Error>)
        ensures
            match r {
                Ok(o) => self@ == Data::Object(o@),
                Err(e) => !(self@ is Object) && e.kind == ErrorKind::TypeMismatch && e.message@
                    == message_about("expected object got "@, self@, ""@),
            },
    {
        match self {
            Value::Object(o) => Ok(o),
            val => Err(Error::about(ErrorKind::TypeMismatch, "expected object got ", val, "")),
        }
    }
}

/// The segments joined by dots.
pub open spec fn join_dots(segments: Seq<Seq<char>>) -> Seq<char>
    decreases segments.len(),
{
    if segments.len() == 0 {
        Seq::empty()
    } else if segments.len() == 1 {
        segments[0]
    } else {
        join_dots(segments.drop_last()) + seq!['.'] + segments.last()
    }
}

/// The value reached from `d` by one [`step`] per segment, in order.
pub open spec fn walk(d: Data, segments: Seq<Seq<char>>) -> Option<Data>
    decreases segments.len(),
{
    if segments.len() == 0 {
        Some(d)
    } else {
        match walk(d, segments.drop_last()) {
            Some(inner) => step(inner, segments.last()),
            None => None,
        }
    }
}

/// A path of one or more segments joined by dots leads to the value that the
/// segments lead to one after the other: the deeply nested value if every
/// segment resolves, and nothing as soon as one segment fails.
pub proof fn pointer_follows_segments(d: Data, segments: Seq<Seq<char>>)
    requires
        segments.len() >= 1,
        forall|i: int, j: int|
            0 <= i < segments.len() && 0 <= j < segments[i].len() ==> segments[i][j] != '.',
    ensures
        resolve(d, join_dots(segments)) == walk(d, segments),
    decreases segments.len(),
{
    let path = join_dots(segments);
    let last = segments.last();
    if segments.len() == 1 {
        assert(segments.drop_last().len() == 0);
        assert(walk(d, segments.drop_last()) == Some(d));
        last_dot_of_extended(path, -1, path.len() as int);
        assert(path.subrange(0, path.len() as int) =~= path);
        assert(last_dot(path) == -1);
        assert(resolve(d, path) == step(d, path));
    } else {
        let front = segments.drop_last();
        let joined = join_dots(front);
        pointer_follows_segments(d, front);
        assert forall|j: int| joined.len() < j < path.len() implies path[j] != '.' by {
            assert(path[j] == last[j - joined.len() - 1]);
        }
        assert(path[joined.len() as int] == '.');
        last_dot_of_extended(path, joined.len() as int, path.len() as int);
        assert(path.subrange(0, path.len() as int) =~= path);
        assert(last_dot(path) == joined.len());
        assert(path.subrange(0, joined.len() as int) =~= joined);
        assert(path.subrange(joined.len() as int + 1, path.len() as int) =~= last);
        assert(resolve(d, path) == match resolve(d, joined) {
            Some(inner) => step(inner, last),
            None => None,
        });
    }
}


/// After storing a value under a key, that key leads to the value and every
/// other key leads to what it led to before.
pub proof fn lookup_after_insert(
    entries: Seq<(Seq<char>, Data)>,
    key: Seq<char>,
    value: Data,
    other: Seq<char>,
)
    requires
        unique_keys(entries),
    ensures
        unique_keys(inserted(entries, key, value)),
        lookup(inserted(entries, key, value), other) == if other == key {
            Some(value)
        } else {
            lookup(entries, other)
        },
{
    let after = inserted(entries, key, value);
    if has_key(entries, key) {
        let at = key_position(entries, key);
        assert forall|i: int, j: int| 0 <= i < j < after.len() implies (#[trigger] after[i]).0 != (
        #[trigger] after[j]).0 by {
            assert(after[i].0 == entries[i].0 && after[j].0 == entries[j].0);
        }
        if other == key {
            assert(after[at].0 == key);
            let found = key_position(after, other);
            assert(after[found].0 == entries[found].0);
        } else if has_key(entries, other) {
            let old_at = key_position(entries, other);
            assert(after[old_at].0 == other);
            let found = key_position(after, other);
            assert(after[found].0 == entries[found].0);
        } else {
            if has_key(after, other) {
                let found = key_position(after, other);
                assert(entries[found].0 == other);
            }
        }
    } else {
        assert forall|i: int, j: int| 0 <= i < j < after.len() implies (#[trigger] after[i]).0 != (
        #[trigger] after[j]).0 by {
            if j == entries.len() {
                assert(entries[i].0 != key);
            } else {
                assert(after[i] == entries[i] && after[j] == entries[j]);
            }
        }
        if other == key {
            assert(after[entries.len() as int].0 == key);
            let found = key_position(after, other);
            if found < entries.len() {
                assert(entries[found].0 == key);
            }
        } else if has_key(entries, other) {
            let old_at = key_position(entries, other);
            assert(after[old_at].0 == other);
            let found = key_position(after, other);
            assert(after[found] == entries[found]);
        } else {
            if has_key(after, other) {
                let found = key_position(after, other);
                assert(entries[found].0 == other);
            }
        }
    }
}


/// The number that a value is, if it is one.
pub open spec fn number_of(d: Data) -> Option<Number> {
    match d {
        Data::Integer(i) => Some(Number::Integer(i as i64)),
        Data::Float { bits, .. } => Some(Number::Float(bits)),
        _ => None,
    }
}

impl Value {
    /// The value as a number, if it is an integer or a float.
    pub fn to_number(&self) -> (r: Result<Number, ()>)
        ensures
            match r {
                Ok(n) => number_of(self@) == Some(n),
                Err(_) => number_of(self@) is None,
            },
    {
        match self {
            Value::Integer(i) => Ok(Number::Integer(*i)),
            Value::Float(f) => Ok(Number::Float(f.to_bits())),
            _ => Err(()),
        }
    }
}


impl Value {
    /// The boolean, if the value is one.
    pub fn as_bool(&self) -> (r: Option<bool>)
        ensures
            match r {
                Some(b) => self@ == Data::Bool(b),
                None => !(self@ is Bool),
            },
    {
        match self {
            Value::Bool(b) => Some(*b),
            _ => None,
        }
    }

    /// The integer, if the value is one.
    pub fn as_integer(&self) -> (r: Option<i64>)
        ensures
            match r {
                Some(i) => self@ == Data::Integer(i as int),
                None => !(self@ is Integer),
            },
    {
        match self {
            Value::Integer(i) => Some(*i),
            _ => None,
        }
    }

    /// The float, if the value is one.
    pub fn as_float(&self) -> (r: Option<&Float>)
        ensures
            match r {
                Some(f) => self@ == (Data::Float { bits: f.bits(), text: f.text() }),
                None => !(self@ is Float),
            },
    {
        match self {
            Value::Float(f) => Some(f),
            _ => None,
        }
    }

    /// The string, if the value is one.
    pub fn as_str(&self) -> (r: Option<&str>)
        ensures
            match r {
                Some(s) => self@ == Data::String(s@),
                None => !(self@ is String),
            },
    {
        match self {
            Value::String(s) => Some(s.as_str()),
            _ => None,
        }
    }

    /// The items, if the value is an array.
    pub fn as_array(&self) -> (r: Option<&Vec<Value>>)
        ensures
            match r {
                Some(a) => self@ == Data::Array(contents(a@)),
                None => !(self@ is Array),
            },
    {
        match self {
            Value::Array(a) => Some(a),
            _ => None,
        }
    }

    /// The object, if the value is one.
    pub fn as_object(&self) -> (r: Option<&Object>)
        ensures
            match r {
                Some(o) => self@ == Data::Object(o@),
                None => !(self@ is Object),
            },
    {
        match self {
            Value::Object(o) => Some(o),
            _ => None,
        }
    }
}


/// Equality across representations, for values that can be compared: two
/// strings are equal when they are the same text, and two numbers, integer or
/// float, when they are the same number, so that the integer 2 equals the
/// float 2.0. For any other pair of values this equality is not defined.
pub open spec fn loosely_equal(a: Data, b: Data) -> Option<bool> {
    match (a, b) {
        (Data::String(x), Data::String(y)) => Some(x == y),
        _ => match (number_of(a), number_of(b)) {
            (Some(x), Some(y)) => Some(x.compared_with(y) == Some(Comparison::Equal)),
            _ => None,
        },
    }
}

impl Value {
    /// Whether the two values are equal across representations, if they can
    /// be compared in that way.
    pub fn eq_loosely(&self, other: &Value) -> (r: Option<bool>)
        ensures
            r == loosely_equal(self@, other@),
    {
        match (self, other) {
            (Value::String(x), Value::String(y)) => Some(str_eq(x.as_str(), y.as_str())),
            _ => match (self.to_number(), other.to_number()) {
                (Ok(x), Ok(y)) => Some(x.eq(&y)),
                _ => None,
            },
        }
    }
}

} // verus!
