//! The state of one `for` loop.

use vstd::prelude::*;
use crate::text::str_eq;
use crate::value::{contents, Data, Object, Value};

verus! {

/// The mathematical content of a [`ForLoop`].
pub struct LoopData {
    /// The name that the loop gives to the current key, when it iterates
    /// over key/value pairs.
    pub key_name: Option<Seq<char>>,
    /// The name that the loop gives to the current value.
    pub value_name: Seq<char>,
    /// The zero-based position of the current iteration.
    pub current: nat,
    /// The key of each pair, when the loop iterates over key/value pairs.
    pub keys: Option<Seq<Seq<char>>>,
    /// The value of each iteration.
    pub values: Seq<Data>,
}

/// The state of one `for` loop: what it iterates over, under which names,
/// and how far it has come.
#[derive(Debug)]
pub struct ForLoop {
    key_name: Option<String>,
    value_name: String,
    current: usize,
    keys: Option<Vec<String>>,
    values: Vec<Value>,
}

/// The characters of each string.
pub open spec fn texts(strings: Seq<String>) -> Seq<Seq<char>> {
    Seq::new(strings.len(), |i: int| strings[i]@)
}

/// The keys of the entries, in order.
pub open spec fn entry_keys(entries: Seq<(Seq<char>, Data)>) -> Seq<Seq<char>> {
    Seq::new(entries.len(), |i: int| entries[i].0)
}

/// The values of the entries, in order.
pub open spec fn entry_values(entries: Seq<(Seq<char>, Data)>) -> Seq<Data> {
    Seq::new(entries.len(), |i: int| entries[i].1)
}

impl ForLoop {
    /// The mathematical content of the loop state.
    pub closed spec fn view(&self) -> LoopData {
        LoopData {
            key_name: match self.key_name {
                Some(name) => Some(name@),
                None => None,
            },
            value_name: self.value_name@,
            current: self.current as nat,
            keys: match self.keys {
                Some(keys) => Some(texts(keys@)),
                None => None,
            },
            values: contents(self.values@),
        }
    }

    #[verifier::type_invariant]
    spec fn well_formed(&self) -> bool {
        &&& self.current <= self.values@.len() < i64::MAX
        &&& self.keys matches Some(keys) ==> keys@.len() == self.values@.len()
        &&& self.keys is Some <==> self.key_name is Some
    }

    /// Whether the content is that of a loop state: the position is not past
    /// the end, every position fits an integer value, and there is a key for
    /// each value exactly when the loop names its keys.
    pub open spec fn valid(data: LoopData) -> bool {
        &&& data.current <= data.values.len() < i64::MAX
        &&& data.keys matches Some(keys) ==> keys.len() == data.values.len()
        &&& data.keys is Some <==> data.key_name is Some
    }

    /// A loop over the items of an array, at its first iteration.
    pub fn from_array(value_name: &str, values: Vec<Value>) -> (l: ForLoop)
        requires
            values@.len() < i64::MAX,
        ensures
            l@ == (LoopData {
                key_name: None,
                value_name: value_name@,
                current: 0,
                keys: None,
                values: contents(values@),
            }),
    {
        ForLoop {
            key_name: None,
            value_name: value_name.to_owned(),
            current: 0,
            keys: None,
            values,
        }
    }

    /// A loop over the entries of an object, at its first iteration.
    pub fn from_object(key_name: &str, value_name: &str, object: &Object) -> (l: ForLoop)
        requires
            object@.len() < i64::MAX,
        ensures
            l@ == (LoopData {
                key_name: Some(key_name@),
                value_name: value_name@,
                current: 0,
                keys: Some(entry_keys(object@)),
                values: entry_values(object@),
            }),
    {
        let mut keys: Vec<String> = Vec::new();
        let mut values: Vec<Value> = Vec::new();
        let count = object.len();
        let mut i: usize = 0;
        while i < count
            invariant
                i <= count == object@.len(),
                keys@.len() == i,
                values@.len() == i,
                forall|j: int| 0 <= j < i ==> (#[trigger] keys@[j])@ == object@[j].0,
                forall|j: int| 0 <= j < i ==> (#[trigger] values@[j])@ == object@[j].1,
            decreases count - i,
        {
            match object.entry(i) {
                Some((k, v)) => {
                    keys.push(k.to_owned());
                    values.push(v.clone());
                },
                None => {},
            }
            i += 1;
        }
        assert(texts(keys@) =~= entry_keys(object@));
        assert(contents(values@) =~= entry_values(object@));
        ForLoop {
            key_name: Some(key_name.to_owned()),
            value_name: value_name.to_owned(),
            current: 0,
            keys: Some(keys),
            values,
        }
    }

    /// Moves on to the next iteration; a loop that is past its last
    /// iteration stays where it is.
    pub fn increment(&mut self)
        ensures
            final(self)@ == (LoopData {
                current: if old(self)@.current < old(self)@.values.len() {
                    old(self)@.current + 1
                } else {
                    old(self)@.current
                },
                ..old(self)@
            }),
    {
        proof {
            use_type_invariant(&*self);
        }
        if self.current < self.values.len() {
            self.current = self.current + 1;
        }
    }

    /// The zero-based position of the current iteration.
    pub fn current(&self) -> (n: usize)
        ensures
            n == self@.current,
            Self::valid(self@),
    {
        proof {
            use_type_invariant(self);
        }
        self.current
    }

    /// The number of iterations.
    pub fn len(&self) -> (n: usize)
        ensures
            n == self@.values.len(),
            Self::valid(self@),
    {
        proof {
            use_type_invariant(self);
        }
        self.values.len()
    }

    /// The one-based position of the current iteration.
    pub fn index(&self) -> (n: i64)
        ensures
            n == self@.current + 1,
    {
        proof {
            use_type_invariant(self);
        }
        (self.current as i64) + 1
    }

    /// Whether the current iteration is the first.
    pub fn first(&self) -> (b: bool)
        ensures
            b == (self@.current == 0),
    {
        self.current == 0
    }

    /// Whether the current iteration is the last.
    pub fn last(&self) -> (b: bool)
        ensures
            b == (self@.current + 1 == self@.values.len()),
    {
        proof {
            use_type_invariant(self);
        }
        self.current < self.values.len() && self.current == self.values.len() - 1
    }

    /// Whether the loop iterates over key/value pairs.
    pub fn is_key_value(&self) -> (b: bool)
        ensures
            b == self@.key_name is Some,
    {
        self.key_name.is_some()
    }

    /// Whether `name` is the name that the loop gives to its keys.
    pub fn is_key(&self, name: &str) -> (b: bool)
        ensures
            b == (self@.key_name == Some(name@)),
    {
        match &self.key_name {
            Some(key_name) => str_eq(key_name.as_str(), name),
            None => false,
        }
    }

    /// The name that the loop gives to the current value.
    pub fn value_name(&self) -> (name: &str)
        ensures
            name@ == self@.value_name,
    {
        self.value_name.as_str()
    }

    /// The key of the current iteration, if the loop iterates over key/value
    /// pairs and is not past its last iteration.
    pub fn get_current_key(&self) -> (r: Option<&str>)
        ensures
            match r {
                Some(k) => self@.keys matches Some(keys) && self@.current < keys.len()
                    && keys[self@.current as int] == k@,
                None => self@.keys is None || self@.current >= self@.values.len(),
            },
    {
        proof {
            use_type_invariant(self);
        }
        match &self.keys {
            Some(keys) => {
                if self.current < keys.len() {
                    Some(keys[self.current].as_str())
                } else {
                    None
                }
            },
            None => None,
        }
    }

    /// The value of the current iteration, if the loop is not past its last
    /// iteration.
    pub fn get_current_value(&self) -> (r: Option<&Value>)
        ensures
            match r {
                Some(v) => self@.current < self@.values.len() && self@.values[self@.current as int]
                    == v@,
                None => self@.current >= self@.values.len(),
            },
    {
        if self.current < self.values.len() {
            Some(&self.values[self.current])
        } else {
            None
        }
    }
}

} // verus!
