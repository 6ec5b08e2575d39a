//! The sort engine: one strategy per kind of key, and a stable sort by key.

use vstd::prelude::*;
use vstd::std_specs::cmp::PartialEqSpecImpl;
use vstd::string::StringExecFns;
use crate::errors::{message_about, Error, ErrorKind, Failure};
use crate::number::{
    check_finite, compare_floats, compare_int_with_float, is_finite, lemma_scaling_keeps_order,
    scaled_float, scaled_int, Comparison,
};
use crate::text::{chars_le, text_le, text_le_total, text_le_transitive, to_chars};
use crate::value::{contents, Data, Value};

verus! {

/// What a sort compares: the mathematical content of a sort key.
pub enum KeyData {
    /// A boolean; false comes before true.
    Bool(bool),
    /// A number, integer or float, multiplied by two to the power 1074.
    Number(int),
    /// A string, in dictionary order.
    Text(Seq<char>),
    /// The length of an array.
    Length(nat),
}

/// The four kinds of key, one per sort strategy.
#[derive(Clone, Copy, Debug, PartialEq, Eq, Structural)]
pub enum SortKind {
    Bool,
    Number,
    Text,
    Length,
}

/// The kind of a key.
pub open spec fn kind_of(k: KeyData) -> SortKind {
    match k {
        KeyData::Bool(_) => SortKind::Bool,
        KeyData::Number(_) => SortKind::Number,
        KeyData::Text(_) => SortKind::Text,
        KeyData::Length(_) => SortKind::Length,
    }
}

/// A number for each kind, to order keys of different kinds.
pub open spec fn kind_rank(k: KeyData) -> int {
    match k {
        KeyData::Bool(_) => 0,
        KeyData::Number(_) => 1,
        KeyData::Text(_) => 2,
        KeyData::Length(_) => 3,
    }
}

/// Whether key `a` comes before key `b` or ties with it.
pub open spec fn key_le(a: KeyData, b: KeyData) -> bool {
    match (a, b) {
        (KeyData::Bool(x), KeyData::Bool(y)) => !x || y,
        (KeyData::Number(x), KeyData::Number(y)) => x <= y,
        (KeyData::Text(x), KeyData::Text(y)) => text_le(x, y),
        (KeyData::Length(x), KeyData::Length(y)) => x <= y,
        _ => kind_rank(a) < kind_rank(b),
    }
}

/// Of any two keys, one comes before the other or they tie.
pub proof fn key_le_total(a: KeyData, b: KeyData)
    ensures
        key_le(a, b) || key_le(b, a),
{
    match (a, b) {
        (KeyData::Text(x), KeyData::Text(y)) => text_le_total(x, y),
        _ => {},
    }
}

/// The order of keys is transitive.
pub proof fn key_le_transitive(a: KeyData, b: KeyData, c: KeyData)
    requires
        key_le(a, b),
        key_le(b, c),
    ensures
        key_le(a, c),
{
    match (a, b, c) {
        (KeyData::Text(x), KeyData::Text(y), KeyData::Text(z)) => text_le_transitive(x, y, z),
        _ => {},
    }
}

/// Whether the item at position `i` must stand before the item at position
/// `j` once sorted: its key comes first, or the keys tie and it stood first.
pub open spec fn comes_before(keys: Seq<KeyData>, i: int, j: int) -> bool {
    key_le(keys[i], keys[j]) && (!key_le(keys[j], keys[i]) || i < j)
}

/// Whether `order` lists the positions `0..keys.len()` as a stable sort by
/// key arranges them: every position once, keys never decreasing, and items
/// with tying keys in the order in which they stood.
pub open spec fn is_stable_order(order: Seq<int>, keys: Seq<KeyData>) -> bool {
    &&& order.len() == keys.len()
    &&& forall|p: int| 0 <= p < order.len() ==> 0 <= #[trigger] order[p] < keys.len()
    &&& forall|p: int, q: int|
        0 <= p < q < order.len() ==> comes_before(keys, #[trigger] order[p], #[trigger] order[q])
}

/// The items of `items` in the given order.
pub open spec fn picked<T>(items: Seq<T>, order: Seq<int>) -> Seq<T> {
    Seq::new(order.len(), |p: int| items[order[p]])
}

/// The key that a value sorts by: booleans, numbers and strings by
/// themselves, arrays by their length. Objects and floats that are not
/// finite have no key.
pub open spec fn sort_key(d: Data) -> Option<KeyData> {
    match d {
        Data::Bool(b) => Some(KeyData::Bool(b)),
        Data::Integer(i) => Some(KeyData::Number(scaled_int(i))),
        Data::Float { bits, .. } => if is_finite(bits) {
            Some(KeyData::Number(scaled_float(bits)))
        } else {
            None
        },
        Data::String(s) => Some(KeyData::Text(s)),
        Data::Array(items) => Some(KeyData::Length(items.len())),
        Data::Object(_) => None,
    }
}

/// Whether a value can never be a sort key, whatever the strategy: an
/// object, or a float that is not finite.
pub open spec fn unsortable(d: Data) -> bool {
    sort_key(d) is None
}

/// Whether a value is a key for the strategy of the given kind.
pub open spec fn conforms(kind: SortKind, d: Data) -> bool {
    sort_key(d) matches Some(k) && kind_of(k) == kind
}

/// The strategy that a first key selects: objects select none.
pub open spec fn kind_for(d: Data) -> Option<SortKind> {
    match d {
        Data::Bool(_) => Some(SortKind::Bool),
        Data::Integer(_) => Some(SortKind::Number),
        Data::Float { .. } => Some(SortKind::Number),
        Data::String(_) => Some(SortKind::Text),
        Data::Array(_) => Some(SortKind::Length),
        Data::Object(_) => None,
    }
}

/// What a strategy expects, as its error messages name it.
pub open spec fn expected_name(kind: SortKind) -> Seq<char> {
    match kind {
        SortKind::Bool => "expected boolean got "@,
        SortKind::Number => "expected number got "@,
        SortKind::Text => "expected string got "@,
        SortKind::Length => "expected array got "@,
    }
}

/// The message for a value that can never be a sort key.
pub open spec fn unsortable_message(d: Data) -> Seq<char> {
    match d {
        Data::Float { text, .. } => text + " cannot be sorted"@,
        _ => "Object is not a sortable value"@,
    }
}

/// The error for a value that is no key for the strategy of the given kind:
/// `NotSortable` for a value that is never a key, `TypeMismatch` otherwise.
pub open spec fn key_error(kind: SortKind, d: Data) -> Failure {
    if unsortable(d) {
        (ErrorKind::NotSortable, unsortable_message(d))
    } else {
        (ErrorKind::TypeMismatch, message_about(expected_name(kind), d, ""@))
    }
}

/// A finite float as a sort key.
#[derive(Clone, Copy, Debug)]
pub struct OrderedF64 {
    bits: u64,
}

impl PartialEq for OrderedF64 {
    fn eq(&self, other: &OrderedF64) -> (r: bool) {
        crate::number::check_numbers_equal(self.bits, other.bits)
    }
}

impl PartialEqSpecImpl for OrderedF64 {
    open spec fn obeys_eq_spec() -> bool {
        true
    }

    open spec fn eq_spec(&self, other: &OrderedF64) -> bool {
        crate::number::numbers_equal(self.bits(), other.bits())
    }
}

impl OrderedF64 {
    /// The bit pattern.
    pub closed spec fn bits(&self) -> u64 {
        self.bits
    }

    #[verifier::type_invariant]
    spec fn finite(&self) -> bool {
        is_finite(self.bits)
    }

    /// The key for the float with the given bit pattern and decimal text, or a
    /// `NotSortable` error if it is not finite.
    pub fn new(bits: u64, text: &str) -> (r: Result<OrderedF64, Error>)
        ensures
            match r {
                Ok(k) => is_finite(bits) && k.bits() == bits,
                Err(e) => !is_finite(bits) && e.kind == ErrorKind::NotSortable && e.message@ == text@
                    + " cannot be sorted"@,
            },
    {
        if check_finite(bits) {
            Ok(OrderedF64 { bits })
        } else {
            let mut message = String::from_str(text);
            message.append(" cannot be sorted");
            Err(Error { kind: ErrorKind::NotSortable, message })
        }
    }

    /// The bit pattern, which is that of a finite float.
    pub fn to_bits(&self) -> (bits: u64)
        ensures
            bits == self.bits(),
            is_finite(bits),
    {
        proof {
            use_type_invariant(self);
        }
        self.bits
    }
}

/// The length of an array as a sort key.
#[derive(Clone, Copy, Debug, Default, PartialEq, Eq, PartialOrd, Ord, Structural)]
pub struct ArrayLen(pub usize);

/// A key type: how a key of that type is got from a value.
pub trait GetSortKey: Sized {
    /// What a key of this type compares.
    spec fn key_data(&self) -> KeyData;

    /// Whether a value yields a key of this type.
    spec fn accepts(d: Data) -> bool;

    /// The key of `val`, or an error if `val` yields no key of this type.
    fn get_sort_key(val: &Value) -> (r: Result<Self, Error>)
        ensures
            match r {
                Ok(k) => Self::accepts(val@) && sort_key(val@) == Some(k.key_data()),
                Err(e) => !Self::accepts(val@),
            },
    ;
}

impl GetSortKey for i64 {
    open spec fn key_data(&self) -> KeyData {
        KeyData::Number(scaled_int(*self as int))
    }

    open spec fn accepts(d: Data) -> bool {
        d is Integer
    }

    fn get_sort_key(val: &Value) -> (r: Result<Self, Error>)
        ensures
            r matches Err(e) ==> e.kind == ErrorKind::TypeMismatch && e.message@ == message_about(
                "expected integer number got "@,
                val@,
                ""@,
            ),
    {
        val.try_integer()
    }
}

impl GetSortKey for OrderedF64 {
    open spec fn key_data(&self) -> KeyData {
        KeyData::Number(scaled_float(self.bits()))
    }

    open spec fn accepts(d: Data) -> bool {
        d matches Data::Float { bits, .. } && is_finite(bits)
    }

    fn get_sort_key(val: &Value) -> (r: Result<Self, Error>)
        ensures
            r matches Err(e) ==> (e.kind, e.message@) == (match val@ {
                Data::Float { text, .. } => (ErrorKind::NotSortable, text + " cannot be sorted"@),
                _ => (
                    ErrorKind::TypeMismatch,
                    message_about("expected float number got "@, val@, ""@),
                ),
            }),
    {
        let f = val.try_float()?;
        OrderedF64::new(f.to_bits(), f.as_text())
    }
}

impl GetSortKey for bool {
    open spec fn key_data(&self) -> KeyData {
        KeyData::Bool(*self)
    }

    open spec fn accepts(d: Data) -> bool {
        d is Bool
    }

    fn get_sort_key(val: &Value) -> (r: Result<Self, Error>)
        ensures
            r matches Err(e) ==> e.kind == ErrorKind::TypeMismatch && e.message@ == message_about(
                "expected boolean got "@,
                val@,
                ""@,
            ),
    {
        val.try_bool()
    }
}

impl GetSortKey for String {
    open spec fn key_data(&self) -> KeyData {
        KeyData::Text(self@)
    }

    open spec fn accepts(d: Data) -> bool {
        d is String
    }

    fn get_sort_key(val: &Value) -> (r: Result<Self, Error>)
        ensures
            r matches Err(e) ==> e.kind == ErrorKind::TypeMismatch && e.message@ == message_about(
                "expected string got "@,
                val@,
                ""@,
            ),
    {
        let s = val.try_str()?;
        Ok(s.to_owned())
    }
}

impl GetSortKey for ArrayLen {
    open spec fn key_data(&self) -> KeyData {
        KeyData::Length(self.0 as nat)
    }

    open spec fn accepts(d: Data) -> bool {
        d is Array
    }

    fn get_sort_key(val: &Value) -> (r: Result<Self, Error>)
        ensures
            r matches Err(e) ==> e.kind == ErrorKind::TypeMismatch && e.message@ == message_about(
                "expected array got "@,
                val@,
                ""@,
            ),
    {
        let arr = val.try_array()?;
        Ok(ArrayLen(arr.len()))
    }
}


/// A sort key of any kind.
#[derive(Debug)]
pub enum SortKey {
    Bool(bool),
    Integer(i64),
    Float(OrderedF64),
    Text(Vec<char>),
    Length(ArrayLen),
}

impl SortKey {
    /// What the key compares.
    pub open spec fn view(&self) -> KeyData {
        match self {
            SortKey::Bool(b) => KeyData::Bool(*b),
            SortKey::Integer(i) => KeyData::Number(scaled_int(*i as int)),
            SortKey::Float(f) => KeyData::Number(scaled_float(f.bits())),
            SortKey::Text(t) => KeyData::Text(t@),
            SortKey::Length(l) => KeyData::Length(l.0 as nat),
        }
    }

    /// The rank of the key's kind.
    fn rank(&self) -> (r: u8)
        ensures
            r == kind_rank(self@),
    {
        match self {
            SortKey::Bool(_) => 0,
            SortKey::Integer(_) => 1,
            SortKey::Float(_) => 1,
            SortKey::Text(_) => 2,
            SortKey::Length(_) => 3,
        }
    }

    /// Whether this key comes before the other or ties with it.
    pub fn le(&self, other: &SortKey) -> (r: bool)
        ensures
            r == key_le(self@, other@),
    {
        match (self, other) {
            (SortKey::Bool(x), SortKey::Bool(y)) => !*x || *y,
            (SortKey::Integer(x), SortKey::Integer(y)) => {
                proof {
                    vstd::arithmetic::power2::lemma_pow2_pos(1074);
                    lemma_scaling_keeps_order(
                        *x as int,
                        *y as int,
                        vstd::arithmetic::power2::pow2(1074) as int,
                    );
                }
                *x <= *y
            },
            (SortKey::Integer(x), SortKey::Float(y)) => {
                match compare_int_with_float(*x, y.to_bits()) {
                    Comparison::Greater => false,
                    _ => true,
                }
            },
            (SortKey::Float(x), SortKey::Integer(y)) => {
                match compare_int_with_float(*y, x.to_bits()) {
                    Comparison::Less => false,
                    _ => true,
                }
            },
            (SortKey::Float(x), SortKey::Float(y)) => {
                match compare_floats(x.to_bits(), y.to_bits()) {
                    Comparison::Greater => false,
                    _ => true,
                }
            },
            (SortKey::Text(x), SortKey::Text(y)) => chars_le(x, y),
            (SortKey::Length(x), SortKey::Length(y)) => x.0 <= y.0,
            _ => self.rank() < other.rank(),
        }
    }
}

/// What a strategy expects, as its error messages name it.
fn expected_prefix(kind: SortKind) -> (s: &'static str)
    ensures
        s@ == expected_name(kind),
{
    match kind {
        SortKind::Bool => "expected boolean got ",
        SortKind::Number => "expected number got ",
        SortKind::Text => "expected string got ",
        SortKind::Length => "expected array got ",
    }
}

/// The key of `key` for the strategy of the given kind, or the error that
/// says why it has none.
pub fn key_for(kind: SortKind, key: &Value) -> (r: Result<SortKey, Error>)
    ensures
        match r {
            Ok(k) => conforms(kind, key@) && sort_key(key@) == Some(k@),
            Err(e) => !conforms(kind, key@) && (e.kind, e.message@) == key_error(kind, key@),
        },
{
    match key {
        Value::Object(_) => {
            return Err(Error::new(ErrorKind::NotSortable, "Object is not a sortable value"));
        },
        Value::Float(f) => {
            match OrderedF64::new(f.to_bits(), f.as_text()) {
                Ok(k) => {
                    if kind == SortKind::Number {
                        return Ok(SortKey::Float(k));
                    }
                },
                Err(e) => {
                    return Err(e);
                },
            }
        },
        Value::Bool(b) => {
            if kind == SortKind::Bool {
                return Ok(SortKey::Bool(*b));
            }
        },
        Value::Integer(i) => {
            if kind == SortKind::Number {
                return Ok(SortKey::Integer(*i));
            }
        },
        Value::String(s) => {
            if kind == SortKind::Text {
                return Ok(SortKey::Text(to_chars(s.as_str())));
            }
        },
        Value::Array(a) => {
            if kind == SortKind::Length {
                return Ok(SortKey::Length(ArrayLen(a.len())));
            }
        },
    }
    Err(Error::about(ErrorKind::TypeMismatch, expected_prefix(kind), key, ""))
}

/// The values and keys collected for one sort.
#[derive(Debug)]
pub struct SortPairs {
    kind: SortKind,
    pairs: Vec<(Value, SortKey)>,
}

impl SortPairs {
    /// No pairs yet, for the strategy of the given kind.
    pub fn new(kind: SortKind) -> (pairs: SortPairs)
        ensures
            pairs.kind() == kind,
            pairs.values().len() == 0,
            pairs.keys().len() == 0,
    {
        SortPairs { kind, pairs: Vec::new() }
    }
}

/// A sort strategy: it collects values with their keys, holds every key to one
/// kind, and hands the values out sorted by key.
pub trait SortStrategy {
    /// The kind of key that the strategy takes.
    spec fn kind(&self) -> SortKind;

    /// The values added so far, in the order in which they were added.
    spec fn values(&self) -> Seq<Data>;

    /// The key of each value added so far.
    spec fn keys(&self) -> Seq<KeyData>;

    /// Adds `val` with the key got from `key`, or fails and changes nothing
    /// if `key` is no key for this strategy.
    fn try_add_pair(&mut self, val: &Value, key: &Value) -> (r: Result<(), Error>)
        ensures
            final(self).kind() == old(self).kind(),
            match r {
                Ok(_) => conforms(old(self).kind(), key@) && final(self).values() == old(
                    self,
                ).values().push(val@) && final(self).keys() == old(self).keys().push(
                    sort_key(key@)->0,
                ),
                Err(e) => !conforms(old(self).kind(), key@) && (e.kind, e.message@) == key_error(
                    old(self).kind(),
                    key@,
                ) && final(self).values() == old(self).values() && final(self).keys() == old(
                    self,
                ).keys(),
            },
    ;

    /// The values added so far, in the order of a stable sort by key. The
    /// strategy keeps its pairs as they were added.
    fn sort(&mut self) -> (sorted: Vec<Value>)
        ensures
            final(self).kind() == old(self).kind(),
            final(self).values() == old(self).values(),
            final(self).keys() == old(self).keys(),
            is_stable_sort(old(self).values(), old(self).keys(), contents(sorted@)),
    ;
}

/// Whether `output` holds the values of `input` as a stable sort by `keys`
/// arranges them.
pub open spec fn is_stable_sort(input: Seq<Data>, keys: Seq<KeyData>, output: Seq<Data>) -> bool {
    exists|order: Seq<int>| is_stable_order(order, keys) && output == picked(input, order)
}

/// The positions as integers.
pub open spec fn positions(order: Seq<usize>) -> Seq<int> {
    Seq::new(order.len(), |p: int| order[p] as int)
}

/// The content of each pair's key.
pub open spec fn pair_keys(pairs: Seq<(Value, SortKey)>) -> Seq<KeyData> {
    Seq::new(pairs.len(), |p: int| pairs[p].1@)
}

/// The content of each pair's value.
pub open spec fn pair_values(pairs: Seq<(Value, SortKey)>) -> Seq<Data> {
    Seq::new(pairs.len(), |p: int| pairs[p].0@)
}

/// Whether `run` lists the positions `lo..hi` as a stable sort by key
/// arranges them.
pub open spec fn is_stable_run(run: Seq<int>, keys: Seq<KeyData>, lo: int, hi: int) -> bool {
    &&& run.len() == hi - lo
    &&& forall|p: int| 0 <= p < run.len() ==> lo <= #[trigger] run[p] < hi
    &&& forall|p: int, q: int|
        0 <= p < q < run.len() ==> comes_before(keys, #[trigger] run[p], #[trigger] run[q])
}

/// Whether every position of `run` from `from` on must stand behind
/// position `x` once sorted.
pub open spec fn precedes_rest(keys: Seq<KeyData>, x: int, run: Seq<int>, from: int) -> bool {
    forall|a: int| from <= a < run.len() ==> comes_before(keys, x, #[trigger] run[a])
}

/// Merges the stable orders of two neighbouring ranges of positions into the
/// stable order of both.
fn merge_runs(
    pairs: &Vec<(Value, SortKey)>,
    left: &Vec<usize>,
    right: &Vec<usize>,
    lo: usize,
    mid: usize,
    hi: usize,
) -> (out: Vec<usize>)
    requires
        lo <= mid <= hi <= pairs@.len(),
        is_stable_run(positions(left@), pair_keys(pairs@), lo as int, mid as int),
        is_stable_run(positions(right@), pair_keys(pairs@), mid as int, hi as int),
    ensures
        is_stable_run(positions(out@), pair_keys(pairs@), lo as int, hi as int),
{
    let ghost keys = pair_keys(pairs@);
    let ghost l = positions(left@);
    let ghost r = positions(right@);
    let mut out: Vec<usize> = Vec::new();
    let mut i: usize = 0;
    let mut j: usize = 0;
    while i < left.len() || j < right.len()
        invariant
            lo <= mid <= hi <= pairs@.len(),
            keys == pair_keys(pairs@),
            l == positions(left@),
            r == positions(right@),
            is_stable_run(l, keys, lo as int, mid as int),
            is_stable_run(r, keys, mid as int, hi as int),
            i <= left@.len(),
            j <= right@.len(),
            out@.len() == i + j,
            forall|p: int| 0 <= p < out@.len() ==> lo <= #[trigger] out@[p] < hi,
            forall|p: int, q: int|
                0 <= p < q < out@.len() ==> comes_before(
                    keys,
                    #[trigger] out@[p] as int,
                    #[trigger] out@[q] as int,
                ),
            forall|p: int|
                0 <= p < out@.len() ==> precedes_rest(keys, #[trigger] out@[p] as int, l, i as int),
            forall|p: int|
                0 <= p < out@.len() ==> precedes_rest(keys, #[trigger] out@[p] as int, r, j as int),
        decreases left@.len() - i + right@.len() - j,
    {
        let take_left = if i == left.len() {
            false
        } else if j == right.len() {
            true
        } else {
            assert(l[i as int] == left@[i as int] && r[j as int] == right@[j as int]);
            pairs[left[i]].1.le(&pairs[right[j]].1)
        };
        let ghost before = out@;
        if take_left {
            let x = left[i];
            assert(l[i as int] == x);
            proof {
                assert forall|a: int| i + 1 <= a < l.len() implies comes_before(
                    keys,
                    x as int,
                    #[trigger] l[a],
                ) by {
                    assert(comes_before(keys, l[i as int], l[a]));
                }
                assert forall|b: int| j <= b < r.len() implies comes_before(
                    keys,
                    x as int,
                    #[trigger] r[b],
                ) by {
                    assert(r[j as int] == right@[j as int]);
                    assert(mid <= r[b]);
                    if b > j {
                        assert(comes_before(keys, r[j as int], r[b]));
                    } else {
                        key_le_total(keys[r[j as int]], keys[r[j as int]]);
                    }
                    key_le_transitive(keys[x as int], keys[r[j as int]], keys[r[b]]);
                }
            }
            out.push(x);
            i += 1;
            proof {
                assert forall|p: int, q: int| 0 <= p < q < out@.len() implies comes_before(
                    keys,
                    #[trigger] out@[p] as int,
                    #[trigger] out@[q] as int,
                ) by {
                    if q == before.len() {
                        assert(precedes_rest(keys, before[p] as int, l, i - 1));
                        assert(comes_before(keys, before[p] as int, l[i - 1]));
                    } else {
                        assert(comes_before(keys, before[p] as int, before[q] as int));
                    }
                }
                assert forall|p: int| 0 <= p < out@.len() implies precedes_rest(
                    keys,
                    #[trigger] out@[p] as int,
                    l,
                    i as int,
                ) by {
                    if p < before.len() {
                        assert(precedes_rest(keys, before[p] as int, l, i - 1));
                    }
                }
                assert forall|p: int| 0 <= p < out@.len() implies precedes_rest(
                    keys,
                    #[trigger] out@[p] as int,
                    r,
                    j as int,
                ) by {
                    if p < before.len() {
                        assert(precedes_rest(keys, before[p] as int, r, j as int));
                    }
                }
            }
        } else {
            let y = right[j];
            assert(r[j as int] == y);
            proof {
                assert forall|b: int| j + 1 <= b < r.len() implies comes_before(
                    keys,
                    y as int,
                    #[trigger] r[b],
                ) by {
                    assert(comes_before(keys, r[j as int], r[b]));
                }
                assert forall|a: int| i <= a < l.len() implies comes_before(
                    keys,
                    y as int,
                    #[trigger] l[a],
                ) by {
                    assert(l[i as int] == left@[i as int]);
                    key_le_total(keys[l[i as int]], keys[y as int]);
                    if a > i {
                        assert(comes_before(keys, l[i as int], l[a]));
                    } else {
                        key_le_total(keys[l[i as int]], keys[l[i as int]]);
                    }
                    key_le_transitive(keys[y as int], keys[l[i as int]], keys[l[a]]);
                    if key_le(keys[l[a]], keys[y as int]) {
                        key_le_transitive(keys[l[i as int]], keys[l[a]], keys[y as int]);
                    }
                }
            }
            out.push(y);
            j += 1;
            proof {
                assert forall|p: int, q: int| 0 <= p < q < out@.len() implies comes_before(
                    keys,
                    #[trigger] out@[p] as int,
                    #[trigger] out@[q] as int,
                ) by {
                    if q == before.len() {
                        assert(precedes_rest(keys, before[p] as int, r, j - 1));
                        assert(comes_before(keys, before[p] as int, r[j - 1]));
                    } else {
                        assert(comes_before(keys, before[p] as int, before[q] as int));
                    }
                }
                assert forall|p: int| 0 <= p < out@.len() implies precedes_rest(
                    keys,
                    #[trigger] out@[p] as int,
                    r,
                    j as int,
                ) by {
                    if p < before.len() {
                        assert(precedes_rest(keys, before[p] as int, r, j - 1));
                    }
                }
                assert forall|p: int| 0 <= p < out@.len() implies precedes_rest(
                    keys,
                    #[trigger] out@[p] as int,
                    l,
                    i as int,
                ) by {
                    if p < before.len() {
                        assert(precedes_rest(keys, before[p] as int, l, i as int));
                    }
                }
            }
        }
    }
    out
}

/// The positions `lo..hi` of the pairs in the order of a stable sort by
/// key: a merge sort.
fn sort_range(pairs: &Vec<(Value, SortKey)>, lo: usize, hi: usize) -> (run: Vec<usize>)
    requires
        lo <= hi <= pairs@.len(),
    ensures
        is_stable_run(positions(run@), pair_keys(pairs@), lo as int, hi as int),
    decreases hi - lo,
{
    if hi - lo <= 1 {
        let mut run: Vec<usize> = Vec::new();
        if hi - lo == 1 {
            run.push(lo);
        }
        run
    } else {
        let mid: usize = lo + (hi - lo) / 2;
        let left = sort_range(pairs, lo, mid);
        let right = sort_range(pairs, mid, hi);
        merge_runs(pairs, &left, &right, lo, mid, hi)
    }
}

/// The positions of the pairs in the order of a stable sort by key.
pub fn stable_order(pairs: &Vec<(Value, SortKey)>) -> (order: Vec<usize>)
    ensures
        is_stable_order(positions(order@), pair_keys(pairs@)),
{
    sort_range(pairs, 0, pairs.len())
}

impl SortStrategy for SortPairs {
    closed spec fn kind(&self) -> SortKind {
        self.kind
    }

    closed spec fn values(&self) -> Seq<Data> {
        pair_values(self.pairs@)
    }

    closed spec fn keys(&self) -> Seq<KeyData> {
        pair_keys(self.pairs@)
    }

    fn try_add_pair(&mut self, val: &Value, key: &Value) -> (r: Result<(), Error>) {
        let key = key_for(self.kind, key)?;
        self.pairs.push((val.clone(), key));
        assert(self.values() =~= old(self).values().push(val@));
        assert(self.keys() =~= old(self).keys().push(key@));
        Ok(())
    }

    fn sort(&mut self) -> (sorted: Vec<Value>) {
        let order = stable_order(&self.pairs);
        let mut sorted: Vec<Value> = Vec::new();
        let mut p: usize = 0;
        while p < order.len()
            invariant
                p <= order@.len(),
                order@.len() == self.pairs@.len(),
                forall|q: int|
                    0 <= q < order@.len() ==> 0 <= #[trigger] positions(order@)[q]
                        < self.pairs@.len(),
                sorted@.len() == p,
                forall|q: int|
                    0 <= q < p ==> (#[trigger] sorted@[q])@ == self.pairs@[order@[q] as int].0@,
            decreases order.len() - p,
        {
            assert(positions(order@)[p as int] == order@[p as int]);
            sorted.push(self.pairs[order[p]].0.clone());
            p += 1;
        }
        assert(contents(sorted@) =~= picked(self.values(), positions(order@)));
        sorted
    }
}

/// The strategy for keys like `ty`: booleans, numbers, strings and arrays
/// each have one; objects have none.
pub fn get_sort_strategy_for_type(ty: &Value) -> (r: Result<SortPairs, Error>)
    ensures
        match r {
            Ok(strategy) => kind_for(ty@) == Some(strategy.kind()) && strategy.values().len() == 0
                && strategy.keys().len() == 0,
            Err(e) => kind_for(ty@) is None && e.kind == ErrorKind::NotSortable && e.message@
                == "Object is not a sortable value"@,
        },
{
    match ty {
        Value::Bool(_) => Ok(SortPairs::new(SortKind::Bool)),
        Value::Integer(_) => Ok(SortPairs::new(SortKind::Number)),
        Value::Float(_) => Ok(SortPairs::new(SortKind::Number)),
        Value::String(_) => Ok(SortPairs::new(SortKind::Text)),
        Value::Array(_) => Ok(SortPairs::new(SortKind::Length)),
        Value::Object(_) => {
            Err(Error::new(ErrorKind::NotSortable, "Object is not a sortable value"))
        },
    }
}


/// Whether the keys never decrease from one position to the next.
pub open spec fn in_order(keys: Seq<KeyData>) -> bool {
    forall|p: int, q: int|
        0 <= p < q < keys.len() ==> key_le(#[trigger] keys[p], #[trigger] keys[q])
}

/// A stable sort puts the keys in order.
pub proof fn stable_order_sorts(order: Seq<int>, keys: Seq<KeyData>)
    requires
        is_stable_order(order, keys),
    ensures
        in_order(picked(keys, order)),
{
    let sorted = picked(keys, order);
    assert forall|p: int, q: int| 0 <= p < q < sorted.len() implies key_le(
        #[trigger] sorted[p],
        #[trigger] sorted[q],
    ) by {
        assert(comes_before(keys, order[p], order[q]));
    }
}

/// A stable sort keeps items whose keys tie in the order in which they stood.
pub proof fn stable_order_keeps_ties(order: Seq<int>, keys: Seq<KeyData>, p: int, q: int)
    requires
        is_stable_order(order, keys),
        0 <= p < q < order.len(),
        key_le(keys[order[q]], keys[order[p]]),
    ensures
        order[p] < order[q],
{
    assert(comes_before(keys, order[p], order[q]));
}

proof fn increasing_from_below(order: Seq<int>, p: int)
    requires
        forall|a: int, b: int|
            0 <= a < b < order.len() ==> #[trigger] order[a] < #[trigger] order[b],
        forall|a: int| 0 <= a < order.len() ==> 0 <= #[trigger] order[a] < order.len(),
        0 <= p < order.len(),
    ensures
        order[p] >= p,
    decreases p,
{
    if p > 0 {
        increasing_from_below(order, p - 1);
    }
}

proof fn increasing_from_above(order: Seq<int>, p: int)
    requires
        forall|a: int, b: int|
            0 <= a < b < order.len() ==> #[trigger] order[a] < #[trigger] order[b],
        forall|a: int| 0 <= a < order.len() ==> 0 <= #[trigger] order[a] < order.len(),
        0 <= p < order.len(),
    ensures
        order[p] <= p,
    decreases order.len() - p,
{
    if p + 1 < order.len() {
        increasing_from_above(order, p + 1);
    }
}

/// The stable order of keys that are in order already leaves every position
/// where it is.
pub proof fn stable_order_of_sorted(order: Seq<int>, keys: Seq<KeyData>)
    requires
        is_stable_order(order, keys),
        in_order(keys),
    ensures
        forall|p: int| 0 <= p < order.len() ==> #[trigger] order[p] == p,
{
    assert forall|a: int, b: int| 0 <= a < b < order.len() implies #[trigger] order[a]
        < #[trigger] order[b] by {
        assert(comes_before(keys, order[a], order[b]));
        if order[b] < order[a] {
            assert(key_le(keys[order[b]], keys[order[a]]));
        }
    }
    assert forall|p: int| 0 <= p < order.len() implies #[trigger] order[p] == p by {
        increasing_from_below(order, p);
        increasing_from_above(order, p);
    }
}

/// Sorting is idempotent: a stable sort of what a stable sort gave, by the
/// keys that the items carry along, gives the same sequence again.
pub proof fn stable_sort_is_idempotent(
    input: Seq<Data>,
    keys: Seq<KeyData>,
    order: Seq<int>,
    twice: Seq<Data>,
)
    requires
        input.len() == keys.len(),
        is_stable_order(order, keys),
        is_stable_sort(picked(input, order), picked(keys, order), twice),
    ensures
        twice == picked(input, order),
{
    let once = picked(input, order);
    let once_keys = picked(keys, order);
    let second = choose|second: Seq<int>|
        is_stable_order(second, once_keys) && twice == picked(once, second);
    stable_order_sorts(order, keys);
    stable_order_of_sorted(second, once_keys);
    assert(twice =~= once);
}


/// A stable order is a permutation: every position of the input stands at
/// exactly one place of the order.
pub proof fn stable_order_is_permutation(order: Seq<int>, keys: Seq<KeyData>)
    requires
        is_stable_order(order, keys),
    ensures
        order.no_duplicates(),
        forall|x: int| 0 <= x < keys.len() ==> order.contains(x),
{
    assert forall|p: int, q: int|
        0 <= p < order.len() && 0 <= q < order.len() && p != q implies order[p] != order[q] by {
        if p < q {
            assert(comes_before(keys, order[p], order[q]));
        } else {
            assert(comes_before(keys, order[q], order[p]));
        }
    }
    let seen = order.to_set();
    let all = vstd::set_lib::set_int_range(0, keys.len() as int);
    order.unique_seq_to_set();
    vstd::set_lib::lemma_int_range(0, keys.len() as int);
    assert forall|x: int| seen.contains(x) implies all.contains(x) by {
        let p = choose|p: int| 0 <= p < order.len() && order[p] == x;
        assert(0 <= order[p] < keys.len());
    }
    vstd::set_lib::lemma_len_subset(seen, all);
    vstd::set_lib::lemma_subset_equality(seen, all);
    assert forall|x: int| 0 <= x < keys.len() implies order.contains(x) by {
        assert(all.contains(x));
        assert(seen.contains(x));
    }
}

/// Two stable orders of the same keys agree up to any position.
proof fn stable_orders_agree(first: Seq<int>, second: Seq<int>, keys: Seq<KeyData>, p: int)
    requires
        is_stable_order(first, keys),
        is_stable_order(second, keys),
        0 <= p < keys.len(),
    ensures
        forall|q: int| 0 <= q <= p ==> #[trigger] first[q] == second[q],
    decreases p,
{
    if p > 0 {
        stable_orders_agree(first, second, keys, p - 1);
    }
    stable_order_is_permutation(first, keys);
    stable_order_is_permutation(second, keys);
    let x = first[p];
    let y = second[p];
    assert(0 <= x < keys.len());
    assert(0 <= y < keys.len());
    // where each order holds what the other holds at `p`
    assert(second.contains(x));
    assert(first.contains(y));
    let q = choose|q: int| 0 <= q < second.len() && second[q] == x;
    let r = choose|r: int| 0 <= r < first.len() && first[r] == y;
    if q < p {
        assert(first[q] == second[q]);
        assert(first[q] == first[p]);
    }
    if r < p {
        assert(first[r] == second[r]);
        assert(second[r] == second[p]);
    }
    if q > p && r > p {
        assert(comes_before(keys, second[p], second[q]));
        assert(comes_before(keys, first[p], first[r]));
    }
}

/// The stable order of given keys is unique: a stable sort has one result.
pub proof fn stable_order_is_unique(first: Seq<int>, second: Seq<int>, keys: Seq<KeyData>)
    requires
        is_stable_order(first, keys),
        is_stable_order(second, keys),
    ensures
        first == second,
{
    if keys.len() > 0 {
        stable_orders_agree(first, second, keys, keys.len() - 1);
    }
    assert(first =~= second);
}

/// A stable sort has one result.
pub proof fn stable_sort_is_unique(
    input: Seq<Data>,
    keys: Seq<KeyData>,
    first: Seq<Data>,
    second: Seq<Data>,
)
    requires
        is_stable_sort(input, keys, first),
        is_stable_sort(input, keys, second),
    ensures
        first == second,
{
    let a = choose|order: Seq<int>| is_stable_order(order, keys) && first == picked(input, order);
    let b = choose|order: Seq<int>| is_stable_order(order, keys) && second == picked(input, order);
    stable_order_is_unique(a, b, keys);
}

} // verus!
