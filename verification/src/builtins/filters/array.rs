//! Filters operating on arrays.

use vstd::prelude::*;
use crate::builtins::args::{
    integer_argument, optional_integer, optional_str, required, string_argument,
};
use crate::context::push_rendered;
use crate::errors::{
    agrees, argument_failure, failure_of, message_about, Error, ErrorKind, Failure,
};
use crate::sort_utils::{
    conforms, get_sort_strategy_for_type, is_stable_order, is_stable_sort, key_error, kind_for,
    picked, sort_key, stable_sort_is_idempotent, unsortable, unsortable_message, KeyData, SortKind,
    SortStrategy,
};
use crate::text::{int_text, str_eq};
use crate::value::{
    clone_values, contents, display, has_key, key_position, lookup, rendering, resolve, same,
    unique_keys, Data, Object, Value,
};
use vstd::string::StringExecFns;

verus! {

/// The failure of a filter applied to something that is not an array.
pub open spec fn not_an_array(value: Data) -> Failure {
    (ErrorKind::TypeMismatch, message_about("expected array got "@, value, ""@))
}

/// What [`nth`] returns.
pub open spec fn nth_of(value: Data, args: Seq<(Seq<char>, Data)>) -> Result<Data, Failure> {
    match value {
        Data::Array(items) => if items.len() == 0 {
            Ok(Data::String(Seq::empty()))
        } else {
            match lookup(args, "n"@) {
                None => Err(
                    (ErrorKind::MissingArgument, "The `nth` filter has to have an `n` argument"@),
                ),
                Some(Data::Integer(n)) => if n < 0 {
                    Err(
                        (
                            ErrorKind::InvalidArgumentValue,
                            "`n` argument must be non-negative but "@ + int_text(n)
                                + " was received"@,
                        ),
                    )
                } else if n < items.len() {
                    Ok(items[n])
                } else {
                    Ok(Data::String(Seq::empty()))
                },
                Some(d) => Err(argument_failure("`n` argument"@, "expected integer number got "@, d)),
            }
        },
        _ => Err(not_an_array(value)),
    }
}

/// The nth value of an array, counting from zero. The empty string if the
/// array is empty or has no such item.
pub fn nth(value: &Value, args: &Object) -> (r: Result<Value, Error>)
    ensures
        agrees(r, nth_of(value@, args@)),
{
    let arr = value.try_array()?;
    if arr.len() == 0 {
        return Ok(Value::empty_string());
    }
    let n = required(args, "n", "The `nth` filter has to have an `n` argument")?;
    let index = match n.try_integer() {
        Ok(i) => i,
        Err(e) => {
            return Err(Error::chain("`n` argument", e));
        },
    };
    if index < 0 {
        let mut message = String::new();
        vstd::string::StringExecFns::append(&mut message, "`n` argument must be non-negative but ");
        crate::text::push_int(&mut message, index);
        vstd::string::StringExecFns::append(&mut message, " was received");
        assert(message@ =~= "`n` argument must be non-negative but "@ + int_text(index as int)
            + " was received"@);
        return Err(Error { kind: ErrorKind::InvalidArgumentValue, message });
    }
    if (index as u64) < (arr.len() as u64) {
        Ok(arr[index as usize].clone())
    } else {
        Ok(Value::empty_string())
    }
}

/// What [`first`] returns.
pub open spec fn first_of(value: Data) -> Result<Data, Failure> {
    match value {
        Data::Array(items) => if items.len() == 0 {
            Ok(Data::String(Seq::empty()))
        } else {
            Ok(items[0])
        },
        _ => Err(not_an_array(value)),
    }
}

/// The first value of an array; the empty string if the array is empty.
pub fn first(value: &Value, _args: &Object) -> (r: Result<Value, Error>)
    ensures
        agrees(r, first_of(value@)),
{
    let arr = value.try_array()?;
    if arr.len() == 0 {
        Ok(Value::empty_string())
    } else {
        Ok(arr[0].clone())
    }
}

/// What [`last`] returns.
pub open spec fn last_of(value: Data) -> Result<Data, Failure> {
    match value {
        Data::Array(items) => if items.len() == 0 {
            Ok(Data::String(Seq::empty()))
        } else {
            Ok(items[items.len() - 1])
        },
        _ => Err(not_an_array(value)),
    }
}

/// The last value of an array; the empty string if the array is empty.
pub fn last(value: &Value, _args: &Object) -> (r: Result<Value, Error>)
    ensures
        agrees(r, last_of(value@)),
{
    let arr = value.try_array()?;
    if arr.len() == 0 {
        Ok(Value::empty_string())
    } else {
        Ok(arr[arr.len() - 1].clone())
    }
}


/// The first `n` items, each rendered, joined by `sep`.
pub open spec fn joined(items: Seq<Data>, sep: Seq<char>, n: nat) -> Seq<char>
    decreases n,
{
    if n == 0 || n > items.len() {
        Seq::empty()
    } else if n == 1 {
        rendering(items[0])
    } else {
        joined(items, sep, (n - 1) as nat) + sep + rendering(items[n - 1])
    }
}

/// What [`join`] returns.
pub open spec fn join_of(value: Data, args: Seq<(Seq<char>, Data)>) -> Result<Data, Failure> {
    match value {
        Data::Array(items) => match string_argument(args, "sep"@, "sep argument"@, ""@) {
            Ok(sep) => Ok(Data::String(joined(items, sep, items.len()))),
            Err(f) => Err(f),
        },
        _ => Err(not_an_array(value)),
    }
}

/// Joins the rendered items of an array by the `sep` argument, or by
/// nothing if there is no such argument.
pub fn join(value: &Value, args: &Object) -> (r: Result<Value, Error>)
    ensures
        agrees(r, join_of(value@, args@)),
{
    let arr = value.try_array()?;
    let sep = optional_str(args, "sep", "sep argument", "")?;
    let mut out = String::new();
    let mut i: usize = 0;
    while i < arr.len()
        invariant
            i <= arr@.len(),
            out@ == joined(contents(arr@), sep@, i as nat),
        decreases arr.len() - i,
    {
        if i > 0 {
            out.append(sep);
        }
        push_rendered(&arr[i], &mut out);
        i += 1;
    }
    Ok(Value::String(out))
}

/// Of the first `n` items, those from which `key` leads to a value equal to
/// `wanted`, in order.
pub open spec fn kept(items: Seq<Data>, key: Seq<char>, wanted: Data, n: nat) -> Seq<Data>
    decreases n,
{
    if n == 0 || n > items.len() {
        Seq::empty()
    } else {
        let before = kept(items, key, wanted, (n - 1) as nat);
        match resolve(items[n - 1], key) {
            Some(found) => if same(found, wanted) {
                before.push(items[n - 1])
            } else {
                before
            },
            None => before,
        }
    }
}

/// What [`filter`] returns.
pub open spec fn filter_of(value: Data, args: Seq<(Seq<char>, Data)>) -> Result<Data, Failure> {
    match value {
        Data::Array(items) => if items.len() == 0 {
            Ok(Data::Array(Seq::empty()))
        } else {
            match lookup(args, "attribute"@) {
                None => Err(
                    (
                        ErrorKind::MissingArgument,
                        "The `filter` filter has to have an `attribute` argument"@,
                    ),
                ),
                Some(Data::String(key)) => match lookup(args, "value"@) {
                    None => Err(
                        (
                            ErrorKind::MissingArgument,
                            "The `filter` filter has to have a `value` argument"@,
                        ),
                    ),
                    Some(wanted) => Ok(Data::Array(kept(items, key, wanted, items.len()))),
                },
                Some(d) => Err(argument_failure("`attribute` argument"@, "expected string got "@, d)),
            }
        },
        _ => Err(not_an_array(value)),
    }
}

/// Keeps the items of an array in which the dotted path `attribute` leads to
/// a value equal to the `value` argument.
pub fn filter(value: &Value, args: &Object) -> (r: Result<Value, Error>)
    ensures
        agrees(r, filter_of(value@, args@)),
{
    let arr = value.try_array()?;
    if arr.len() == 0 {
        let empty: Vec<Value> = Vec::new();
        assert(contents(empty@) =~= Seq::empty());
        return Ok(Value::Array(empty));
    }
    let attribute = required(
        args,
        "attribute",
        "The `filter` filter has to have an `attribute` argument",
    )?;
    let key = match attribute.try_str() {
        Ok(s) => s,
        Err(e) => {
            return Err(Error::chain("`attribute` argument", e));
        },
    };
    let wanted = required(args, "value", "The `filter` filter has to have a `value` argument")?;
    let mut out: Vec<Value> = Vec::new();
    let mut i: usize = 0;
    assert(contents(out@) =~= Seq::empty());
    while i < arr.len()
        invariant
            i <= arr@.len(),
            contents(out@) == kept(contents(arr@), key@, wanted@, i as nat),
        decreases arr.len() - i,
    {
        let ghost before = contents(out@);
        match arr[i].pointer(key) {
            Some(found) => {
                if found.same_as(wanted) {
                    out.push(arr[i].clone());
                    assert(contents(out@) =~= before.push(arr@[i as int]@));
                }
            },
            None => {},
        }
        i += 1;
    }
    Ok(Value::Array(out))
}

/// Where a slice ends: at the `end` argument, if it lies within the array
/// and not before the start, at the start if it lies before it, and at the
/// end of the array otherwise.
pub open spec fn slice_end(start: int, end: int, len: int) -> int {
    if 0 <= end <= len {
        if end < start {
            start
        } else {
            end
        }
    } else {
        len
    }
}

/// What [`slice`] returns.
pub open spec fn slice_of(value: Data, args: Seq<(Seq<char>, Data)>) -> Result<Data, Failure> {
    match value {
        Data::Array(items) => if items.len() == 0 {
            Ok(Data::Array(Seq::empty()))
        } else {
            match integer_argument(args, "start"@, "`start` argument"@, 0) {
                Err(f) => Err(f),
                Ok(start) => if !(0 <= start <= items.len()) {
                    Ok(Data::Array(Seq::empty()))
                } else {
                    match integer_argument(args, "end"@, "`end` argument"@, items.len() as int) {
                        Err(f) => Err(f),
                        Ok(end) => Ok(
                            Data::Array(
                                items.subrange(start, slice_end(start, end, items.len() as int)),
                            ),
                        ),
                    }
                },
            }
        },
        _ => Err(not_an_array(value)),
    }
}

/// The items from position `start` (default 0) up to, not including,
/// position `end` (default: the end of the array). A start outside the array
/// gives an empty array; an end outside the array means the end of the array;
/// an end before the start gives an empty array.
pub fn slice(value: &Value, args: &Object) -> (r: Result<Value, Error>)
    ensures
        agrees(r, slice_of(value@, args@)),
{
    let arr = value.try_array()?;
    let empty: Vec<Value> = Vec::new();
    assert(contents(empty@) =~= Seq::empty());
    if arr.len() == 0 {
        return Ok(Value::Array(empty));
    }
    let start = optional_integer(args, "start", "`start` argument", 0)?;
    if start < 0 || (start as u64) > (arr.len() as u64) {
        return Ok(Value::Array(empty));
    }
    let start: usize = start as usize;
    let end_argument = match args.get("end") {
        Some(val) => match val.try_integer() {
            Ok(i) => Some(i),
            Err(e) => {
                return Err(Error::chain("`end` argument", e));
            },
        },
        None => None,
    };
    let end: usize = match end_argument {
        Some(e) => if e < 0 || (e as u64) > (arr.len() as u64) {
            arr.len()
        } else if (e as usize) < start {
            start
        } else {
            e as usize
        },
        None => arr.len(),
    };
    let mut out: Vec<Value> = Vec::new();
    let mut i: usize = start;
    while i < end
        invariant
            start <= i <= end <= arr@.len(),
            out@.len() == i - start,
            forall|j: int| 0 <= j < i - start ==> (#[trigger] out@[j])@ == arr@[start + j]@,
        decreases end - i,
    {
        out.push(arr[i].clone());
        i += 1;
    }
    assert(contents(out@) =~= contents(arr@).subrange(start as int, end as int));
    Ok(Value::Array(out))
}

/// What [`concat`] returns.
pub open spec fn concat_of(value: Data, args: Seq<(Seq<char>, Data)>) -> Result<Data, Failure> {
    match value {
        Data::Array(items) => match lookup(args, "with"@) {
            None => Err(
                (ErrorKind::MissingArgument, "The `concat` filter has to have a `with` argument"@),
            ),
            Some(Data::Array(more)) => Ok(Data::Array(items + more)),
            Some(one) => Ok(Data::Array(items.push(one))),
        },
        _ => Err(not_an_array(value)),
    }
}

/// The array followed by the items of the `with` argument, if that is an
/// array, and by the `with` argument itself otherwise.
pub fn concat(value: &Value, args: &Object) -> (r: Result<Value, Error>)
    ensures
        agrees(r, concat_of(value@, args@)),
{
    let arr = value.try_array()?;
    let with = required(args, "with", "The `concat` filter has to have a `with` argument")?;
    let mut result = clone_values(arr);
    match with {
        Value::Array(vals) => {
            let mut i: usize = 0;
            while i < vals.len()
                invariant
                    i <= vals@.len(),
                    contents(result@) == contents(arr@) + contents(vals@).subrange(0, i as int),
                decreases vals.len() - i,
            {
                let ghost before = contents(result@);
                result.push(vals[i].clone());
                assert(contents(result@) =~= before.push(vals@[i as int]@));
                assert(contents(result@) =~= contents(arr@) + contents(vals@).subrange(0, i + 1));
                i += 1;
            }
            assert(contents(vals@).subrange(0, vals@.len() as int) =~= contents(vals@));
        },
        _ => {
            let ghost before = contents(result@);
            result.push(with.clone());
            assert(contents(result@) =~= before.push(with@));
        },
    }
    Ok(Value::Array(result))
}


/// The value that an item is sorted by: the item itself if there is no
/// attribute, and otherwise what the attribute, a dotted path, leads to.
pub open spec fn key_source(item: Data, attribute: Seq<char>) -> Option<Data> {
    if attribute.len() == 0 {
        Some(item)
    } else {
        resolve(item, attribute)
    }
}

/// Whether the item at position `i` has a key source that can never be a
/// sort key.
pub open spec fn has_unsortable_key(items: Seq<Data>, attribute: Seq<char>, i: int) -> bool {
    &&& 0 <= i < items.len()
    &&& key_source(items[i], attribute) matches Some(d)
    &&& unsortable(d)
}

/// Whether the item at position `i` is the first whose key source can never
/// be a sort key.
pub open spec fn is_first_unsortable(items: Seq<Data>, attribute: Seq<char>, i: int) -> bool {
    has_unsortable_key(items, attribute, i) && forall|j: int|
        0 <= j < i ==> !has_unsortable_key(items, attribute, j)
}

/// Whether the item at position `i` has no key source.
pub open spec fn lacks_key(items: Seq<Data>, attribute: Seq<char>, i: int) -> bool {
    0 <= i < items.len() && key_source(items[i], attribute) is None
}

/// Whether the item at position `i` has a key source that is no key of the
/// given kind.
pub open spec fn has_mismatched_key(
    items: Seq<Data>,
    attribute: Seq<char>,
    kind: SortKind,
    i: int,
) -> bool {
    &&& 0 <= i < items.len()
    &&& key_source(items[i], attribute) matches Some(d)
    &&& !conforms(kind, d)
}

/// Whether the item at position `i` is the first whose key source is no key
/// of the given kind.
pub open spec fn is_first_mismatch(
    items: Seq<Data>,
    attribute: Seq<char>,
    kind: SortKind,
    i: int,
) -> bool {
    has_mismatched_key(items, attribute, kind, i) && forall|j: int|
        0 <= j < i ==> !has_mismatched_key(items, attribute, kind, j)
}

/// The kind of key that the first item selects.
pub open spec fn selected_kind(items: Seq<Data>, attribute: Seq<char>) -> SortKind {
    kind_for(key_source(items[0], attribute)->0)->0
}

/// The message that says that an attribute leads nowhere.
pub open spec fn no_such_field(attribute: Seq<char>) -> Seq<char> {
    "attribute '"@ + attribute + "' does not reference a field"@
}

/// Why a non-empty array cannot be sorted by the given attribute, if it
/// cannot. A key source that can never be a sort key, an object or a float
/// that is not finite, comes first, wherever it stands: `NotSortable`, for the
/// first such item. Then an item without the attribute: `FieldNotFound`. Then
/// a key of another kind than the first item's: `TypeMismatch`, for the first
/// such item.
pub open spec fn sort_failure(items: Seq<Data>, attribute: Seq<char>) -> Option<Failure> {
    if exists|i: int| is_first_unsortable(items, attribute, i) {
        let i = choose|i: int| is_first_unsortable(items, attribute, i);
        Some((ErrorKind::NotSortable, unsortable_message(key_source(items[i], attribute)->0)))
    } else if exists|i: int| lacks_key(items, attribute, i) {
        Some((ErrorKind::FieldNotFound, no_such_field(attribute)))
    } else if exists|i: int| is_first_mismatch(items, attribute, selected_kind(items, attribute), i) {
        let kind = selected_kind(items, attribute);
        let i = choose|i: int| is_first_mismatch(items, attribute, kind, i);
        Some(key_error(kind, key_source(items[i], attribute)->0))
    } else {
        None
    }
}

/// The sort key of each item.
pub open spec fn sort_keys(items: Seq<Data>, attribute: Seq<char>) -> Seq<KeyData> {
    Seq::new(items.len(), |i: int| sort_key(key_source(items[i], attribute)->0)->0)
}

/// Whether `r` is what [`sort`] returns for `value` and `args`.
pub open spec fn sort_agrees(r: Result<Value, Error>, value: Data, args: Seq<(Seq<char>, Data)>) -> bool {
    match value {
        Data::Array(items) => if items.len() == 0 {
            r matches Ok(v) && v@ == Data::Array(Seq::empty())
        } else {
            match string_argument(args, "attribute"@, "`attribute` argument"@, ""@) {
                Err(f) => r matches Err(e) && failure_of(e) == f,
                Ok(attribute) => match sort_failure(items, attribute) {
                    Some(f) => r matches Err(e) && failure_of(e) == f,
                    None => r matches Ok(v) && v@ matches Data::Array(sorted) && is_stable_sort(
                        items,
                        sort_keys(items, attribute),
                        sorted,
                    ),
                },
            }
        },
        _ => r matches Err(e) && failure_of(e) == not_an_array(value),
    }
}

/// Whether a value can never be a sort key.
fn is_unsortable(value: &Value) -> (r: bool)
    ensures
        r == unsortable(value@),
{
    match value {
        Value::Object(_) => true,
        Value::Float(f) => !crate::number::check_finite(f.to_bits()),
        _ => false,
    }
}

/// The error for a value that can never be a sort key.
fn unsortable_error(key: &Value) -> (e: Error)
    requires
        unsortable(key@),
    ensures
        failure_of(e) == (ErrorKind::NotSortable, unsortable_message(key@)),
{
    match key {
        Value::Float(f) => {
            let mut message = String::from_str(f.as_text());
            message.append(" cannot be sorted");
            Error { kind: ErrorKind::NotSortable, message }
        },
        _ => Error::new(ErrorKind::NotSortable, "Object is not a sortable value"),
    }
}

/// The key source of each item.
fn key_sources<'a>(arr: &'a Vec<Value>, attribute: &str) -> (sources: Vec<Option<&'a Value>>)
    ensures
        sources@.len() == arr@.len(),
        forall|i: int|
            0 <= i < arr@.len() ==> match #[trigger] sources@[i] {
                Some(v) => key_source(arr@[i]@, attribute@) == Some(v@),
                None => key_source(arr@[i]@, attribute@) is None,
            },
{
    let whole = vstd::string::StrSliceExecFns::unicode_len(attribute) == 0;
    let mut sources: Vec<Option<&'a Value>> = Vec::new();
    let mut i: usize = 0;
    while i < arr.len()
        invariant
            i <= arr@.len(),
            whole == (attribute@.len() == 0),
            sources@.len() == i,
            forall|j: int|
                0 <= j < i ==> match #[trigger] sources@[j] {
                    Some(v) => key_source(arr@[j]@, attribute@) == Some(v@),
                    None => key_source(arr@[j]@, attribute@) is None,
                },
        decreases arr.len() - i,
    {
        if whole {
            sources.push(Some(&arr[i]));
        } else {
            sources.push(arr[i].pointer(attribute));
        }
        i += 1;
    }
    sources
}

/// Sorts an array in ascending order, by the items themselves or, with an
/// `attribute` argument, by what that dotted path leads to in each item. The
/// sort is stable. The keys must be all booleans, all numbers, all strings
/// or all arrays (which sort by length).
#[verifier::loop_isolation(false)]
pub fn sort(value: &Value, args: &Object) -> (r: Result<Value, Error>)
    ensures
        sort_agrees(r, value@, args@),
{
    let arr = value.try_array()?;
    if arr.len() == 0 {
        let empty: Vec<Value> = Vec::new();
        assert(contents(empty@) =~= Seq::empty());
        return Ok(Value::Array(empty));
    }
    let attribute = optional_str(args, "attribute", "`attribute` argument", "")?;
    let ghost items = contents(arr@);
    let sources = key_sources(arr, attribute);

    let mut i: usize = 0;
    while i < sources.len()
        invariant
            i <= sources@.len(),
            forall|j: int| 0 <= j < i ==> !has_unsortable_key(items, attribute@, j),
        decreases sources.len() - i,
    {
        match sources[i] {
            Some(key) => {
                if is_unsortable(key) {
                    assert(is_first_unsortable(items, attribute@, i as int));
                    return Err(unsortable_error(key));
                }
            },
            None => {},
        }
        i += 1;
    }
    assert(!exists|i: int| is_first_unsortable(items, attribute@, i));

    let mut keys: Vec<&Value> = Vec::new();
    let mut i: usize = 0;
    while i < sources.len()
        invariant
            i <= sources@.len(),
            keys@.len() == i,
            forall|j: int| 0 <= j < i ==> !lacks_key(items, attribute@, j),
            forall|j: int|
                0 <= j < i ==> key_source(items[j], attribute@) == Some((#[trigger] keys@[j])@),
        decreases sources.len() - i,
    {
        match sources[i] {
            Some(key) => {
                keys.push(key);
            },
            None => {
                assert(lacks_key(items, attribute@, i as int));
                let mut message = String::from_str("attribute '");
                message.append(attribute);
                message.append("' does not reference a field");
                return Err(Error { kind: ErrorKind::FieldNotFound, message });
            },
        }
        i += 1;
    }
    assert(!exists|i: int| lacks_key(items, attribute@, i));

    assert(!has_unsortable_key(items, attribute@, 0));
    let mut strategy = get_sort_strategy_for_type(keys[0])?;
    let ghost kind = selected_kind(items, attribute@);
    let mut i: usize = 0;
    while i < arr.len()
        invariant
            i <= arr@.len(),
            strategy.kind() == kind,
            strategy.values() == items.subrange(0, i as int),
            strategy.keys() == sort_keys(items, attribute@).subrange(0, i as int),
            forall|j: int| 0 <= j < i ==> !has_mismatched_key(items, attribute@, kind, j),
        decreases arr.len() - i,
    {
        match strategy.try_add_pair(&arr[i], keys[i]) {
            Ok(_) => {},
            Err(e) => {
                assert(is_first_mismatch(items, attribute@, kind, i as int));
                assert(!has_unsortable_key(items, attribute@, i as int));
                return Err(e);
            },
        }
        assert(strategy.values() =~= items.subrange(0, i + 1));
        assert(strategy.keys() =~= sort_keys(items, attribute@).subrange(0, i + 1));
        i += 1;
    }
    assert(!exists|i: int| is_first_mismatch(items, attribute@, kind, i));
    assert(items.subrange(0, items.len() as int) =~= items);
    assert(sort_keys(items, attribute@).subrange(0, items.len() as int) =~= sort_keys(
        items,
        attribute@,
    ));
    let sorted = strategy.sort();
    Ok(Value::Array(sorted))
}


/// If some item's key source can never be a sort key, there is a first such
/// item.
proof fn first_unsortable_exists(items: Seq<Data>, attribute: Seq<char>, i: int)
    requires
        has_unsortable_key(items, attribute, i),
    ensures
        exists|j: int| is_first_unsortable(items, attribute, j),
    decreases i,
{
    if exists|j: int| 0 <= j < i && has_unsortable_key(items, attribute, j) {
        let j = choose|j: int| 0 <= j < i && has_unsortable_key(items, attribute, j);
        first_unsortable_exists(items, attribute, j);
    } else {
        assert(is_first_unsortable(items, attribute, i));
    }
}

/// If some item's key is of another kind, there is a first such item.
proof fn first_mismatch_exists(items: Seq<Data>, attribute: Seq<char>, kind: SortKind, i: int)
    requires
        has_mismatched_key(items, attribute, kind, i),
    ensures
        exists|j: int| is_first_mismatch(items, attribute, kind, j),
    decreases i,
{
    if exists|j: int| 0 <= j < i && has_mismatched_key(items, attribute, kind, j) {
        let j = choose|j: int| 0 <= j < i && has_mismatched_key(items, attribute, kind, j);
        first_mismatch_exists(items, attribute, kind, j);
    } else {
        assert(is_first_mismatch(items, attribute, kind, i));
    }
}

/// An array in which some item's sort key source is an object or a float that
/// is not finite cannot be sorted: the failure is `NotSortable`, whatever
/// else the array holds.
pub proof fn unsortable_key_fails(items: Seq<Data>, attribute: Seq<char>, i: int)
    requires
        0 <= i < items.len(),
        key_source(items[i], attribute) matches Some(d) && unsortable(d),
    ensures
        sort_failure(items, attribute) matches Some(f) && f.0 == ErrorKind::NotSortable,
{
    first_unsortable_exists(items, attribute, i);
}

/// Sorting an array in which some item's sort key source is an object fails
/// with `NotSortable`.
pub proof fn sort_rejects_object_keys(
    r: Result<Value, Error>,
    items: Seq<Data>,
    args: Seq<(Seq<char>, Data)>,
    attribute: Seq<char>,
    i: int,
)
    requires
        sort_agrees(r, Data::Array(items), args),
        string_argument(args, "attribute"@, "`attribute` argument"@, ""@) == Ok::<
            Seq<char>,
            Failure,
        >(attribute),
        0 <= i < items.len(),
        key_source(items[i], attribute) matches Some(d) && d is Object,
    ensures
        r matches Err(e) && e.kind == ErrorKind::NotSortable,
{
    unsortable_key_fails(items, attribute, i);
}

/// Sorting an array in which some item's sort key source is a float that is
/// not finite, an infinity or a NaN, fails with `NotSortable`.
pub proof fn sort_rejects_non_finite_keys(
    r: Result<Value, Error>,
    items: Seq<Data>,
    args: Seq<(Seq<char>, Data)>,
    attribute: Seq<char>,
    i: int,
)
    requires
        sort_agrees(r, Data::Array(items), args),
        string_argument(args, "attribute"@, "`attribute` argument"@, ""@) == Ok::<
            Seq<char>,
            Failure,
        >(attribute),
        0 <= i < items.len(),
        key_source(items[i], attribute) matches Some(Data::Float { bits, .. })
            && !crate::number::is_finite(bits),
    ensures
        r matches Err(e) && e.kind == ErrorKind::NotSortable,
{
    unsortable_key_fails(items, attribute, i);
}

/// Sorting is idempotent: what sorting an array gave sorts to itself.
pub proof fn sort_is_idempotent(
    first: Result<Value, Error>,
    second: Result<Value, Error>,
    value: Data,
    args: Seq<(Seq<char>, Data)>,
)
    requires
        sort_agrees(first, value, args),
        first is Ok,
        sort_agrees(second, first->Ok_0@, args),
    ensures
        second matches Ok(v) && v@ == first->Ok_0@,
{
    let items = value->Array_0;
    let once = first->Ok_0@->Array_0;
    if items.len() == 0 {
    } else {
        let attribute = string_argument(args, "attribute"@, "`attribute` argument"@, ""@)->Ok_0;
        let keys = sort_keys(items, attribute);
        let order = choose|order: Seq<int>|
            is_stable_order(order, keys) && once == picked(items, order);
        let kind = selected_kind(items, attribute);
        assert(once.len() == items.len());
        assert forall|p: int| 0 <= p < once.len() implies !#[trigger] has_unsortable_key(
            once,
            attribute,
            p,
        ) by {
            assert(once[p] == items[order[p]]);
            if has_unsortable_key(items, attribute, order[p]) {
                first_unsortable_exists(items, attribute, order[p]);
            }
        }
        assert forall|p: int| 0 <= p < once.len() implies !#[trigger] lacks_key(
            once,
            attribute,
            p,
        ) by {
            assert(once[p] == items[order[p]]);
            assert(!lacks_key(items, attribute, order[p]));
        }
        assert forall|p: int| 0 <= p < once.len() implies !#[trigger] has_mismatched_key(
            once,
            attribute,
            kind,
            p,
        ) by {
            assert(once[p] == items[order[p]]);
            if has_mismatched_key(items, attribute, kind, order[p]) {
                first_mismatch_exists(items, attribute, kind, order[p]);
            }
        }
        assert(selected_kind(once, attribute) == kind) by {
            assert(!has_mismatched_key(once, attribute, kind, 0));
            assert(!lacks_key(once, attribute, 0));
            assert(!has_unsortable_key(once, attribute, 0));
        }
        assert(sort_failure(once, attribute) is None);
        assert(sort_keys(once, attribute) =~= picked(keys, order));
        let twice = second->Ok_0@->Array_0;
        stable_sort_is_idempotent(items, keys, order, twice);
    }
}


/// The groups after `item` joined the group named `key`: the group's last
/// item if there is such a group, and else the only item of a new last group.
pub open spec fn grouped_with(groups: Seq<(Seq<char>, Data)>, key: Seq<char>, item: Data) -> Seq<
    (Seq<char>, Data),
> {
    if has_key(groups, key) {
        let at = key_position(groups, key);
        groups.update(at, (key, Data::Array(groups[at].1->Array_0.push(item))))
    } else {
        groups.push((key, Data::Array(seq![item])))
    }
}

/// The groups that the first `n` items form: each item in which `key` leads
/// to a value joins the group named by that value as [`display`] shows it.
/// Items in which `key` leads nowhere join no group.
pub open spec fn grouped(items: Seq<Data>, key: Seq<char>, n: nat) -> Seq<(Seq<char>, Data)>
    decreases n,
{
    if n == 0 || n > items.len() {
        Seq::empty()
    } else {
        let before = grouped(items, key, (n - 1) as nat);
        match resolve(items[n - 1], key) {
            Some(found) => grouped_with(before, display(found), items[n - 1]),
            None => before,
        }
    }
}

/// What [`group_by`] returns.
pub open spec fn group_by_of(value: Data, args: Seq<(Seq<char>, Data)>) -> Result<Data, Failure> {
    match value {
        Data::Array(items) => if items.len() == 0 {
            Ok(Data::Object(Seq::empty()))
        } else {
            match lookup(args, "attribute"@) {
                None => Err(
                    (
                        ErrorKind::MissingArgument,
                        "The `group_by` filter has to have an `attribute` argument"@,
                    ),
                ),
                Some(Data::String(key)) => Ok(Data::Object(grouped(items, key, items.len()))),
                Some(d) => Err(argument_failure("`attribute` argument"@, "expected string got "@, d)),
            }
        },
        _ => Err(not_an_array(value)),
    }
}

/// The name and items of each group, as entries.
pub open spec fn group_entries(names: Seq<String>, groups: Seq<Vec<Value>>) -> Seq<(Seq<char>, Data)> {
    Seq::new(names.len(), |j: int| (names[j]@, Data::Array(contents(groups[j]@))))
}

/// The position of `name` among `names`.
fn position_of(names: &Vec<String>, groups: Ghost<Seq<Vec<Value>>>, name: &str) -> (r: Option<usize>)
    requires
        names@.len() == groups@.len(),
        unique_keys(group_entries(names@, groups@)),
    ensures
        match r {
            Some(at) => at < names@.len() && has_key(group_entries(names@, groups@), name@)
                && key_position(group_entries(names@, groups@), name@) == at,
            None => !has_key(group_entries(names@, groups@), name@),
        },
{
    let ghost entries = group_entries(names@, groups@);
    let mut at: usize = 0;
    while at < names.len()
        invariant
            at <= names@.len(),
            entries == group_entries(names@, groups@),
            unique_keys(entries),
            forall|j: int| 0 <= j < at ==> (#[trigger] entries[j]).0 != name@,
        decreases names.len() - at,
    {
        if str_eq(names[at].as_str(), name) {
            assert(entries[at as int].0 == name@);
            return Some(at);
        }
        at += 1;
    }
    None
}

/// Groups the items of an array by what the dotted path `attribute` leads to
/// in each. The result maps each value found, as text, to the array of the
/// items that hold it, in the order of the array. Items in which the path leads
/// nowhere are left out.
pub fn group_by(value: &Value, args: &Object) -> (r: Result<Value, Error>)
    ensures
        agrees(r, group_by_of(value@, args@)),
{
    let arr = value.try_array()?;
    if arr.len() == 0 {
        let empty = Object::new();
        assert(empty@ =~= Seq::empty());
        return Ok(Value::Object(empty));
    }
    let attribute = required(
        args,
        "attribute",
        "The `group_by` filter has to have an `attribute` argument",
    )?;
    let key = match attribute.try_str() {
        Ok(s) => s,
        Err(e) => {
            return Err(Error::chain("`attribute` argument", e));
        },
    };
    let ghost items = contents(arr@);
    let mut names: Vec<String> = Vec::new();
    let mut groups: Vec<Vec<Value>> = Vec::new();
    assert(group_entries(names@, groups@) =~= Seq::empty());
    let mut i: usize = 0;
    while i < arr.len()
        invariant
            i <= arr@.len(),
            items == contents(arr@),
            names@.len() == groups@.len(),
            unique_keys(group_entries(names@, groups@)),
            group_entries(names@, groups@) == grouped(items, key@, i as nat),
        decreases arr.len() - i,
    {
        let ghost before = group_entries(names@, groups@);
        match arr[i].pointer(key) {
            Some(found) => {
                let name = found.to_string();
                match position_of(&names, Ghost(groups@), name.as_str()) {
                    Some(at) => {
                        groups[at].push(arr[i].clone());
                        assert(group_entries(names@, groups@) =~= grouped_with(
                            before,
                            name@,
                            items[i as int],
                        )) by {
                            assert(contents(groups@[at as int]@) =~= before[at as int].1->Array_0.push(
                                items[i as int],
                            ));
                        }
                        assert forall|a: int, b: int|
                            0 <= a < b < names@.len() implies (#[trigger] group_entries(
                            names@,
                            groups@,
                        )[a]).0 != (#[trigger] group_entries(names@, groups@)[b]).0 by {
                            assert(before[a].0 != before[b].0);
                        }
                    },
                    None => {
                        let mut group: Vec<Value> = Vec::new();
                        group.push(arr[i].clone());
                        assert(contents(group@) =~= seq![items[i as int]]);
                        names.push(name);
                        groups.push(group);
                        assert(group_entries(names@, groups@) =~= grouped_with(
                            before,
                            name@,
                            items[i as int],
                        ));
                        assert forall|a: int, b: int|
                            0 <= a < b < names@.len() implies (#[trigger] group_entries(
                            names@,
                            groups@,
                        )[a]).0 != (#[trigger] group_entries(names@, groups@)[b]).0 by {
                            if b < names@.len() - 1 {
                                assert(before[a].0 != before[b].0);
                            } else {
                                assert(before[a].0 != name@);
                            }
                        }
                    },
                }
            },
            None => {},
        }
        i += 1;
    }
    let ghost all = group_entries(names@, groups@);
    let mut object = Object::new();
    assert(object@ =~= all.subrange(0, 0));
    let mut j: usize = 0;
    while j < names.len()
        invariant
            j <= names@.len(),
            names@.len() == groups@.len(),
            unique_keys(all),
            all.len() == names@.len(),
            forall|a: int| 0 <= a < names@.len() ==> (#[trigger] names@[a])@ == all[a].0,
            forall|a: int|
                j <= a < names@.len() ==> Data::Array(contents((#[trigger] groups@[a])@)) == all[a].1,
            object@ == all.subrange(0, j as int),
        decreases names.len() - j,
    {
        let mut group: Vec<Value> = Vec::new();
        core::mem::swap(&mut groups[j], &mut group);
        let ghost before = object@;
        assert(!has_key(before, all[j as int].0)) by {
            if has_key(before, all[j as int].0) {
                let at = key_position(before, all[j as int].0);
                assert(all[at].0 == before[at].0);
            }
        }
        object.insert(names[j].clone(), Value::Array(group));
        assert(object@ =~= all.subrange(0, j + 1));
        j += 1;
    }
    assert(all.subrange(0, all.len() as int) =~= all);
    Ok(Value::Object(object))
}

} // verus!
