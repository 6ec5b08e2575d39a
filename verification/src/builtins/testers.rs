//! Testers: functions from a value that may be undefined, and a list of
//! parameters, to a boolean.

use vstd::prelude::*;
use vstd::string::StringExecFns;
use crate::errors::{failure_of, Error, ErrorKind, Failure};
use crate::number::Number;
use crate::text::{
    contains_text, ends_with, nat_text, push_nat, starts_with, str_contains, str_ends_with,
    str_starts_with,
};
use crate::trusted::{regex_is_match, regex_match};
use crate::value::{contents, has_key, number_of, same, Data, Value};

verus! {

/// A tester.
pub trait Test {
    /// Applies the tester to a value that may be undefined.
    fn test(&self, value: Option<&Value>, args: &[Value]) -> Result<bool, Error>;
}

/// Whether a tester's result is the expected one.
pub open spec fn verdict(r: Result<bool, Error>, expected: Result<bool, Failure>) -> bool {
    match (r, expected) {
        (Ok(b), Ok(e)) => b == e,
        (Err(e), Err(f)) => failure_of(e) == f,
        _ => false,
    }
}

/// The content of a value that may be undefined.
pub open spec fn content(value: Option<&Value>) -> Option<Data> {
    match value {
        Some(v) => Some(v@),
        None => None,
    }
}

/// Why a tester that takes at most `max` parameters refuses `given`
/// parameters, if it does.
pub open spec fn too_many_args(max: nat, given: nat) -> Option<Failure> {
    if max == 0 && given > max {
        Some(
            (
                ErrorKind::InvalidArgumentValue,
                "Tester was called with some args but this test doesn't take args"@,
            ),
        )
    } else if given > max {
        Some(
            (
                ErrorKind::InvalidArgumentValue,
                "Tester was called with "@ + nat_text(given) + " args, the max number is "@
                    + nat_text(max),
            ),
        )
    } else {
        None
    }
}

/// Fails if a tester that takes at most `max` parameters is given more.
pub fn number_args_allowed(max: usize, args_len: usize) -> (r: Result<(), Error>)
    ensures
        match r {
            Ok(_) => too_many_args(max as nat, args_len as nat) is None,
            Err(e) => too_many_args(max as nat, args_len as nat) == Some(failure_of(e)),
        },
{
    if max == 0 && args_len > max {
        return Err(
            Error::new(
                ErrorKind::InvalidArgumentValue,
                "Tester was called with some args but this test doesn't take args",
            ),
        );
    }
    if args_len > max {
        let mut message = String::from_str("Tester was called with ");
        push_nat(&mut message, args_len as u64);
        message.append(" args, the max number is ");
        push_nat(&mut message, max as u64);
        return Err(Error { kind: ErrorKind::InvalidArgumentValue, message });
    }
    Ok(())
}

/// The failure of a tester applied to an undefined variable.
pub open spec fn undefined_failure(tester_name: Seq<char>) -> Failure {
    (
        ErrorKind::UndefinedVariable,
        "Tester `"@ + tester_name + "` was called on an undefined variable"@,
    )
}

/// The value, or a failure if it is undefined.
fn value_defined<'a>(tester_name: &str, value: Option<&'a Value>) -> (r: Result<&'a Value, Error>)
    ensures
        match r {
            Ok(v) => value == Some(v),
            Err(e) => value is None && failure_of(e) == undefined_failure(tester_name@),
        },
{
    match value {
        Some(v) => Ok(v),
        None => {
            let mut message = String::from_str("Tester `");
            message.append(tester_name);
            message.append("` was called on an undefined variable");
            Err(Error { kind: ErrorKind::UndefinedVariable, message })
        },
    }
}

/// What a tester returns that takes at most `max` parameters, needs a defined
/// value and then decides by `decide`.
pub open spec fn on_defined(
    name: Seq<char>,
    value: Option<Data>,
    given: nat,
    max: nat,
    decide: spec_fn(Data) -> Result<bool, Failure>,
) -> Result<bool, Failure> {
    match too_many_args(max, given) {
        Some(f) => Err(f),
        None => match value {
            None => Err(undefined_failure(name)),
            Some(d) => decide(d),
        },
    }
}

/// What [`defined`] returns.
pub open spec fn defined_of(value: Option<Data>, given: nat) -> Result<bool, Failure> {
    match too_many_args(0, given) {
        Some(f) => Err(f),
        None => Ok(value is Some),
    }
}

/// Whether the value is defined.
pub fn defined(value: Option<&Value>, params: &[Value]) -> (r: Result<bool, Error>)
    ensures
        verdict(r, defined_of(content(value), params@.len())),
{
    number_args_allowed(0, params.len())?;
    Ok(value.is_some())
}

/// What [`undefined`] returns.
pub open spec fn undefined_of(value: Option<Data>, given: nat) -> Result<bool, Failure> {
    match too_many_args(0, given) {
        Some(f) => Err(f),
        None => Ok(value is None),
    }
}

/// Whether the value is undefined.
pub fn undefined(value: Option<&Value>, params: &[Value]) -> (r: Result<bool, Error>)
    ensures
        verdict(r, undefined_of(content(value), params@.len())),
{
    number_args_allowed(0, params.len())?;
    Ok(value.is_none())
}

/// Whether the value is a string.
pub fn string(value: Option<&Value>, params: &[Value]) -> (r: Result<bool, Error>)
    ensures
        verdict(
            r,
            on_defined("string"@, content(value), params@.len(), 0, |d: Data| Ok(d is String)),
        ),
{
    number_args_allowed(0, params.len())?;
    match value_defined("string", value)? {
        Value::String(_) => Ok(true),
        _ => Ok(false),
    }
}

/// Whether the value is a number, integer or float.
pub fn number(value: Option<&Value>, params: &[Value]) -> (r: Result<bool, Error>)
    ensures
        verdict(
            r,
            on_defined(
                "number"@,
                content(value),
                params@.len(),
                0,
                |d: Data| Ok(d is Integer || d is Float),
            ),
        ),
{
    number_args_allowed(0, params.len())?;
    match value_defined("number", value)? {
        Value::Integer(_) => Ok(true),
        Value::Float(_) => Ok(true),
        _ => Ok(false),
    }
}

/// Whether a number is odd: whether it is anything but a whole multiple of
/// two. A float with a fractional part is odd in this sense, and so are the
/// infinities and NaN.
pub open spec fn is_odd(d: Data) -> Result<bool, Failure> {
    match number_of(d) {
        Some(n) => Ok(!n.is_multiple_of(Number::Integer(2))),
        None => Err(
            (ErrorKind::TypeMismatch, "Tester `odd` was called on a variable that isn't a number"@),
        ),
    }
}

/// Whether the value is an odd number.
pub fn odd(value: Option<&Value>, params: &[Value]) -> (r: Result<bool, Error>)
    ensures
        verdict(r, on_defined("odd"@, content(value), params@.len(), 0, |d: Data| is_odd(d))),
{
    number_args_allowed(0, params.len())?;
    match value_defined("odd", value)?.to_number() {
        Ok(n) => Ok(!n.multiple_of(&Number::Integer(2))),
        Err(_) => Err(
            Error::new(
                ErrorKind::TypeMismatch,
                "Tester `odd` was called on a variable that isn't a number",
            ),
        ),
    }
}

/// Whether a number is even: whether it is not odd.
pub open spec fn is_even(d: Data) -> Result<bool, Failure> {
    match is_odd(d) {
        Ok(b) => Ok(!b),
        Err(f) => Err(f),
    }
}

/// Whether the value is an even number.
pub fn even(value: Option<&Value>, params: &[Value]) -> (r: Result<bool, Error>)
    ensures
        verdict(r, on_defined("even"@, content(value), params@.len(), 0, |d: Data| is_even(d))),
{
    number_args_allowed(0, params.len())?;
    value_defined("even", value)?;
    let is_odd = odd(value, params)?;
    Ok(!is_odd)
}

/// Whether a number is divisible by the first parameter.
pub open spec fn is_divisible(d: Data, params: Seq<Data>) -> Result<bool, Failure> {
    match number_of(d) {
        Some(n) => match (if params.len() > 0 {
            number_of(params[0])
        } else {
            None
        }) {
            Some(p) => Ok(n.is_multiple_of(p)),
            None => Err(
                (
                    ErrorKind::TypeMismatch,
                    "Tester `divisibleby` was called with a parameter that isn't a number"@,
                ),
            ),
        },
        None => Err(
            (
                ErrorKind::TypeMismatch,
                "Tester `divisibleby` was called on a variable that isn't a number"@,
            ),
        ),
    }
}

/// Whether the value is a whole multiple of the first parameter.
pub fn divisible_by(value: Option<&Value>, params: &[Value]) -> (r: Result<bool, Error>)
    ensures
        verdict(
            r,
            on_defined(
                "divisibleby"@,
                content(value),
                params@.len(),
                1,
                |d: Data| is_divisible(d, contents(params@)),
            ),
        ),
{
    number_args_allowed(1, params.len())?;
    match value_defined("divisibleby", value)?.to_number() {
        Ok(val) => {
            let divisor = if params.len() > 0 {
                params[0].to_number()
            } else {
                Err(())
            };
            match divisor {
                Ok(p) => Ok(val.multiple_of(&p)),
                Err(_) => Err(
                    Error::new(
                        ErrorKind::TypeMismatch,
                        "Tester `divisibleby` was called with a parameter that isn't a number",
                    ),
                ),
            }
        },
        Err(_) => Err(
            Error::new(
                ErrorKind::TypeMismatch,
                "Tester `divisibleby` was called on a variable that isn't a number",
            ),
        ),
    }
}

/// Whether the value can be iterated over, which arrays can.
pub fn iterable(value: Option<&Value>, params: &[Value]) -> (r: Result<bool, Error>)
    ensures
        verdict(
            r,
            on_defined("iterable"@, content(value), params@.len(), 0, |d: Data| Ok(d is Array)),
        ),
{
    number_args_allowed(0, params.len())?;
    match value_defined("iterable", value)? {
        Value::Array(_) => Ok(true),
        _ => Ok(false),
    }
}


/// The failure of a tester that needs a string and is given something else,
/// or nothing: `part` says whether the variable or the parameter is meant.
pub open spec fn not_a_string(tester_name: Seq<char>, part: Seq<char>) -> Failure {
    (
        ErrorKind::TypeMismatch,
        "Tester `"@ + tester_name + "` was called "@ + part + " that isn't a string"@,
    )
}

/// The text of a value that is a string.
pub open spec fn text_of(value: Option<Data>) -> Option<Seq<char>> {
    match value {
        Some(Data::String(s)) => Some(s),
        _ => None,
    }
}

/// The text of a string value, or a failure for anything else.
fn extract_string<'a>(tester_name: &str, part: &str, value: Option<&'a Value>) -> (r: Result<
    &'a str,
    Error,
>)
    ensures
        match r {
            Ok(s) => text_of(content(value)) == Some(s@),
            Err(e) => text_of(content(value)) is None && failure_of(e) == not_a_string(
                tester_name@,
                part@,
            ),
        },
{
    match value {
        Some(Value::String(s)) => Ok(s.as_str()),
        _ => {
            let mut message = String::from_str("Tester `");
            message.append(tester_name);
            message.append("` was called ");
            message.append(part);
            message.append(" that isn't a string");
            Err(Error { kind: ErrorKind::TypeMismatch, message })
        },
    }
}

/// The first parameter, if there is one.
pub open spec fn first_param(params: Seq<Data>) -> Option<Data> {
    if params.len() > 0 {
        Some(params[0])
    } else {
        None
    }
}

/// The first parameter, if there is one.
fn first_of(params: &[Value]) -> (r: Option<&Value>)
    ensures
        content(r) == first_param(contents(params@)),
{
    if params.len() > 0 {
        Some(&params[0])
    } else {
        None
    }
}

/// What a tester returns that compares the text of a string value with the
/// text of a string parameter.
pub open spec fn on_texts(
    name: Seq<char>,
    d: Data,
    params: Seq<Data>,
    decide: spec_fn(Seq<char>, Seq<char>) -> Result<bool, Failure>,
) -> Result<bool, Failure> {
    match text_of(Some(d)) {
        None => Err(not_a_string(name, "on a variable"@)),
        Some(text) => match text_of(first_param(params)) {
            None => Err(not_a_string(name, "with a parameter"@)),
            Some(needle) => decide(text, needle),
        },
    }
}

/// Whether the value, a string, starts with the parameter, a string.
pub fn starting_with(value: Option<&Value>, params: &[Value]) -> (r: Result<bool, Error>)
    ensures
        verdict(
            r,
            on_defined(
                "starting_with"@,
                content(value),
                params@.len(),
                1,
                |d: Data|
                    on_texts(
                        "starting_with"@,
                        d,
                        contents(params@),
                        |text: Seq<char>, needle: Seq<char>| Ok(starts_with(text, needle)),
                    ),
            ),
        ),
{
    number_args_allowed(1, params.len())?;
    value_defined("starting_with", value)?;
    let text = extract_string("starting_with", "on a variable", value)?;
    let needle = extract_string("starting_with", "with a parameter", first_of(params))?;
    Ok(str_starts_with(text, needle))
}

/// Whether the value, a string, ends with the parameter, a string.
pub fn ending_with(value: Option<&Value>, params: &[Value]) -> (r: Result<bool, Error>)
    ensures
        verdict(
            r,
            on_defined(
                "ending_with"@,
                content(value),
                params@.len(),
                1,
                |d: Data|
                    on_texts(
                        "ending_with"@,
                        d,
                        contents(params@),
                        |text: Seq<char>, needle: Seq<char>| Ok(ends_with(text, needle)),
                    ),
            ),
        ),
{
    number_args_allowed(1, params.len())?;
    value_defined("ending_with", value)?;
    let text = extract_string("ending_with", "on a variable", value)?;
    let needle = extract_string("ending_with", "with a parameter", first_of(params))?;
    Ok(str_ends_with(text, needle))
}

/// Whether some item equals the value.
pub open spec fn has_item(items: Seq<Data>, wanted: Data) -> bool {
    exists|i: int| 0 <= i < items.len() && same(#[trigger] items[i], wanted)
}

/// What [`containing`] decides for a defined value.
pub open spec fn is_containing(d: Data, params: Seq<Data>) -> Result<bool, Failure> {
    match d {
        Data::String(text) => match text_of(first_param(params)) {
            Some(needle) => Ok(contains_text(text, needle)),
            None => Err(not_a_string("containing"@, "with a parameter"@)),
        },
        Data::Array(items) => match first_param(params) {
            Some(wanted) => Ok(has_item(items, wanted)),
            None => Err(
                (ErrorKind::MissingArgument, "Tester `containing` was called without a parameter"@),
            ),
        },
        Data::Object(entries) => match text_of(first_param(params)) {
            Some(needle) => Ok(has_key(entries, needle)),
            None => Err(not_a_string("containing"@, "with a parameter"@)),
        },
        _ => Err(
            (
                ErrorKind::TypeMismatch,
                "Tester `containing` can only be used on string, array or map"@,
            ),
        ),
    }
}

/// Whether the value contains the parameter: a string as a part of it, an
/// array as one of its items, an object as one of its keys.
#[verifier::loop_isolation(false)]
pub fn containing(value: Option<&Value>, params: &[Value]) -> (r: Result<bool, Error>)
    ensures
        verdict(
            r,
            on_defined(
                "containing"@,
                content(value),
                params@.len(),
                1,
                |d: Data| is_containing(d, contents(params@)),
            ),
        ),
{
    number_args_allowed(1, params.len())?;
    match value_defined("containing", value)? {
        Value::String(v) => {
            let needle = extract_string("containing", "with a parameter", first_of(params))?;
            Ok(str_contains(v.as_str(), needle))
        },
        Value::Array(v) => {
            let wanted = match first_of(params) {
                Some(w) => w,
                None => {
                    return Err(
                        Error::new(
                            ErrorKind::MissingArgument,
                            "Tester `containing` was called without a parameter",
                        ),
                    );
                },
            };
            let mut i: usize = 0;
            while i < v.len()
                invariant
                    i <= v@.len(),
                    forall|j: int| 0 <= j < i ==> !same(#[trigger] contents(v@)[j], wanted@),
                decreases v.len() - i,
            {
                if v[i].same_as(wanted) {
                    assert(same(contents(v@)[i as int], wanted@));
                    return Ok(true);
                }
                i += 1;
            }
            Ok(false)
        },
        Value::Object(v) => {
            let needle = extract_string("containing", "with a parameter", first_of(params))?;
            Ok(v.contains_key(needle))
        },
        _ => Err(
            Error::new(
                ErrorKind::TypeMismatch,
                "Tester `containing` can only be used on string, array or map",
            ),
        ),
    }
}

/// What [`matching`] makes of the outcome of the match.
pub open spec fn match_verdict(outcome: Result<bool, Seq<char>>) -> Result<bool, Failure> {
    match outcome {
        Ok(found) => Ok(found),
        Err(message) => Err(
            (
                ErrorKind::InvalidArgumentValue,
                "Tester `matching`: Invalid regular expression: "@ + message,
            ),
        ),
    }
}

/// The verdict of [`matching`] for the outcome of the match: the outcome
/// itself, or a failure with the message of a regular expression that does
/// not compile.
pub fn matching_verdict(outcome: Result<bool, String>) -> (r: Result<bool, Error>)
    ensures
        verdict(
            r,
            match_verdict(
                match outcome {
                    Ok(found) => Ok(found),
                    Err(message) => Err(message@),
                },
            ),
        ),
{
    match outcome {
        Ok(found) => Ok(found),
        Err(text) => {
            let mut message = String::from_str("Tester `matching`: Invalid regular expression: ");
            message.append(text.as_str());
            Err(Error { kind: ErrorKind::InvalidArgumentValue, message })
        },
    }
}

/// Whether the value, a string, matches the regular expression that the
/// parameter, a string, holds.
pub fn matching(value: Option<&Value>, params: &[Value]) -> (r: Result<bool, Error>)
    ensures
        verdict(
            r,
            on_defined(
                "matching"@,
                content(value),
                params@.len(),
                1,
                |d: Data|
                    on_texts(
                        "matching"@,
                        d,
                        contents(params@),
                        |text: Seq<char>, pattern: Seq<char>| match_verdict(regex_match(pattern, text)),
                    ),
            ),
        ),
{
    number_args_allowed(1, params.len())?;
    value_defined("matching", value)?;
    let text = extract_string("matching", "on a variable", value)?;
    let pattern = extract_string("matching", "with a parameter", first_of(params))?;
    matching_verdict(regex_is_match(pattern, text))
}

} // verus!
