//! Filters operating on several types.

use vstd::prelude::*;
use vstd::string::{StrSliceExecFns, StringExecFns};
use crate::builtins::args::{optional_str, string_argument};
use crate::context::push_rendered;
use crate::errors::{agrees, message_about, Error, ErrorKind, Failure};
use crate::text::to_chars;
use crate::trusted::{
    date_moment, fixed_text, format_fixed, format_naive, format_utc, naive_moment, naive_text,
    parse_date, parse_naive_datetime, parse_rfc3339, push_char, rfc3339_moment, utc_text,
};
use crate::value::{contents, lookup, rendering, Data, Object, Value};

verus! {

/// A count as an integer value; a count too large for one becomes the
/// largest integer.
pub open spec fn count_value(n: nat) -> Data {
    if n <= i64::MAX {
        Data::Integer(n as int)
    } else {
        Data::Integer(i64::MAX as int)
    }
}

/// A count as an integer value.
fn count(n: usize) -> (v: Value)
    ensures
        v@ == count_value(n as nat),
{
    if n as u128 <= i64::MAX as u128 {
        Value::Integer(n as i64)
    } else {
        Value::Integer(i64::MAX)
    }
}

/// What [`length`] returns.
pub open spec fn length_of(value: Data) -> Result<Data, Failure> {
    match value {
        Data::Array(items) => Ok(count_value(items.len())),
        Data::String(s) => Ok(count_value(s.len())),
        _ => Ok(Data::Integer(0)),
    }
}

/// The number of items of an array or of characters of a string; zero for
/// any other value.
pub fn length(value: &Value, _args: &Object) -> (r: Result<Value, Error>)
    ensures
        agrees(r, length_of(value@)),
{
    match value {
        Value::Array(arr) => Ok(count(arr.len())),
        Value::String(s) => Ok(count(s.as_str().unicode_len())),
        _ => Ok(Value::Integer(0)),
    }
}

/// What [`reverse`] returns.
pub open spec fn reverse_of(value: Data) -> Result<Data, Failure> {
    match value {
        Data::Array(items) => Ok(Data::Array(items.reverse())),
        Data::String(s) => Ok(Data::String(s.reverse())),
        _ => Err(
            (
                ErrorKind::TypeMismatch,
                message_about(
                    "Filter `reverse` received an incorrect type for arg `value`: got `"@,
                    value,
                    "` but expected Array|String"@,
                ),
            ),
        ),
    }
}

/// The items of an array, or the characters of a string, in reverse order.
pub fn reverse(value: &Value, _args: &Object) -> (r: Result<Value, Error>)
    ensures
        agrees(r, reverse_of(value@)),
{
    match value {
        Value::Array(arr) => {
            let mut rev: Vec<Value> = Vec::new();
            let mut i: usize = arr.len();
            while i > 0
                invariant
                    i <= arr@.len(),
                    rev@.len() == arr@.len() - i,
                    forall|j: int|
                        0 <= j < rev@.len() ==> (#[trigger] rev@[j])@ == arr@[arr@.len() - 1 - j]@,
                decreases i,
            {
                i -= 1;
                rev.push(arr[i].clone());
            }
            assert(contents(rev@) =~= contents(arr@).reverse());
            Ok(Value::Array(rev))
        },
        Value::String(s) => {
            let chars = to_chars(s.as_str());
            let mut rev = String::new();
            let mut i: usize = chars.len();
            while i > 0
                invariant
                    i <= chars@.len(),
                    rev@.len() == chars@.len() - i,
                    forall|j: int| 0 <= j < rev@.len() ==> rev@[j] == chars@[chars@.len() - 1 - j],
                decreases i,
            {
                i -= 1;
                push_char(&mut rev, chars[i]);
            }
            assert(rev@ =~= s@.reverse());
            Ok(Value::String(rev))
        },
        _ => Err(
            Error::about(
                ErrorKind::TypeMismatch,
                "Filter `reverse` received an incorrect type for arg `value`: got `",
                value,
                "` but expected Array|String",
            ),
        ),
    }
}

/// The value rendered as a string.
pub fn as_str(value: &Value, _args: &Object) -> (r: Result<Value, Error>)
    ensures
        r matches Ok(v) && v@ == Data::String(rendering(value@)),
{
    let mut out = String::new();
    push_rendered(value, &mut out);
    Ok(Value::String(out))
}

/// Whether JSON is to be pretty-printed: whether the `pretty` argument is
/// the boolean true.
pub open spec fn pretty_wanted(args: Seq<(Seq<char>, Data)>) -> bool {
    lookup(args, "pretty"@) == Some(Data::Bool(true))
}

/// Whether the `json_encode` filter is asked to pretty-print. Encoding the
/// value is left to the caller.
pub fn json_encode_pretty(args: &Object) -> (pretty: bool)
    ensures
        pretty == pretty_wanted(args@),
{
    match args.get("pretty") {
        Some(Value::Bool(b)) => *b,
        _ => false,
    }
}


/// What [`date`] makes of the text that formatting gave: the text as a
/// string value, or a failure if there is none.
pub open spec fn formatted_or_failure(text: Option<Seq<char>>, format: Seq<char>) -> Result<
    Data,
    Failure,
> {
    match text {
        Some(t) => Ok(Data::String(t)),
        None => Err(
            (
                ErrorKind::InvalidArgumentValue,
                "Filter `date` cannot show this date in the format `"@ + format + "`"@,
            ),
        ),
    }
}

/// What [`date`] returns. An integer is a timestamp, formatted without time
/// zone. A string with a `T` in it is an RFC 3339 date and time, formatted
/// at its own offset, or else a date and time without time zone. Any other
/// string is a date in the form `YYYY-MM-DD`, formatted as midnight UTC.
pub open spec fn date_of(value: Data, args: Seq<(Seq<char>, Data)>) -> Result<Data, Failure> {
    match string_argument(args, "format"@, "format argument"@, "%Y-%m-%d"@) {
        Err(f) => Err(f),
        Ok(format) => match value {
            Data::Integer(i) => formatted_or_failure(naive_text(i as i64, 0, format), format),
            Data::String(s) => if s.contains('T') {
                match rfc3339_moment(s) {
                    Some((seconds, nanos, offset)) => formatted_or_failure(
                        fixed_text(seconds, nanos, offset, format),
                        format,
                    ),
                    None => match naive_moment(s) {
                        Some((seconds, nanos)) => formatted_or_failure(
                            naive_text(seconds, nanos, format),
                            format,
                        ),
                        None => Err(
                            (
                                ErrorKind::DomainError,
                                message_about(
                                    "Error parsing `"@,
                                    value,
                                    "` as rfc3339 date or naive datetime"@,
                                ),
                            ),
                        ),
                    },
                }
            } else {
                match date_moment(s, "%Y-%m-%d"@) {
                    Some(seconds) => formatted_or_failure(utc_text(seconds, 0, format), format),
                    None => Err(
                        (
                            ErrorKind::DomainError,
                            message_about("Error parsing `"@, value, "` as YYYY-MM-DD date"@),
                        ),
                    ),
                }
            },
            _ => Err(
                (
                    ErrorKind::TypeMismatch,
                    message_about(
                        "Filter `date` received an incorrect type for arg `value`: got `"@,
                        value,
                        "` but expected i64|u64|String"@,
                    ),
                ),
            ),
        },
    }
}

/// The formatted date as a string value, or the failure that says that the
/// date could not be shown in the format.
pub fn formatted_date(text: Option<String>, format: &str) -> (r: Result<Value, Error>)
    ensures
        agrees(
            r,
            formatted_or_failure(
                match text {
                    Some(t) => Some(t@),
                    None => None,
                },
                format@,
            ),
        ),
{
    match text {
        Some(t) => Ok(Value::String(t)),
        None => {
            let mut message = String::from_str("Filter `date` cannot show this date in the format `");
            message.append(format);
            message.append("`");
            Err(Error { kind: ErrorKind::InvalidArgumentValue, message })
        },
    }
}

/// Whether the text holds the letter `T`.
fn has_time_marker(s: &str) -> (r: bool)
    ensures
        r == s@.contains('T'),
{
    let chars = to_chars(s);
    let mut i: usize = 0;
    while i < chars.len()
        invariant
            i <= chars@.len(),
            chars@ == s@,
            forall|j: int| 0 <= j < i ==> chars@[j] != 'T',
        decreases chars.len() - i,
    {
        if chars[i] == 'T' {
            return true;
        }
        i += 1;
    }
    false
}

/// A date, formatted by the `format` argument (default `%Y-%m-%d`). The
/// value is a timestamp in seconds, an RFC 3339 date and time, a date and
/// time without time zone, or a date in the form `YYYY-MM-DD`.
pub fn date(value: &Value, args: &Object) -> (r: Result<Value, Error>)
    ensures
        agrees(r, date_of(value@, args@)),
{
    let format = optional_str(args, "format", "format argument", "%Y-%m-%d")?;
    match value {
        Value::Integer(i) => formatted_date(format_naive(*i, 0, format), format),
        Value::String(s) => {
            if has_time_marker(s.as_str()) {
                match parse_rfc3339(s.as_str()) {
                    Some((seconds, nanos, offset)) => formatted_date(
                        format_fixed(seconds, nanos, offset, format),
                        format,
                    ),
                    None => match parse_naive_datetime(s.as_str()) {
                        Some((seconds, nanos)) => formatted_date(
                            format_naive(seconds, nanos, format),
                            format,
                        ),
                        None => Err(
                            Error::about(
                                ErrorKind::DomainError,
                                "Error parsing `",
                                value,
                                "` as rfc3339 date or naive datetime",
                            ),
                        ),
                    },
                }
            } else {
                match parse_date(s.as_str(), "%Y-%m-%d") {
                    Some(seconds) => formatted_date(format_utc(seconds, 0, format), format),
                    None => Err(
                        Error::about(
                            ErrorKind::DomainError,
                            "Error parsing `",
                            value,
                            "` as YYYY-MM-DD date",
                        ),
                    ),
                }
            }
        },
        _ => Err(
            Error::about(
                ErrorKind::TypeMismatch,
                "Filter `date` received an incorrect type for arg `value`: got `",
                value,
                "` but expected i64|u64|String",
            ),
        ),
    }
}

} // verus!
