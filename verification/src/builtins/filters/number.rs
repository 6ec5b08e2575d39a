//! Filters operating on numbers.

use vstd::prelude::*;
use vstd::string::StringExecFns;
use crate::builtins::args::{integer_argument, optional_integer, optional_str, string_argument};
use crate::errors::{agrees, failure_of, message_about, Error, ErrorKind, Failure};
use crate::number::{check_nan, is_nan, magnitude, magnitude_of};
use crate::text::{int_text, push_int, str_eq};
use crate::trusted::{conventional_size, file_size};
use crate::value::{Data, Object, Value};

verus! {

/// The magnitude pattern of the smallest float that counts as one: one, less
/// two units in its last place.
pub const ABOUT_ONE_FROM: u64 = 0x3fef_ffff_ffff_fffe;

/// The magnitude pattern of the largest float that counts as one: one, plus
/// one unit in its last place.
pub const ABOUT_ONE_TO: u64 = 0x3ff0_0000_0000_0001;

/// Whether the float with the given pattern counts as one or minus one: its
/// absolute value differs from one by no more than the distance from one to
/// the next float above it. A NaN counts as one.
pub open spec fn float_is_about_one(bits: u64) -> bool {
    is_nan(bits) || ABOUT_ONE_FROM <= magnitude(bits) <= ABOUT_ONE_TO
}

/// The failure of a filter applied to something that is not a number.
pub open spec fn not_a_number(value: Data) -> Failure {
    (ErrorKind::TypeMismatch, message_about("expected number got "@, value, ""@))
}

/// What [`pluralize`] returns.
pub open spec fn pluralize_of(value: Data, args: Seq<(Seq<char>, Data)>) -> Result<Data, Failure> {
    match value {
        Data::Integer(i) => if i == 1 || i == -1 {
            Ok(Data::String(""@))
        } else {
            plural_suffix(args)
        },
        Data::Float { bits, .. } => if float_is_about_one(bits) {
            Ok(Data::String(""@))
        } else {
            plural_suffix(args)
        },
        _ => Err(not_a_number(value)),
    }
}

/// The suffix for a plural: the `suffix` argument, or `s` without one.
pub open spec fn plural_suffix(args: Seq<(Seq<char>, Data)>) -> Result<Data, Failure> {
    match string_argument(args, "suffix"@, "suffix argument"@, "s"@) {
        Ok(suffix) => Ok(Data::String(suffix)),
        Err(f) => Err(f),
    }
}

/// The plural suffix for a number: nothing for one and minus one, and for
/// every other number the `suffix` argument, or `s` without one.
pub fn pluralize(value: &Value, args: &Object) -> (r: Result<Value, Error>)
    ensures
        agrees(r, pluralize_of(value@, args@)),
{
    let is_plural = match value {
        Value::Integer(num) => *num != 1 && *num != -1,
        Value::Float(num) => {
            let bits = num.to_bits();
            let m = magnitude_of(bits);
            !(check_nan(bits) || (ABOUT_ONE_FROM <= m && m <= ABOUT_ONE_TO))
        },
        val => {
            return Err(Error::about(ErrorKind::TypeMismatch, "expected number got ", val, ""));
        },
    };
    if is_plural {
        let suffix = optional_str(args, "suffix", "suffix argument", "s")?;
        Ok(Value::String(suffix.to_owned()))
    } else {
        Ok(Value::String(String::from_str("")))
    }
}

/// How to round.
#[derive(Clone, Copy, Debug, PartialEq, Eq, Structural)]
pub enum RoundMethod {
    /// To the nearest number, halves away from zero.
    Common,
    /// Up.
    Ceil,
    /// Down.
    Floor,
}

/// What rounding a value asks for.
#[derive(Debug)]
pub enum RoundRequest {
    /// An integer: it is its own rounding.
    Unchanged(i64),
    /// A float, given by its bit pattern, to be rounded by the method to the
    /// given number of decimal places.
    Round { bits: u64, method: RoundMethod, precision: i64 },
}

/// The method that a name stands for.
pub open spec fn method_named(name: Seq<char>) -> Option<RoundMethod> {
    if name == "common"@ {
        Some(RoundMethod::Common)
    } else if name == "ceil"@ {
        Some(RoundMethod::Ceil)
    } else if name == "floor"@ {
        Some(RoundMethod::Floor)
    } else {
        None
    }
}

/// What [`round_request`] returns.
pub open spec fn round_request_of(value: Data, args: Seq<(Seq<char>, Data)>) -> Result<
    RoundRequest,
    Failure,
> {
    match value {
        Data::Integer(i) => Ok(RoundRequest::Unchanged(i as i64)),
        Data::Float { bits, .. } => match string_argument(
            args,
            "method"@,
            "`method` argument"@,
            "common"@,
        ) {
            Err(f) => Err(f),
            Ok(name) => match integer_argument(args, "precision"@, "`precision` argument"@, 0) {
                Err(f) => Err(f),
                Ok(precision) => match method_named(name) {
                    Some(method) => Ok(RoundRequest::Round { bits, method, precision: precision as i64 }),
                    None => Err(
                        (
                            ErrorKind::InvalidArgumentValue,
                            "Filter `round` received an incorrect value for arg `method`: got `\""@
                                + name + "\"`, only common, ceil and floor are allowed"@,
                        ),
                    ),
                },
            },
        },
        _ => Err(not_a_number(value)),
    }
}

/// Reads what the `round` filter is asked to do: an integer stays as it is;
/// a float is rounded by the `method` argument (`common`, `ceil` or `floor`;
/// default `common`) to `precision` decimal places (default 0). The rounding
/// itself is floating-point arithmetic and is left to the caller.
pub fn round_request(value: &Value, args: &Object) -> (r: Result<RoundRequest, Error>)
    ensures
        match r {
            Ok(request) => round_request_of(value@, args@) == Ok::<RoundRequest, Failure>(request),
            Err(e) => round_request_of(value@, args@) == Err::<RoundRequest, Failure>(failure_of(e)),
        },
{
    let bits = match value {
        Value::Integer(num) => {
            return Ok(RoundRequest::Unchanged(*num));
        },
        Value::Float(num) => num.to_bits(),
        val => {
            return Err(Error::about(ErrorKind::TypeMismatch, "expected number got ", val, ""));
        },
    };
    let name = optional_str(args, "method", "`method` argument", "common")?;
    let precision = optional_integer(args, "precision", "`precision` argument", 0)?;
    let method = if str_eq(name, "common") {
        RoundMethod::Common
    } else if str_eq(name, "ceil") {
        RoundMethod::Ceil
    } else if str_eq(name, "floor") {
        RoundMethod::Floor
    } else {
        let mut message = String::from_str(
            "Filter `round` received an incorrect value for arg `method`: got `\"",
        );
        message.append(name);
        message.append("\"`, only common, ceil and floor are allowed");
        return Err(Error { kind: ErrorKind::InvalidArgumentValue, message });
    };
    Ok(RoundRequest::Round { bits, method, precision })
}

/// What [`filesizeformat`] returns.
pub open spec fn filesizeformat_of(value: Data) -> Result<Data, Failure> {
    match value {
        Data::Integer(i) => if i < 0 {
            Err(
                (
                    ErrorKind::DomainError,
                    "Filter `filesizeformat` was called on a negative number: "@ + int_text(i),
                ),
            )
        } else {
            Ok(Data::String(conventional_size(i as i64)))
        },
        _ => Err((ErrorKind::TypeMismatch, message_about("expected integer number got "@, value, ""@))),
    }
}

/// What [`filesizeformat`] makes of the size in words that it was given for
/// the number.
pub fn size_or_failure(num: i64, size: Option<String>) -> (r: Result<Value, Error>)
    ensures
        match size {
            Some(text) => r matches Ok(v) && v@ == Data::String(text@),
            None => r matches Err(e) && failure_of(e) == (
                ErrorKind::DomainError,
                "Filter `filesizeformat` was called on a negative number: "@ + int_text(num as int),
            ),
        },
{
    match size {
        Some(text) => Ok(Value::String(text)),
        None => {
            let mut message = String::from_str(
                "Filter `filesizeformat` was called on a negative number: ",
            );
            push_int(&mut message, num);
            Err(Error { kind: ErrorKind::DomainError, message })
        },
    }
}

/// A number of bytes as a human-readable file size, such as `110 MB`.
pub fn filesizeformat(value: &Value, _args: &Object) -> (r: Result<Value, Error>)
    ensures
        agrees(r, filesizeformat_of(value@)),
{
    let num = value.try_integer()?;
    size_or_failure(num, file_size(num))
}

} // verus!
