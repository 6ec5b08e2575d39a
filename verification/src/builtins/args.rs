//! Reading named arguments.

use vstd::prelude::*;
use crate::errors::{argument_failure, failure_of, Error, ErrorKind, Failure};
use crate::value::{lookup, Data, Object, Value};

verus! {

/// The string under `name`, or `default` if the argument is absent; a failure
/// if the argument is not a string.
pub open spec fn string_argument(
    args: Seq<(Seq<char>, Data)>,
    name: Seq<char>,
    context: Seq<char>,
    default: Seq<char>,
) -> Result<Seq<char>, Failure> {
    match lookup(args, name) {
        None => Ok(default),
        Some(Data::String(s)) => Ok(s),
        Some(d) => Err(argument_failure(context, "expected string got "@, d)),
    }
}

/// The integer under `name`, or `default` if the argument is absent; a
/// failure if the argument is not an integer.
pub open spec fn integer_argument(
    args: Seq<(Seq<char>, Data)>,
    name: Seq<char>,
    context: Seq<char>,
    default: int,
) -> Result<int, Failure> {
    match lookup(args, name) {
        None => Ok(default),
        Some(Data::Integer(i)) => Ok(i),
        Some(d) => Err(argument_failure(context, "expected integer number got "@, d)),
    }
}

/// The string argument `name`, or `default` if it is absent.
pub fn optional_str<'a>(args: &'a Object, name: &str, context: &str, default: &'a str) -> (r: Result<
    &'a str,
    Error,
>)
    ensures
        match r {
            Ok(s) => string_argument(args@, name@, context@, default@) == Ok::<Seq<char>, Failure>(s@),
            Err(e) => string_argument(args@, name@, context@, default@) == Err::<Seq<char>, Failure>(
                failure_of(e),
            ),
        },
{
    match args.get(name) {
        Some(val) => match val.try_str() {
            Ok(s) => Ok(s),
            Err(e) => Err(Error::chain(context, e)),
        },
        None => Ok(default),
    }
}

/// The integer argument `name`, or `default` if it is absent.
pub fn optional_integer(args: &Object, name: &str, context: &str, default: i64) -> (r: Result<
    i64,
    Error,
>)
    ensures
        match r {
            Ok(i) => integer_argument(args@, name@, context@, default as int) == Ok::<int, Failure>(
                i as int,
            ),
            Err(e) => integer_argument(args@, name@, context@, default as int) == Err::<int, Failure>(
                failure_of(e),
            ),
        },
{
    match args.get(name) {
        Some(val) => match val.try_integer() {
            Ok(i) => Ok(i),
            Err(e) => Err(Error::chain(context, e)),
        },
        None => Ok(default),
    }
}

/// The argument `name`, or a `MissingArgument` error with the given message.
pub fn required<'a>(args: &'a Object, name: &str, message: &str) -> (r: Result<&'a Value, Error>)
    ensures
        match r {
            Ok(v) => lookup(args@, name@) == Some(v@),
            Err(e) => lookup(args@, name@) is None && e.kind == ErrorKind::MissingArgument
                && e.message@ == message@,
        },
{
    match args.get(name) {
        Some(val) => Ok(val),
        None => Err(Error::new(ErrorKind::MissingArgument, message)),
    }
}

} // verus!
