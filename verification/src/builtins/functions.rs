//! Global functions: functions from named arguments to a value.

use vstd::prelude::*;
use vstd::string::StringExecFns;
use crate::errors::{agrees, failure_of, message_about, Error, ErrorKind, Failure};
use crate::trusted::{local_now, utc_now};
use crate::value::{contents, lookup, Data, Object, Value};

verus! {

/// A global function.
pub trait Function {
    /// Calls the function with the given named arguments.
    fn call(&self, args: &Object) -> Result<Value, Error>;
}

/// A number argument that must not be negative: the integer under `name`,
/// `default` if the argument is absent, and a failure for anything else.
pub open spec fn count_argument(
    args: Seq<(Seq<char>, Data)>,
    name: Seq<char>,
    least: int,
    default: Option<int>,
    prefix: Seq<char>,
    suffix: Seq<char>,
    missing: Seq<char>,
) -> Result<int, Failure> {
    match lookup(args, name) {
        Some(Data::Integer(v)) => if v >= least {
            Ok(v)
        } else {
            Err((ErrorKind::InvalidArgumentValue, message_about(prefix, Data::Integer(v), suffix)))
        },
        Some(d) => Err((ErrorKind::InvalidArgumentValue, message_about(prefix, d, suffix))),
        None => match default {
            Some(v) => Ok(v),
            None => Err((ErrorKind::MissingArgument, missing)),
        },
    }
}

/// Reads a number argument that must be at least `least`.
fn read_count(
    args: &Object,
    name: &str,
    least: i64,
    default: Option<i64>,
    prefix: &str,
    suffix: &str,
    missing: &str,
) -> (r: Result<i64, Error>)
    ensures
        match r {
            Ok(v) => count_argument(
                args@,
                name@,
                least as int,
                match default {
                    Some(d) => Some(d as int),
                    None => None,
                },
                prefix@,
                suffix@,
                missing@,
            ) == Ok::<int, Failure>(v as int),
            Err(e) => count_argument(
                args@,
                name@,
                least as int,
                match default {
                    Some(d) => Some(d as int),
                    None => None,
                },
                prefix@,
                suffix@,
                missing@,
            ) == Err::<int, Failure>(failure_of(e)),
        },
{
    match args.get(name) {
        Some(val) => {
            match val {
                Value::Integer(v) => {
                    if *v >= least {
                        return Ok(*v);
                    }
                },
                _ => {},
            }
            Err(Error::about(ErrorKind::InvalidArgumentValue, prefix, val, suffix))
        },
        None => match default {
            Some(v) => Ok(v),
            None => Err(Error::new(ErrorKind::MissingArgument, missing)),
        },
    }
}

/// The number of steps of size `step` from `start` that stay below `end`.
pub open spec fn range_len(start: int, end: int, step: int) -> nat {
    if start < end && step > 0 {
        ((end - start + step - 1) / step) as nat
    } else {
        0
    }
}

/// The integers from `start`, in steps of `step`, below `end`.
pub open spec fn range_items(start: int, end: int, step: int) -> Seq<Data> {
    Seq::new(range_len(start, end, step), |k: int| Data::Integer(start + k * step))
}

/// What [`range`] returns.
pub open spec fn range_of(args: Seq<(Seq<char>, Data)>) -> Result<Data, Failure> {
    match count_argument(
        args,
        "start"@,
        0,
        Some(0),
        "function received start="@,
        " but `start` can only be a non-negative number"@,
        ""@,
    ) {
        Err(f) => Err(f),
        Ok(start) => match count_argument(
            args,
            "step_by"@,
            1,
            Some(1),
            "function received step_by="@,
            " but `step` can only be a positive number"@,
            ""@,
        ) {
            Err(f) => Err(f),
            Ok(step) => match count_argument(
                args,
                "end"@,
                0,
                None,
                "function received end="@,
                " but `end` can only be a non-negative number"@,
                "function was called without a `end` argument"@,
            ) {
                Err(f) => Err(f),
                Ok(end) => if start > end {
                    Err(
                        (
                            ErrorKind::InvalidArgumentValue,
                            "function was called without a `start` argument greater than the `end` one"@,
                        ),
                    )
                } else {
                    Ok(Data::Array(range_items(start, end, step)))
                },
            },
        },
    }
}

proof fn lemma_range_step(start: int, end: int, step: int, k: int)
    by (nonlinear_arith)
    requires
        step > 0,
        k >= 0,
        start + k * step < end,
    ensures
        k < (end - start + step - 1) / step,
        start + (k + 1) * step == start + k * step + step,
{
}

proof fn lemma_range_end(start: int, end: int, step: int, k: int)
    by (nonlinear_arith)
    requires
        step > 0,
        k >= 0,
        start <= end,
        start + k * step >= end,
        k > 0 ==> start + (k - 1) * step < end,
    ensures
        k == if start < end {
            (end - start + step - 1) / step
        } else {
            0
        },
{
}

/// The array of the integers from `start` (default 0) up to, not including,
/// `end`, in steps of `step_by` (default 1).
pub fn range(args: &Object) -> (r: Result<Value, Error>)
    ensures
        agrees(r, range_of(args@)),
{
    let start = read_count(
        args,
        "start",
        0,
        Some(0),
        "function received start=",
        " but `start` can only be a non-negative number",
        "",
    )?;
    let step_by = read_count(
        args,
        "step_by",
        1,
        Some(1),
        "function received step_by=",
        " but `step` can only be a positive number",
        "",
    )?;
    let end = read_count(
        args,
        "end",
        0,
        None,
        "function received end=",
        " but `end` can only be a non-negative number",
        "function was called without a `end` argument",
    )?;
    if start > end {
        return Err(
            Error::new(
                ErrorKind::InvalidArgumentValue,
                "function was called without a `start` argument greater than the `end` one",
            ),
        );
    }
    let mut i: i64 = start;
    let mut res: Vec<Value> = Vec::new();
    let ghost mut k: int = 0;
    while i < end
        invariant
            0 <= start <= end,
            step_by >= 1,
            k >= 0,
            k == res@.len(),
            i == start + k * step_by || (i >= end && start + k * step_by >= end),
            i >= start,
            k > 0 ==> start + (k - 1) * step_by < end,
            forall|j: int| 0 <= j < k ==> (#[trigger] res@[j])@ == Data::Integer(start + j * step_by),
        decreases end - i,
    {
        proof {
            lemma_range_step(start as int, end as int, step_by as int, k);
        }
        res.push(Value::Integer(i));
        proof {
            k = k + 1;
        }
        if step_by >= end - i {
            i = end;
        } else {
            i += step_by;
        }
    }
    proof {
        lemma_range_end(start as int, end as int, step_by as int, k);
        assert(contents(res@) =~= range_items(start as int, end as int, step_by as int));
    }
    Ok(Value::Array(res))
}

/// A boolean argument: the boolean under `name`, false if the argument is
/// absent, and a failure for anything else.
pub open spec fn flag_argument(
    args: Seq<(Seq<char>, Data)>,
    name: Seq<char>,
    prefix: Seq<char>,
    suffix: Seq<char>,
) -> Result<bool, Failure> {
    match lookup(args, name) {
        Some(Data::Bool(v)) => Ok(v),
        Some(d) => Err((ErrorKind::InvalidArgumentValue, message_about(prefix, d, suffix))),
        None => Ok(false),
    }
}

/// Reads a boolean argument.
fn read_flag(args: &Object, name: &str, prefix: &str, suffix: &str) -> (r: Result<bool, Error>)
    ensures
        match r {
            Ok(v) => flag_argument(args@, name@, prefix@, suffix@) == Ok::<bool, Failure>(v),
            Err(e) => flag_argument(args@, name@, prefix@, suffix@) == Err::<bool, Failure>(
                failure_of(e),
            ),
        },
{
    match args.get(name) {
        Some(val) => match val {
            Value::Bool(v) => Ok(*v),
            _ => Err(Error::about(ErrorKind::InvalidArgumentValue, prefix, val, suffix)),
        },
        None => Ok(false),
    }
}

/// What [`now`] is asked for: whether in UTC, and whether as a timestamp.
pub open spec fn now_request(args: Seq<(Seq<char>, Data)>) -> Result<(bool, bool), Failure> {
    match flag_argument(
        args,
        "utc"@,
        "Global function `now` received utc="@,
        " but `utc` can only be a boolean"@,
    ) {
        Err(f) => Err(f),
        Ok(utc) => match flag_argument(
            args,
            "timestamp"@,
            "Global function `now` received timestamp="@,
            " but `timestamp` can only be a boolean"@,
        ) {
            Err(f) => Err(f),
            Ok(timestamp) => Ok((utc, timestamp)),
        },
    }
}

/// The value for a moment: its timestamp if that is wanted, and else its
/// text.
pub fn moment_value(timestamp_wanted: bool, seconds: i64, text: String) -> (v: Value)
    ensures
        v@ == if timestamp_wanted {
            Data::Integer(seconds as int)
        } else {
            Data::String(text@)
        },
{
    if timestamp_wanted {
        Value::Integer(seconds)
    } else {
        Value::String(text)
    }
}

/// The current time: in UTC if the `utc` argument is true and else in the
/// machine's time zone; as a timestamp in seconds if the `timestamp` argument
/// is true and else as RFC 3339 text. It fails exactly when one of the two
/// arguments is given and is not a boolean.
pub fn now(args: &Object) -> (r: Result<Value, Error>)
    ensures
        match r {
            Ok(v) => now_request(args@) matches Ok((utc, timestamp)) && if timestamp {
                v@ is Integer
            } else {
                v@ is String
            },
            Err(e) => now_request(args@) == Err::<(bool, bool), Failure>(failure_of(e)),
        },
{
    let utc = read_flag(
        args,
        "utc",
        "Global function `now` received utc=",
        " but `utc` can only be a boolean",
    )?;
    let timestamp = read_flag(
        args,
        "timestamp",
        "Global function `now` received timestamp=",
        " but `timestamp` can only be a boolean",
    )?;
    let (seconds, text) = if utc {
        utc_now()
    } else {
        local_now()
    };
    Ok(moment_value(timestamp, seconds, text))
}

/// The failure that [`throw`] returns.
pub open spec fn throw_of(args: Seq<(Seq<char>, Data)>) -> Failure {
    match lookup(args, "message"@) {
        Some(Data::String(message)) => (ErrorKind::Raised, message),
        Some(d) => (
            ErrorKind::InvalidArgumentValue,
            message_about(
                "Global function `throw` received message="@,
                d,
                " but `message` can only be a string"@,
            ),
        ),
        None => (
            ErrorKind::MissingArgument,
            "Global function `throw` was called without a `message` argument"@,
        ),
    }
}

/// Fails, with the `message` argument as the error's message.
pub fn throw(args: &Object) -> (r: Result<Value, Error>)
    ensures
        r matches Err(e) && failure_of(e) == throw_of(args@),
{
    match args.get("message") {
        Some(val) => match val {
            Value::String(v) => Err(Error::new(ErrorKind::Raised, v.as_str())),
            _ => Err(
                Error::about(
                    ErrorKind::InvalidArgumentValue,
                    "Global function `throw` received message=",
                    val,
                    " but `message` can only be a string",
                ),
            ),
        },
        None => Err(
            Error::new(
                ErrorKind::MissingArgument,
                "Global function `throw` was called without a `message` argument",
            ),
        ),
    }
}

} // verus!
