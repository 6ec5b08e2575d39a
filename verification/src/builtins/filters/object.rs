//! Filters operating on objects.

use vstd::prelude::*;
use vstd::string::StringExecFns;
use crate::builtins::args::required;
use crate::errors::{agrees, argument_failure, message_about, Error, ErrorKind, Failure};
use crate::value::{lookup, Data, Object, Value};

verus! {

/// What [`get`] returns.
pub open spec fn get_of(value: Data, args: Seq<(Seq<char>, Data)>) -> Result<Data, Failure> {
    match lookup(args, "key"@) {
        None => Err((ErrorKind::MissingArgument, "The `get` filter has to have an `key` argument"@)),
        Some(Data::String(key)) => match value {
            Data::Object(entries) => match lookup(entries, key) {
                Some(found) => Ok(found),
                None => Err(
                    (
                        ErrorKind::FieldNotFound,
                        "Filter `get` tried to get key `"@ + key + "` but it wasn't found"@,
                    ),
                ),
            },
            _ => Err((ErrorKind::TypeMismatch, message_about("expected object got "@, value, ""@))),
        },
        Some(d) => Err(argument_failure("`key` argument"@, "expected string got "@, d)),
    }
}

/// The value that an object holds under the `key` argument.
pub fn get(value: &Value, args: &Object) -> (r: Result<Value, Error>)
    ensures
        agrees(r, get_of(value@, args@)),
{
    let key = required(args, "key", "The `get` filter has to have an `key` argument")?;
    let key = match key.try_str() {
        Ok(s) => s,
        Err(e) => {
            return Err(Error::chain("`key` argument", e));
        },
    };
    match value.try_object()?.get(key) {
        Some(found) => Ok(found.clone()),
        None => {
            let mut message = String::from_str("Filter `get` tried to get key `");
            message.append(key);
            message.append("` but it wasn't found");
            Err(Error { kind: ErrorKind::FieldNotFound, message })
        },
    }
}

} // verus!
