//! The errors that operations on values report.

use vstd::prelude::*;
use vstd::string::StringExecFns;
use crate::value::{display, Data, Value};

verus! {

/// What went wrong.
#[derive(Clone, Copy, Debug, PartialEq, Eq, Structural)]
pub enum ErrorKind {
    /// An operation needed a value of one type and was given another.
    TypeMismatch,
    /// A required named argument was absent.
    MissingArgument,
    /// An argument was present but its value makes no sense.
    InvalidArgumentValue,
    /// A variable was looked up and not found.
    UndefinedVariable,
    /// A value cannot serve as a sort key.
    NotSortable,
    /// A dotted path did not lead to a value.
    FieldNotFound,
    /// A number lies outside the domain of an operation.
    DomainError,
    /// An error that a template raised on purpose.
    Raised,
}

/// An error: its kind and a message for the template's author.
#[derive(Debug)]
pub struct Error {
    pub kind: ErrorKind,
    pub message: String,
}

impl Clone for Error {
    fn clone(&self) -> (e: Error)
        ensures
            e.kind == self.kind,
            e.message@ == self.message@,
    {
        Error { kind: self.kind, message: self.message.clone() }
    }
}

/// The message that names an offending value between `prefix` and `suffix`.
pub open spec fn message_about(prefix: Seq<char>, value: Data, suffix: Seq<char>) -> Seq<char> {
    prefix + display(value) + suffix
}

/// The message of an error put into context: the context, a colon and a
/// space, then the message that the error had.
pub open spec fn message_in_context(context: Seq<char>, message: Seq<char>) -> Seq<char> {
    context + ": "@ + message
}

impl Error {
    /// An error with the given message.
    pub fn new(kind: ErrorKind, message: &str) -> (e: Error)
        ensures
            e.kind == kind,
            e.message@ == message@,
    {
        Error { kind, message: String::from_str(message) }
    }

    /// An error whose message shows `value` between `prefix` and `suffix`.
    pub fn about(kind: ErrorKind, prefix: &str, value: &Value, suffix: &str) -> (e: Error)
        ensures
            e.kind == kind,
            e.message@ == message_about(prefix@, value@, suffix@),
    {
        let mut message = String::from_str(prefix);
        value.push_display(&mut message);
        message.append(suffix);
        Error { kind, message }
    }

    /// The same kind of error, with `context` in front of its message.
    pub fn chain(context: &str, inner: Error) -> (e: Error)
        ensures
            e.kind == inner.kind,
            e.message@ == message_in_context(context@, inner.message@),
    {
        let mut message = String::from_str(context);
        message.append(": ");
        message.append(inner.message.as_str());
        Error { kind: inner.kind, message }
    }

    /// The message.
    pub fn to_string(&self) -> (s: String)
        ensures
            s@ == self.message@,
    {
        self.message.clone()
    }
}

/// What an error says, for contracts: its kind and the text of its message.
pub type Failure = (ErrorKind, Seq<char>);

/// Whether a result is the expected one: the expected value's content on
/// success, the expected kind and message on failure.
pub open spec fn agrees(r: Result<Value, Error>, expected: Result<Data, Failure>) -> bool {
    match (r, expected) {
        (Ok(v), Ok(d)) => v@ == d,
        (Err(e), Err(f)) => e.kind == f.0 && e.message@ == f.1,
        _ => false,
    }
}

/// The failure that `e` stands for.
pub open spec fn failure_of(e: Error) -> Failure {
    (e.kind, e.message@)
}

/// The failure of an argument of the wrong type: a `TypeMismatch` whose
/// message names the argument, what was expected, and what was given.
pub open spec fn argument_failure(context: Seq<char>, expected: Seq<char>, given: Data) -> Failure {
    (ErrorKind::TypeMismatch, message_in_context(context, message_about(expected, given, ""@)))
}

} // verus!
