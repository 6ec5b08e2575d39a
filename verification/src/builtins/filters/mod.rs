//! Filters: functions from a value and named arguments to a new value.

use vstd::prelude::*;
use crate::errors::Error;
use crate::value::{Object, Value};

pub mod array;
pub mod common;
pub mod number;
pub mod object;
pub mod string;

verus! {

/// A filter.
pub trait Filter {
    /// Applies the filter to a value, with the given named arguments.
    fn filter(&self, value: &Value, args: &Object) -> Result<Value, Error>;
}

} // verus!
