//! The evaluation core of a template engine: a dynamically typed value model,
//! scoped variable resolution, a sort engine that holds every key to one kind,
//! and the built-in filters, functions and testers that work on those values.
//!
//! Every function of this library is verified against its contract, but for
//! the few in the module `trusted`, which call into other crates and into the
//! standard library. No function panics.
//!
//! The library does no floating-point arithmetic. A float is held as its
//! IEEE-754 bit pattern, by which it is classified, compared and ordered
//! exactly, and as the decimal text that it is printed with.

pub mod builtins;
pub mod context;
pub mod errors;
pub mod number;
pub mod renderer;
pub mod sort_utils;
pub mod text;
pub mod trusted;
pub mod value;
