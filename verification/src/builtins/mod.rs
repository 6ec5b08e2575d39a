//! The built-in filters, functions and testers.

pub mod args;
pub mod filters;
pub mod functions;
pub mod testers;
