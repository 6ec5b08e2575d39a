//! The scopes that a render keeps while it walks a template.

pub mod for_loop;
pub mod stack_frame;
