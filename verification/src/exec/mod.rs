//! Async executive for futures on JavaScript.

pub mod runtime;
pub mod time;
