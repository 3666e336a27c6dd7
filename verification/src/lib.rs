//! Turns the arguments of an `add` invocation into dependency operations.

pub mod error;
pub mod feature;
pub mod laws;
pub mod ordered;
pub mod parse;
pub mod request;
pub mod section;
pub mod table;
