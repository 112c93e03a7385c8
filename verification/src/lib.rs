//! A small stack language: a stack of 32-bit integers, a dictionary of
//! user-defined words, and one entry point that takes a line of text.
//!
//! [`Machine::eval`] takes a line. A line that begins with `:` defines a
//! word; any other line is an expression, run on the stack. What a line does
//! is laid down in [`model`], and [`laws`] holds what follows from it.

pub mod arith;
pub mod error;
pub mod laws;
pub mod machine;
pub mod model;
pub mod number;
pub mod text;
pub mod word;

pub use error::Error;
pub use machine::Machine;
pub use word::{Token, Word};
