//! A command-line argument parsing library.
//!
//! Argument definitions (flags, value-bearing options, positional arguments)
//! are registered on a [`Parser`] through a builder-style interface; a call to
//! [`Parser::parse`] then matches a raw token list against those definitions
//! and returns either a [`ParsedArgs`] result or a typed [`ArgParseError`].
//!
//! The behaviour of every entry point is specified against the mathematical
//! model in [`model`]; [`laws`] proves the properties that hold of every
//! registry and every token list.

mod definitions;
pub mod errors;
pub mod help;
pub mod laws;
pub mod model;
mod parse;
pub mod parsed;
pub mod parser;
mod text;

pub use definitions::ArgumentKind;
pub use definitions::ArgumentView;
pub use errors::ArgParseError;
pub use errors::ParseErrorView;
pub use parsed::ParsedArgs;
pub use parser::ArgumentBuilder;
pub use parser::Parser;
pub use text::str_eq;
