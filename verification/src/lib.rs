//! A parser and in-memory data model for a nested, JSON-compatible
//! configuration language with bareword keys, sections, compound keys,
//! duplicate-key folding, suffixed numbers and heredoc strings.
//!
//! The library is verified with Verus: each function has a contract
//! over the mathematical models [`Tree`] and [`keys::Path`], and the
//! grammar is a set of functions on the characters of the text that the
//! parser is proved to compute. Two facts about `std` are taken on
//! trust: what `String::push` and `char::from_u32` do.

pub mod construct;
pub mod decimal;
pub mod entry;
pub mod error;
pub mod extract;
pub mod grammar;
pub mod json;
pub mod keys;
pub mod number;
pub mod scan;
pub mod text;
pub mod tree;

pub use construct::construct_object;
pub use decimal::Decimal;
pub use entry::{
    array, json_array, json_value, key, key_value, multi_line_string, object, parse, value,
};
pub use error::{ParseError, ParseErrorKind, UclError};
pub use extract::FromUcl;
pub use keys::Key;
pub use tree::{Array, Object, Tree, Value};
