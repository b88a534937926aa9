//! A parser for a JSON-like text format that keeps the entries of an object
//! in source order and never merges duplicate keys.
//!
//! The grammar is given as specification functions over sequences of
//! characters in [`grammar`]; the executable parser in [`parser`] is proved
//! to compute exactly what the grammar says, for every input text. What
//! holds of the grammar for every text is proved in [`laws`], and that a
//! tree written as text is read back as the same tree in [`canonical`].

pub mod canonical;
pub mod error;
pub mod grammar;
pub mod input;
pub mod laws;
pub mod parser;
pub mod value;

pub use error::{ErrorKind, ParseError};
pub use input::Input;
pub use parser::{from_json, parse_string};
pub use value::{Decimal, Entry, Value};
