//! A parser for a small, strict dialect of JSON.
//!
//! Documents are ASCII text. Strings hold ASCII letters and digits only,
//! and the outermost value is an object, an array or `null`.

pub mod error;
pub mod grammar;
pub mod laws;
pub mod number;
pub mod parser;
pub mod text;
pub mod value;

pub use error::JsonError;
pub use value::JsonValue;
