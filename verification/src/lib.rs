//! A small typed configuration language: flat `key = value` assignments,
//! optionally grouped under bracketed table headers, parsed into a document
//! from which environment-variable assignments are derived.
//!
//! - [`grammar`] states the language as mathematical functions on sequences
//!   of characters, and [`rendering`] states what values are written as and
//!   which variables a document stands for.
//! - [`parser`] holds the character reader and the protocol that the units
//!   of the language share; [`model`] holds the units as values, each with a
//!   parser that is proved to do what the grammar says.
//! - [`set`] is the container that keeps the fields of a table and the items
//!   of a document apart by their keys.
//! - [`roundtrip`] proves that what is written reads back as what it was
//!   written from.
//! - [`text`] holds what is needed of strings: cutting at character
//!   boundaries, comparing, appending.

pub mod grammar;
pub mod model;
pub mod parser;
pub mod rendering;
pub mod roundtrip;
pub mod set;
pub mod text;

pub use model::document::Document;
pub use model::field::Field;
pub use model::ident::Ident;
pub use model::item::Item;
pub use model::key::Key;
pub use model::table::Table;
pub use model::value::Value;
pub use parser::{Parse, Parser};
pub use set::KeyedSet;
