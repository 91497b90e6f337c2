//! The units of the language as values.

pub mod document;
pub mod field;
pub mod ident;
pub mod item;
pub mod key;
pub mod table;
pub mod value;
