//! Values: quoted strings and unsigned integers.

use vstd::prelude::*;
use crate::grammar::ValueView;
use crate::rendering::{value_text, value_var};
use crate::text::{push_decimal, str_eq};

mod parse;

pub use parse::Error as ParseError;

verus! {

/// What a key is assigned: text, borrowed from the input that it was read
/// from, or a number.
#[derive(Hash, Debug, Clone, Copy)]
pub enum Value<'s> {
    String(&'s str),
    Integer(u64),
}

impl<'s> View for Value<'s> {
    type V = ValueView;

    open spec fn view(&self) -> ValueView {
        match self {
            Value::String(text) => ValueView::String(text@),
            Value::Integer(n) => ValueView::Integer(*n),
        }
    }
}

impl<'s> Value<'s> {
    /// What a variable is set to for this value: the text of a string
    /// without quotes, a number in decimal digits.
    pub fn var(&self) -> (text: String)
        ensures
            text@ == value_var(self@),
    {
        match self {
            Value::String(s) => (*s).to_owned(),
            Value::Integer(n) => {
                let mut text = String::new();
                push_decimal(&mut text, *n);
                text
            },
        }
    }

    /// Whether the two values hold the same text or the same number.
    pub fn same(&self, other: &Self) -> (same: bool)
        ensures
            same == (self@ == other@),
    {
        match (self, other) {
            (Value::String(a), Value::String(b)) => str_eq(a, b),
            (Value::Integer(a), Value::Integer(b)) => *a == *b,
            _ => false,
        }
    }

    /// The value as it is written: a string between quotes, a number in
    /// decimal digits.
    pub fn to_string(&self) -> (text: String)
        ensures
            text@ == value_text(self@),
    {
        match self {
            Value::String(s) => {
                let mut text = String::new();
                text.push('"');
                text.append(s);
                text.push('"');
                text
            },
            Value::Integer(n) => {
                let mut text = String::new();
                push_decimal(&mut text, *n);
                text
            },
        }
    }
}

impl<'s> PartialEq for Value<'s> {
    fn eq(&self, other: &Self) -> (same: bool) {
        self.same(other)
    }
}

impl<'s> Eq for Value<'s> {

}

impl<'s> vstd::std_specs::cmp::PartialEqSpecImpl for Value<'s> {
    open spec fn obeys_eq_spec() -> bool {
        true
    }

    open spec fn eq_spec(&self, other: &Self) -> bool {
        self@ == other@
    }
}

} // verus!
