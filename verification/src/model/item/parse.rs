use vstd::prelude::*;
use crate::grammar::{item, ItemErrorView, Outcome};
use crate::model::field;
use crate::model::field::Field;
use crate::model::item::Item;
use crate::model::table;
use crate::model::table::Table;
use crate::parser::{Parse, Parser, Sealed};

verus! {

/// Why an item could not be read.
#[derive(Debug)]
pub enum Error {
    /// No bracket stands at the head of the input, and no field either.
    Field(field::ParseError),
    /// A bracket stands at the head of the input, but no table.
    Table(table::ParseError),
}

impl View for Error {
    type V = ItemErrorView;

    open spec fn view(&self) -> ItemErrorView {
        match self {
            Error::Field(e) => ItemErrorView::Field(*e),
            Error::Table(e) => ItemErrorView::Table(e@),
        }
    }
}

impl From<field::ParseError> for Error {
    fn from(value: field::ParseError) -> (e: Self) {
        Error::Field(value)
    }
}

impl vstd::std_specs::convert::FromSpecImpl<field::ParseError> for Error {
    open spec fn obeys_from_spec() -> bool {
        true
    }

    open spec fn from_spec(value: field::ParseError) -> Self {
        Error::Field(value)
    }
}

impl From<table::ParseError> for Error {
    fn from(value: table::ParseError) -> (e: Self) {
        Error::Table(value)
    }
}

impl vstd::std_specs::convert::FromSpecImpl<table::ParseError> for Error {
    open spec fn obeys_from_spec() -> bool {
        true
    }

    open spec fn from_spec(value: table::ParseError) -> Self {
        Error::Table(value)
    }
}

impl<'a> Sealed for Item<'a> {

}

impl<'p> Parse<'p> for Item<'p> {
    type Err = Error;

    open spec fn parsed(before: Seq<char>, r: Result<Self, Self::Err>, after: Seq<char>) -> bool {
        Item::reads(before, r, after)
    }

    fn parse(input: &mut Parser<'p>) -> (r: Result<Self, Self::Err>) {
        Item::read(input)
    }
}

impl<'a> Item<'a> {
    /// Whether the grammar, on the input `before`, yields `r` and leaves
    /// `after`.
    pub open spec fn reads(before: Seq<char>, r: Result<Self, Error>, after: Seq<char>) -> bool {
        item(before) == (Outcome {
            result: match r {
                Ok(i) => Ok(i@),
                Err(e) => Err(e@),
            },
            rest: after,
        })
    }

    /// Reads a table where the input starts with `[`, and a field
    /// otherwise.
    pub(crate) fn read(input: &mut Parser<'a>) -> (r: Result<Self, Error>)
        ensures
            Self::reads(old(input)@, r, final(input)@),
    {
        let bracket = match input.peek_char() {
            Some(ch) => ch == '[',
            None => false,
        };
        if bracket {
            match Table::read(input) {
                Ok(table) => Ok(Item::Table(table)),
                Err(e) => Err(Error::Table(e)),
            }
        } else {
            match Field::read(input) {
                Ok(field) => Ok(Item::Field(field)),
                Err(e) => Err(Error::Field(e)),
            }
        }
    }
}

} // verus!
