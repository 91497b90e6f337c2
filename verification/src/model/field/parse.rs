use vstd::prelude::*;
use crate::grammar::{field, separator, Outcome};
use crate::model::field::Field;
use crate::model::key;
use crate::model::key::Key;
use crate::model::value;
use crate::model::value::Value;
use crate::parser::{Parse, Parser, Sealed};

verus! {

/// Why a field could not be read.
#[derive(Debug, Clone, Copy, PartialEq, Eq, Structural)]
pub enum Error {
    /// The key could not be read.
    Key(key::ParseError),
    /// The key is not followed by a space, `=` and a space.
    Separator,
    /// The value could not be read.
    Value(value::ParseError),
}

impl From<key::ParseError> for Error {
    fn from(value: key::ParseError) -> (e: Self) {
        Error::Key(value)
    }
}

impl vstd::std_specs::convert::FromSpecImpl<key::ParseError> for Error {
    open spec fn obeys_from_spec() -> bool {
        true
    }

    open spec fn from_spec(value: key::ParseError) -> Self {
        Error::Key(value)
    }
}

impl From<value::ParseError> for Error {
    fn from(value: value::ParseError) -> (e: Self) {
        Error::Value(value)
    }
}

impl vstd::std_specs::convert::FromSpecImpl<value::ParseError> for Error {
    open spec fn obeys_from_spec() -> bool {
        true
    }

    open spec fn from_spec(value: value::ParseError) -> Self {
        Error::Value(value)
    }
}

impl<'kv> Sealed for Field<'kv> {

}

impl<'p> Parse<'p> for Field<'p> {
    type Err = Error;

    open spec fn parsed(before: Seq<char>, r: Result<Self, Self::Err>, after: Seq<char>) -> bool {
        Field::reads(before, r, after)
    }

    fn parse(input: &mut Parser<'p>) -> (r: Result<Self, Self::Err>) {
        Field::read(input)
    }
}

impl<'kv> Field<'kv> {
    /// Whether the grammar, on the input `before`, yields `r` and leaves
    /// `after`.
    pub open spec fn reads(before: Seq<char>, r: Result<Self, Error>, after: Seq<char>) -> bool {
        field(before) == (Outcome {
            result: match r {
                Ok(f) => Ok(f@),
                Err(e) => Err(e),
            },
            rest: after,
        })
    }

    /// Reads a key, the separator and a value.
    pub(crate) fn read(input: &mut Parser<'kv>) -> (r: Result<Self, Error>)
        ensures
            Self::reads(old(input)@, r, final(input)@),
    {
        let key = match Key::read(input) {
            Ok(key) => key,
            Err(e) => {
                return Err(Error::Key(e));
            },
        };
        match Separator::read(input) {
            Ok(_) => {},
            Err(e) => {
                return Err(e);
            },
        }
        let value = match Value::read(input) {
            Ok(value) => value,
            Err(e) => {
                return Err(Error::Value(e));
            },
        };
        Ok(Field::new(key, value))
    }
}

/// The text ` = ` between a key and its value.
struct Separator;

impl Sealed for Separator {

}

impl<'p> Parse<'p> for Separator {
    type Err = Error;

    closed spec fn parsed(before: Seq<char>, r: Result<Self, Self::Err>, after: Seq<char>) -> bool {
        Separator::reads(before, r, after)
    }

    fn parse(input: &mut Parser<'p>) -> (r: Result<Self, Self::Err>) {
        Separator::read(input)
    }
}

impl Separator {
    /// Whether the grammar, on the input `before`, yields `r` and leaves
    /// `after`.
    spec fn reads(before: Seq<char>, r: Result<Self, Error>, after: Seq<char>) -> bool {
        separator(before) == (Outcome {
            result: match r {
                Ok(_) => Ok(()),
                Err(e) => Err(e),
            },
            rest: after,
        })
    }

    /// Reads a space, `=` and a space, and stops at the first character
    /// that departs from them.
    fn read<'p>(input: &mut Parser<'p>) -> (r: Result<Self, Error>)
        ensures
            Self::reads(old(input)@, r, final(input)@),
    {
        let ghost before = input@;
        proof {
            assert(before.skip(0) =~= before);
        }
        if !input.parse_char(' ') {
            return Err(Error::Separator);
        }
        if !input.parse_char('=') {
            return Err(Error::Separator);
        }
        proof {
            assert(before.skip(1).drop_first() =~= before.skip(2));
        }
        if !input.parse_char(' ') {
            return Err(Error::Separator);
        }
        proof {
            assert(before.skip(2).drop_first() =~= before.skip(3));
        }
        Ok(Separator)
    }
}

} // verus!
