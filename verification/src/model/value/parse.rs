use vstd::prelude::*;
use crate::grammar::{lemma_run_len_is, value, CharClass, Outcome};
use crate::model::value::Value;
use crate::parser::{read_integer, IntError, Parse, Parser, Sealed};

verus! {

/// Why a value could not be read.
#[derive(Debug, Clone, Copy, PartialEq, Eq, Structural)]
pub enum Error {
    /// Nothing is left to read. Reading a value does not report this: where
    /// no quote stands, an empty input is a run of no digits, and
    /// [`Error::ParseInt`] says so.
    EmptyInput,
    /// No quote stands at the head of the input, and the digits there, if
    /// any, are no 64-bit number.
    ParseInt(IntError),
    /// The input ends before the closing quote.
    UnclosedString,
}

impl From<IntError> for Error {
    fn from(value: IntError) -> (e: Self) {
        Error::ParseInt(value)
    }
}

impl vstd::std_specs::convert::FromSpecImpl<IntError> for Error {
    open spec fn obeys_from_spec() -> bool {
        true
    }

    open spec fn from_spec(value: IntError) -> Self {
        Error::ParseInt(value)
    }
}

impl<'s> Sealed for Value<'s> {

}

impl<'p> Parse<'p> for Value<'p> {
    type Err = Error;

    open spec fn parsed(before: Seq<char>, r: Result<Self, Self::Err>, after: Seq<char>) -> bool {
        Value::reads(before, r, after)
    }

    fn parse(input: &mut Parser<'p>) -> (r: Result<Self, Self::Err>) {
        Value::read(input)
    }
}

impl<'s> Value<'s> {
    /// Whether the grammar, on the input `before`, yields `r` and leaves
    /// `after`.
    pub open spec fn reads(before: Seq<char>, r: Result<Self, Error>, after: Seq<char>) -> bool {
        value(before) == (Outcome {
            result: match r {
                Ok(v) => Ok(v@),
                Err(e) => Err(e),
            },
            rest: after,
        })
    }

    /// Reads a quoted string where the input starts with a quote, and a run
    /// of digits otherwise.
    pub(crate) fn read(input: &mut Parser<'s>) -> (r: Result<Self, Error>)
        ensures
            Self::reads(old(input)@, r, final(input)@),
    {
        let quoted = match input.peek_char() {
            Some(ch) => ch == '"',
            None => false,
        };
        if quoted {
            input.next_char();
            let ghost body = input@;
            let unquoted = |ch: &char| -> (b: bool)
                ensures
                    b == (*ch != '"'),
                { *ch != '"' };
            let text = match input.parse_while(unquoted) {
                Some(run) => run,
                None => {
                    proof {
                        reveal_strlit("");
                        assert(body.take(0) =~= ""@);
                    }
                    ""
                },
            };
            proof {
                lemma_run_len_is(CharClass::Unquoted, body, body.len() - input@.len());
            }
            let ghost n = body.len() - input@.len();
            if input.parse_char('"') {
                assert(body.skip(n).drop_first() =~= body.skip(n + 1));
                Ok(Value::String(text))
            } else {
                Err(Error::UnclosedString)
            }
        } else {
            match read_integer(input) {
                Ok(number) => Ok(Value::Integer(number)),
                Err(e) => Err(Error::ParseInt(e)),
            }
        }
    }
}

} // verus!
