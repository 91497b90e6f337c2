use vstd::prelude::*;
use crate::grammar::{is_ident, key, key_tail, lemma_ident_rest, prepend, Outcome};
use crate::model::ident;
use crate::model::ident::Ident;
use crate::model::key::Key;
use crate::parser::{Parse, Parser, Sealed};

verus! {

/// Why a key could not be read.
#[derive(Debug, Clone, Copy, PartialEq, Eq, Structural)]
pub enum Error {
    /// A segment of the key is not an identifier.
    Ident,
    /// The key starts with the separator.
    LeadingSeparator,
}

impl From<ident::ParseError> for Error {
    fn from(value: ident::ParseError) -> (e: Self) {
        Error::Ident
    }
}

impl vstd::std_specs::convert::FromSpecImpl<ident::ParseError> for Error {
    open spec fn obeys_from_spec() -> bool {
        true
    }

    open spec fn from_spec(value: ident::ParseError) -> Self {
        Error::Ident
    }
}

impl<'id> Sealed for Key<'id> {

}

impl<'p> Parse<'p> for Key<'p> {
    type Err = Error;

    open spec fn parsed(before: Seq<char>, r: Result<Self, Self::Err>, after: Seq<char>) -> bool {
        Key::reads(before, r, after)
    }

    fn parse(input: &mut Parser<'p>) -> (r: Result<Self, Self::Err>) {
        Key::read(input)
    }
}

impl<'id> Key<'id> {
    /// Whether the grammar, on the input `before`, yields `r` and leaves
    /// `after`.
    pub open spec fn reads(before: Seq<char>, r: Result<Self, Error>, after: Seq<char>) -> bool {
        key(before) == (Outcome {
            result: match r {
                Ok(k) => Ok(k@),
                Err(e) => Err(e),
            },
            rest: after,
        })
    }

    /// Reads an identifier, and one more after each separator that follows.
    pub(crate) fn read(input: &mut Parser<'id>) -> (r: Result<Self, Error>)
        ensures
            Self::reads(old(input)@, r, final(input)@),
    {
        let ghost before = input@;
        match input.peek_char() {
            Some(ch) => {
                if ch == Self::SEPARATOR {
                    return Err(Error::LeadingSeparator);
                }
            },
            None => {},
        }
        let first = match Ident::read(input) {
            Ok(id) => id,
            Err(_) => {
                return Err(Error::Ident);
            },
        };
        let ghost tail = input@;
        let mut segments: Vec<Ident<'id>> = Vec::new();
        segments.push(first);
        let ghost mut ids: Seq<Seq<char>> = seq![first@];
        proof {
            use_type_invariant(&first);
        }
        loop
            invariant
                ids.len() > 0,
                ids == segments@.map_values(|id: Ident<'id>| id@),
                forall|i: int| 0 <= i < ids.len() ==> is_ident(#[trigger] ids[i]),
                prepend(ids.skip(1), key_tail(input@)) == key_tail(tail),
                key(before) == prepend(seq![ids[0]], key_tail(tail)),
                before == old(input)@,
            ensures
                key(before) == prepend(seq![ids[0]], key_tail(tail)),
                ids.len() > 0,
                ids == segments@.map_values(|id: Ident<'id>| id@),
                forall|i: int| 0 <= i < ids.len() ==> is_ident(#[trigger] ids[i]),
                key_tail(tail).result == Ok::<Seq<Seq<char>>, Error>(ids.skip(1)),
                key_tail(tail).rest == input@,
            decreases input@.len(),
        {
            let ghost here = input@;
            if !input.parse_char(Self::SEPARATOR) {
                break ;
            }
            match Ident::read(input) {
                Ok(id) => {
                    segments.push(id);
                    proof {
                        use_type_invariant(&id);
                        lemma_ident_rest(here.drop_first());
                        let longer = ids.push(id@);
                        if key_tail(input@).result is Ok {
                            let more = key_tail(input@).result->Ok_0;
                            assert(ids.skip(1) + (seq![id@] + more) =~= longer.skip(1) + more);
                        }
                        ids = longer;
                    }
                },
                Err(_) => {
                    return Err(Error::Ident);
                },
            }
        }
        proof {
            assert(seq![ids[0]] + ids.skip(1) =~= ids);
        }
        Ok(Key { segments })
    }
}

} // verus!
