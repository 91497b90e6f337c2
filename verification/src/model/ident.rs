//! Identifiers: the smallest unit of the language.

use vstd::prelude::*;
use crate::grammar::{ident, is_ident, is_ident_char, lemma_run_len_is, CharClass, Outcome};
use crate::parser::{Parse, Parser, Sealed};
use crate::text::str_eq;

verus! {

/// A non-empty run of lowercase letters, digits and underscores, borrowed
/// from the text that it was read from.
#[derive(Hash, Debug, Clone, Copy)]
pub struct Ident<'s>(&'s str);

impl<'s> View for Ident<'s> {
    type V = Seq<char>;

    closed spec fn view(&self) -> Seq<char> {
        self.0@
    }
}

impl<'s> Ident<'s> {
    /// What holds of every identifier: it is not empty, and each of its
    /// characters is legal.
    #[verifier::type_invariant]
    pub open spec fn wf(self) -> bool {
        is_ident(self@)
    }

    /// The same identifier with its text copied.
    pub fn into_owned(self) -> (owned: IdentOwned)
        ensures
            owned@ == self@,
            owned.wf(),
    {
        proof {
            use_type_invariant(&self);
        }
        IdentOwned(self.0.to_owned())
    }

    /// Whether the two identifiers are the same text.
    pub fn same(&self, other: &Self) -> (same: bool)
        ensures
            same == (self@ == other@),
    {
        str_eq(self.0, other.0)
    }

    /// The text of the identifier.
    pub fn as_str(&self) -> (text: &'s str)
        ensures
            text@ == self@,
            is_ident(text@),
    {
        proof {
            use_type_invariant(self);
        }
        self.0
    }
}

impl<'s> std::ops::Deref for Ident<'s> {
    type Target = str;

    fn deref(&self) -> (text: &str)
        ensures
            text@ == self@,
    {
        self.0
    }
}

impl<'s> PartialEq for Ident<'s> {
    fn eq(&self, other: &Self) -> (same: bool) {
        self.same(other)
    }
}

impl<'s> Eq for Ident<'s> {

}

impl<'s> vstd::std_specs::cmp::PartialEqSpecImpl for Ident<'s> {
    open spec fn obeys_eq_spec() -> bool {
        true
    }

    open spec fn eq_spec(&self, other: &Self) -> bool {
        self@ == other@
    }
}

/// No identifier character stood where an identifier was required.
#[derive(Debug, Clone, Copy, PartialEq, Eq, Structural)]
pub struct ParseError;

impl<'s> Sealed for Ident<'s> {

}

impl<'p> Parse<'p> for Ident<'p> {
    type Err = ParseError;

    open spec fn parsed(before: Seq<char>, r: Result<Self, Self::Err>, after: Seq<char>) -> bool {
        Ident::reads(before, r, after)
    }

    fn parse(input: &mut Parser<'p>) -> (r: Result<Self, Self::Err>) {
        Ident::read(input)
    }
}

impl<'s> Ident<'s> {
    /// Whether the grammar, on the input `before`, yields `r` and leaves
    /// `after`.
    pub open spec fn reads(before: Seq<char>, r: Result<Self, ParseError>, after: Seq<char>) -> bool {
        ident(before) == (Outcome {
            result: match r {
                Ok(id) => Ok(id@),
                Err(e) => Err(e),
            },
            rest: after,
        })
    }

    /// Reads the longest run of identifier characters at the head of
    /// `input`.
    pub(crate) fn read(input: &mut Parser<'s>) -> (r: Result<Self, ParseError>)
        ensures
            Self::reads(old(input)@, r, final(input)@),
    {
        let ghost before = input@;
        let legal = |ch: &char| -> (b: bool)
            ensures
                b == is_ident_char(*ch),
            { ('a' <= *ch && *ch <= 'z') || ('0' <= *ch && *ch <= '9') || *ch == '_' };
        let run = input.parse_while(legal);
        proof {
            lemma_run_len_is(CharClass::Ident, before, before.len() - input@.len());
        }
        match run {
            Some(text) => Ok(Ident(text)),
            None => {
                assert(before.skip(0) =~= before);
                Err(ParseError)
            },
        }
    }
}

/// An identifier that owns its text.
#[derive(Hash, Debug)]
pub struct IdentOwned(String);

impl Clone for IdentOwned {
    fn clone(&self) -> (copy: Self)
        ensures
            copy@ == self@,
    {
        proof {
            use_type_invariant(self);
        }
        IdentOwned(self.0.clone())
    }
}

impl View for IdentOwned {
    type V = Seq<char>;

    closed spec fn view(&self) -> Seq<char> {
        self.0@
    }
}

impl IdentOwned {
    /// What holds of every identifier: it is not empty, and each of its
    /// characters is legal.
    #[verifier::type_invariant]
    pub open spec fn wf(self) -> bool {
        is_ident(self@)
    }

    /// The same identifier, borrowing the text of this one.
    pub fn as_ref(&self) -> (id: Ident<'_>)
        ensures
            id@ == self@,
    {
        proof {
            use_type_invariant(self);
        }
        Ident(self.0.as_str())
    }
}

} // verus!
