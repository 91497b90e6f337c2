use vstd::prelude::*;
use crate::grammar::{
    has_field,
    is_delimiter,
    lemma_field_rest,
    table,
    table_fields,
    with_name,
    FieldView,
    Outcome,
    TableErrorView,
};
use crate::model::field;
use crate::model::field::Field;
use crate::model::key;
use crate::model::key::Key;
use crate::model::table::{field_views, Table};
use crate::parser::{Parse, Parser, Sealed};
use crate::set::{has_key, KeyEq, KeyedSet};

verus! {

/// Why a table could not be read.
#[derive(Debug)]
pub enum Error {
    /// The name is not a key between brackets; with the reason, where it is
    /// the key that could not be read.
    Name(Option<key::ParseError>),
    /// A field could not be read; `index` counts the fields before it.
    Field { source: field::ParseError, index: usize },
    /// Neither a space nor a line break follows the closing bracket.
    MissingDelimiter,
    /// Two fields have this key.
    DuplicateKey(String),
}

impl View for Error {
    type V = TableErrorView;

    open spec fn view(&self) -> TableErrorView {
        match self {
            Error::Name(reason) => TableErrorView::Name(*reason),
            Error::Field { source, index } => TableErrorView::Field {
                source: *source,
                index: *index as nat,
            },
            Error::MissingDelimiter => TableErrorView::MissingDelimiter,
            Error::DuplicateKey(text) => TableErrorView::DuplicateKey(text@),
        }
    }
}

impl From<key::ParseError> for Error {
    fn from(value: key::ParseError) -> (e: Self) {
        Error::Name(Some(value))
    }
}

impl vstd::std_specs::convert::FromSpecImpl<key::ParseError> for Error {
    open spec fn obeys_from_spec() -> bool {
        true
    }

    open spec fn from_spec(value: key::ParseError) -> Self {
        Error::Name(Some(value))
    }
}

impl Error {
    fn name() -> (e: Self)
        ensures
            e == Error::Name(None),
    {
        Self::Name(None)
    }
}

impl<'a> Sealed for Table<'a> {

}

impl<'p> Parse<'p> for Table<'p> {
    type Err = Error;

    open spec fn parsed(before: Seq<char>, r: Result<Self, Self::Err>, after: Seq<char>) -> bool {
        Table::reads(before, r, after)
    }

    fn parse(input: &mut Parser<'p>) -> (r: Result<Self, Self::Err>) {
        Table::read(input)
    }
}

/// A field with a given key is among the fields exactly when it is among
/// what they hold.
proof fn lemma_has_field<'a>(fields: Seq<Field<'a>>, k: Seq<Seq<char>>)
    ensures
        has_field(field_views(fields), k) == has_key(fields, k),
{
    if has_key(fields, k) {
        let i = choose|i: int| 0 <= i < fields.len() && (#[trigger] fields[i]).key_view() == k;
        assert(field_views(fields)[i].key == k);
    }
    if has_field(field_views(fields), k) {
        let i = choose|i: int|
            0 <= i < field_views(fields).len() && (#[trigger] field_views(fields)[i]).key == k;
    }
}

/// Whether `ch` may stand between the name of a table and its first field,
/// and between two fields: a space or a line break.
fn delimiter(ch: char) -> (b: bool)
    ensures
        b == is_delimiter(ch),
{
    ch == '\n' || ch == ' '
}

impl<'a> Table<'a> {
    /// Whether the grammar, on the input `before`, yields `r` and leaves
    /// `after`.
    pub open spec fn reads(before: Seq<char>, r: Result<Self, Error>, after: Seq<char>) -> bool {
        table(before) == (Outcome {
            result: match r {
                Ok(t) => Ok(t@),
                Err(e) => Err(e@),
            },
            rest: after,
        })
    }

    /// Reads a name between brackets, a delimiter, and the fields up to the
    /// next bracket, empty line or end of the input.
    pub(crate) fn read(input: &mut Parser<'a>) -> (r: Result<Self, Error>)
        ensures
            Self::reads(old(input)@, r, final(input)@),
    {
        let ghost before = input@;
        if !input.parse_char('[') {
            return Err(Error::name());
        }
        let name = match Key::read(input) {
            Ok(name) => name,
            Err(e) => {
                return Err(Error::Name(Some(e)));
            },
        };
        let ghost after_name = input@;
        if !input.parse_char(']') {
            return Err(Error::name());
        }
        if input.parse_char_with(delimiter).is_none() {
            return Err(Error::MissingDelimiter);
        }
        let ghost start = input@;
        proof {
            assert(after_name.drop_first().drop_first() =~= after_name.skip(2));
            assert(field_views(Seq::<Field<'a>>::empty()) =~= Seq::<FieldView>::empty());
        }
        let mut fields: KeyedSet<Field<'a>> = KeyedSet::new();
        loop
            invariant
                before == old(input)@,
                table_fields(input@, field_views(fields@)) == table_fields(start, Seq::empty()),
                table(before) == with_name(name@, table_fields(start, Seq::empty())),
            ensures
                table(before) == with_name(name@, table_fields(start, Seq::empty())),
                table_fields(start, Seq::empty()) == (Outcome::<Seq<FieldView>, TableErrorView> {
                    result: Ok(field_views(fields@)),
                    rest: input@,
                }),
            decreases input@.len(),
        {
            let more = match input.peek_char() {
                Some(ch) => ch != '[' && ch != '\n',
                None => false,
            };
            if !more {
                break ;
            }
            let ghost here = input@;
            let field = match Field::read(input) {
                Ok(field) => field,
                Err(source) => {
                    return Err(Error::Field { source, index: fields.len() });
                },
            };
            proof {
                lemma_field_rest(here);
                lemma_has_field(fields@, field@.key);
            }
            let key = field.key().to_string();
            let ghost seen = fields@;
            if !fields.insert(field) {
                return Err(Error::DuplicateKey(key));
            }
            proof {
                assert(field_views(fields@) =~= field_views(seen).push(field@));
            }
            input.parse_char_with(delimiter);
        }
        Ok(Table::new(name, fields))
    }
}

} // verus!
