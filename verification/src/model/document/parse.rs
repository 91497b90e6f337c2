use vstd::prelude::*;
use crate::grammar::{
    document,
    document_items,
    has_item,
    item_key,
    lemma_next_item_rest,
    tables_started,
    lemma_skip_newlines_rest,
    skip_newlines,
    DocumentErrorView,
    ItemView,
    Outcome,
};
use crate::model::document::{item_views, Document};
use crate::model::field;
use crate::model::item;
use crate::model::item::Item;
use crate::model::key::Key;
use crate::model::table;
use crate::model::table::Table;
use crate::parser::{Parse, Parser, Sealed};
use crate::set::{has_key, KeyEq, KeyedSet};

verus! {

/// Why a document could not be read.
#[derive(Debug)]
pub enum Error<'a> {
    /// Two items have this key.
    DuplicateKey(Key<'a>),
    /// A top-level field could not be read.
    Field(field::ParseError),
    /// A table could not be read.
    Table(table::ParseError),
}

impl<'a> View for Error<'a> {
    type V = DocumentErrorView;

    open spec fn view(&self) -> DocumentErrorView {
        match self {
            Error::DuplicateKey(k) => DocumentErrorView::DuplicateKey(k@),
            Error::Field(e) => DocumentErrorView::Field(*e),
            Error::Table(e) => DocumentErrorView::Table(e@),
        }
    }
}

impl<'a> From<field::ParseError> for Error<'a> {
    fn from(value: field::ParseError) -> (e: Self) {
        Error::Field(value)
    }
}

impl<'a> vstd::std_specs::convert::FromSpecImpl<field::ParseError> for Error<'a> {
    open spec fn obeys_from_spec() -> bool {
        true
    }

    open spec fn from_spec(value: field::ParseError) -> Self {
        Error::Field(value)
    }
}

impl<'a> From<table::ParseError> for Error<'a> {
    fn from(value: table::ParseError) -> (e: Self) {
        Error::Table(value)
    }
}

impl<'a> vstd::std_specs::convert::FromSpecImpl<table::ParseError> for Error<'a> {
    open spec fn obeys_from_spec() -> bool {
        true
    }

    open spec fn from_spec(value: table::ParseError) -> Self {
        Error::Table(value)
    }
}

impl<'a> Sealed for Document<'a> {

}

impl<'p> Parse<'p> for Document<'p> {
    type Err = Error<'p>;

    open spec fn parsed(before: Seq<char>, r: Result<Self, Self::Err>, after: Seq<char>) -> bool {
        Document::reads(before, r, after)
    }

    fn parse(input: &mut Parser<'p>) -> (r: Result<Self, Self::Err>) {
        Document::read(input)
    }
}

/// An item with a given key is among the items exactly when it is among
/// what they hold.
proof fn lemma_has_item<'a>(items: Seq<Item<'a>>, k: Seq<Seq<char>>)
    ensures
        has_item(item_views(items), k) == has_key(items, k),
{
    if has_key(items, k) {
        let i = choose|i: int| 0 <= i < items.len() && (#[trigger] items[i]).key_view() == k;
        assert(item_key(item_views(items)[i]) == k);
    }
    if has_item(item_views(items), k) {
        let i = choose|i: int|
            0 <= i < item_views(items).len() && item_key(#[trigger] item_views(items)[i]) == k;
    }
}

impl<'a> Document<'a> {
    /// Whether the grammar, on the input `before`, yields `r` and leaves
    /// `after`.
    pub open spec fn reads(before: Seq<char>, r: Result<Self, Error<'a>>, after: Seq<char>) -> bool {
        document(before) == (Outcome {
            result: match r {
                Ok(d) => Ok(d@),
                Err(e) => Err(e@),
            },
            rest: after,
        })
    }

    /// Reads items up to the end of the input, and skips the line breaks
    /// after each. Once a table has been read, only tables are read.
    pub(crate) fn read(input: &mut Parser<'a>) -> (r: Result<Self, Error<'a>>)
        ensures
            Self::reads(old(input)@, r, final(input)@),
    {
        let ghost before = input@;
        let mut items: KeyedSet<Item<'a>> = KeyedSet::new();
        proof {
            assert(item_views(items@) =~= Seq::<ItemView>::empty());
        }
        let mut tables_only = false;
        loop
            invariant
                before == old(input)@,
                tables_only == tables_started(item_views(items@)),
                document_items(input@, item_views(items@)) == document_items(before, Seq::empty()),
            ensures
                document_items(before, Seq::empty()) == (Outcome::<
                    Seq<ItemView>,
                    DocumentErrorView,
                > { result: Ok(item_views(items@)), rest: input@ }),
            decreases input@.len(),
        {
            if input.peek_char().is_none() {
                break ;
            }
            let ghost here = input@;
            let item = if tables_only {
                match Table::read(input) {
                    Ok(table) => Item::Table(table),
                    Err(e) => {
                        return Err(Error::Table(e));
                    },
                }
            } else {
                match Item::read(input) {
                    Ok(item) => item,
                    Err(item::ParseError::Field(e)) => {
                        return Err(Error::Field(e));
                    },
                    Err(item::ParseError::Table(e)) => {
                        return Err(Error::Table(e));
                    },
                }
            };
            let is_table = match &item {
                Item::Field(_) => false,
                Item::Table(_) => true,
            };
            proof {
                lemma_next_item_rest(here, item_views(items@));
                lemma_has_item(items@, item_key(item@));
            }
            let key = match &item {
                Item::Field(f) => f.key().clone(),
                Item::Table(t) => t.name().clone(),
            };
            let ghost seen = items@;
            let ghost after_item = input@;
            if !items.insert(item) {
                return Err(Error::DuplicateKey(key));
            }
            tables_only = is_table;
            proof {
                assert(item_views(items@) =~= item_views(seen).push(item@));
                lemma_skip_newlines_rest(after_item);
            }
            while input.parse_char('\n')
                invariant
                    skip_newlines(input@) == skip_newlines(after_item),
                    input@.len() <= after_item.len(),
                decreases input@.len(),
            {
            }
        }
        Ok(Document::new(items))
    }
}

} // verus!
