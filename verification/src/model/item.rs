//! Items: the top-level units of a document.

use vstd::prelude::*;
use crate::grammar::{item_key, FieldView, ItemView};
use crate::rendering::item_entries;
use crate::model::field::Field;
use crate::model::key::Key;
use crate::model::table::Table;
use crate::model::value::Value;
use crate::set::KeyEq;

mod parse;

pub use parse::Error as ParseError;

verus! {

/// A field or a table.
#[derive(Debug)]
pub enum Item<'a> {
    Field(Field<'a>),
    Table(Table<'a>),
}

impl<'a> View for Item<'a> {
    type V = ItemView;

    open spec fn view(&self) -> ItemView {
        match self {
            Item::Field(f) => ItemView::Field(f@),
            Item::Table(t) => ItemView::Table(t@),
        }
    }
}

/// Each pair of a key and a value as the field that it makes.
pub open spec fn pair_views<'a>(pairs: Seq<(Key<'a>, Value<'a>)>) -> Seq<FieldView> {
    pairs.map_values(|p: (Key<'a>, Value<'a>)| FieldView { key: p.0@, value: p.1@ })
}

impl<'a> KeyEq for Item<'a> {
    open spec fn key_view(&self) -> Seq<Seq<char>> {
        item_key(self@)
    }

    fn key(&self) -> (key: &Key<'_>) {
        match self {
            Item::Field(f) => f.key(),
            Item::Table(t) => t.name(),
        }
    }
}

impl<'a> Item<'a> {
    /// The keys and values that the item stands for: those of a field, or
    /// those of each field of a table with the name of the table in front of
    /// the key.
    pub fn vars(&self) -> (pairs: Vec<(Key<'_>, Value<'_>)>)
        ensures
            pair_views(pairs@) == item_entries(self@),
    {
        let mut pairs: Vec<(Key<'_>, Value<'_>)> = Vec::new();
        match self {
            Item::Field(field) => {
                pairs.push((field.key().clone(), field.value()));
            },
            Item::Table(table) => {
                let ghost entries = item_entries(self@);
                let mut it = table.fields();
                let ghost mut n: int = 0;
                loop
                    invariant
                        0 <= n <= entries.len(),
                        it@ == entries.skip(n),
                        pair_views(pairs@) == entries.take(n),
                    ensures
                        pair_views(pairs@) == entries,
                    decreases entries.len() - n,
                {
                    match it.next() {
                        None => {
                            break ;
                        },
                        Some(field) => {
                            let pair = field.to_kv();
                            pairs.push(pair);
                            proof {
                                assert(entries.take(n + 1) =~= entries.take(n).push(entries[n]));
                                n = n + 1;
                            }
                        },
                    }
                }
            },
        }
        pairs
    }
}

} // verus!
