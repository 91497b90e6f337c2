//! Documents: the items of a text, and the variables that they stand for.

use vstd::prelude::*;
use crate::grammar::{DocumentView, FieldView, ItemView};
use crate::rendering::{
    assignment,
    base_key,
    document_entries,
    document_vars,
    item_entries,
    top_fields,
    top_tables,
};
use crate::model::field::Field;
use crate::model::item::{pair_views, Item};
use crate::model::key::Key;
use crate::model::table::Table;
use crate::parser::Parser;
use crate::set::KeyedSet;

mod parse;

pub use parse::Error as ParseError;

verus! {

/// The items of `items`, each as what it holds.
pub open spec fn item_views<'a>(items: Seq<Item<'a>>) -> Seq<ItemView> {
    items.map_values(|i: Item<'a>| i@)
}

/// Each pair of strings as the pair of texts that they hold.
pub open spec fn text_pairs(pairs: Seq<(String, String)>) -> Seq<(Seq<char>, Seq<char>)> {
    pairs.map_values(|p: (String, String)| (p.0@, p.1@))
}

/// An optional base name and the items of a text. No two items of a
/// document have the same key, be they fields or tables.
#[derive(Debug)]
pub struct Document<'a> {
    basename: Option<String>,
    items: KeyedSet<Item<'a>>,
}

impl<'a> View for Document<'a> {
    type V = DocumentView;

    closed spec fn view(&self) -> DocumentView {
        DocumentView {
            basename: match self.basename {
                Some(name) => Some(name@),
                None => None,
            },
            items: item_views(self.items@),
        }
    }
}

impl<'a> Document<'a> {
    /// The document without a base name that holds `items`.
    pub(crate) fn new(items: KeyedSet<Item<'a>>) -> (doc: Self)
        ensures
            doc@ == (DocumentView { basename: None, items: item_views(items@) }),
    {
        Self { basename: None, items }
    }

    /// Gives the document the base name `value`, in place of the one it
    /// had.
    pub fn set_basename(&mut self, value: String)
        ensures
            final(self)@ == (DocumentView { basename: Some(value@), items: old(self)@.items }),
    {
        self.basename = Some(value);
    }

    /// The key that the base name stands for: the key at its head, if the
    /// document has a base name and a key stands there.
    pub fn base_key(&self) -> (base: Option<Key<'_>>)
        ensures
            match base {
                Some(k) => base_key(self@.basename) == Some(k@),
                None => base_key(self@.basename) is None,
            },
    {
        match &self.basename {
            Some(name) => {
                let mut input = Parser::new(name.as_str());
                match Key::read(&mut input) {
                    Ok(k) => Some(k),
                    Err(_) => None,
                }
            },
            None => None,
        }
    }

    /// The top-level fields of the document, in their order.
    pub fn fields(&self) -> (fields: Vec<&Field<'a>>)
        ensures
            fields@.map_values(|f: &Field<'a>| f@) == top_fields(self@.items),
    {
        let ghost all = self@.items;
        let mut fields: Vec<&Field<'a>> = Vec::new();
        let mut it = self.items.iter();
        let ghost mut n: int = 0;
        loop
            invariant
                0 <= n <= all.len(),
                all == item_views(self.items@),
                it@ == self.items@.skip(n),
                fields@.map_values(|f: &Field<'a>| f@) == top_fields(all.take(n)),
            ensures
                fields@.map_values(|f: &Field<'a>| f@) == top_fields(all),
            decreases all.len() - n,
        {
            match it.next() {
                None => {
                    assert(all.take(n) =~= all);
                    break ;
                },
                Some(item) => {
                    proof {
                        assert(all.take(n + 1).drop_last() =~= all.take(n));
                    }
                    match item {
                        Item::Field(f) => {
                            fields.push(f);
                        },
                        Item::Table(_) => {},
                    }
                    proof {
                        n = n + 1;
                    }
                },
            }
        }
        fields
    }

    /// The tables of the document, in their order.
    pub fn tables(&self) -> (tables: Vec<&Table<'a>>)
        ensures
            tables@.map_values(|t: &Table<'a>| t@) == top_tables(self@.items),
    {
        let ghost all = self@.items;
        let mut tables: Vec<&Table<'a>> = Vec::new();
        let mut it = self.items.iter();
        let ghost mut n: int = 0;
        loop
            invariant
                0 <= n <= all.len(),
                all == item_views(self.items@),
                it@ == self.items@.skip(n),
                tables@.map_values(|t: &Table<'a>| t@) == top_tables(all.take(n)),
            ensures
                tables@.map_values(|t: &Table<'a>| t@) == top_tables(all),
            decreases all.len() - n,
        {
            match it.next() {
                None => {
                    assert(all.take(n) =~= all);
                    break ;
                },
                Some(item) => {
                    proof {
                        assert(all.take(n + 1).drop_last() =~= all.take(n));
                    }
                    match item {
                        Item::Field(_) => {},
                        Item::Table(t) => {
                            tables.push(t);
                        },
                    }
                    proof {
                        n = n + 1;
                    }
                },
            }
        }
        tables
    }

    /// The assignments that the document stands for: for each field, at the
    /// top level or in a table, the name of its variable and what the
    /// variable is set to. The name is made of the base key, if there is
    /// one, the name of the table, if the field stands in one, and the key
    /// of the field.
    pub fn vars(self) -> (vars: Vec<(String, String)>)
        ensures
            text_pairs(vars@) == document_vars(self@),
    {
        let base = self.base_key();
        let ghost base_view = base_key(self@.basename);
        let ghost all = self@.items;
        let mut vars: Vec<(String, String)> = Vec::new();
        let mut it = self.items.iter();
        let ghost mut n: int = 0;
        loop
            invariant
                0 <= n <= all.len(),
                all == item_views(self.items@),
                it@ == self.items@.skip(n),
                match base {
                    Some(k) => base_view == Some(k@),
                    None => base_view is None,
                },
                text_pairs(vars@) == document_entries(all.take(n)).map_values(
                    |f: FieldView| assignment(base_view, f),
                ),
            ensures
                text_pairs(vars@) == document_entries(all).map_values(
                    |f: FieldView| assignment(base_view, f),
                ),
            decreases all.len() - n,
        {
            match it.next() {
                None => {
                    assert(all.take(n) =~= all);
                    break ;
                },
                Some(item) => {
                    proof {
                        assert(all.take(n + 1).drop_last() =~= all.take(n));
                    }
                    let ghost done = text_pairs(vars@);
                    let ghost entries = item_entries(item@);
                    let pairs = item.vars();
                    let mut j: usize = 0;
                    while j < pairs.len()
                        invariant
                            0 <= j <= pairs.len(),
                            pair_views(pairs@) == entries,
                            match base {
                                Some(k) => base_view == Some(k@),
                                None => base_view is None,
                            },
                            text_pairs(vars@) == done + entries.take(j as int).map_values(
                                |f: FieldView| assignment(base_view, f),
                            ),
                        decreases pairs.len() - j,
                    {
                        let ghost so_far = vars@;
                        let key = &pairs[j].0;
                        let value = &pairs[j].1;
                        let name = match &base {
                            Some(b) => b.chain(key).var_name(),
                            None => key.var_name(),
                        };
                        let text = value.var();
                        vars.push((name, text));
                        proof {
                            assert(text_pairs(vars@) =~= text_pairs(so_far).push((name@, text@)));
                        }
                        j = j + 1;
                    }
                    proof {
                        n = n + 1;
                    }
                },
            }
        }
        vars
    }
}

impl<'a> Default for Document<'a> {
    fn default() -> (doc: Self)
        ensures
            doc@ == (DocumentView { basename: None, items: Seq::empty() }),
    {
        let doc = Self { basename: None, items: KeyedSet::new() };
        assert(doc@.items =~= Seq::<ItemView>::empty());
        doc
    }
}

} // verus!
