//! Tables: a name and the fields that stand under it.

use vstd::prelude::*;
use crate::grammar::{FieldView, TableView};
use crate::rendering::{field_lines, table_entries, table_text, with_parent};
use crate::model::field::Field;
use crate::model::key::Key;
use crate::set::{Iter, KeyEq, KeyedSet};

mod parse;

pub use parse::Error as ParseError;

verus! {

/// The fields of `fields`, each as what it holds.
pub open spec fn field_views<'a>(fields: Seq<Field<'a>>) -> Seq<FieldView> {
    fields.map_values(|f: Field<'a>| f@)
}

/// A bracketed name and the fields that follow it. No two fields of a table
/// have the same key.
#[derive(Debug)]
pub struct Table<'a> {
    name: Key<'a>,
    fields: KeyedSet<Field<'a>>,
}

impl<'a> View for Table<'a> {
    type V = TableView;

    closed spec fn view(&self) -> TableView {
        TableView { name: self.name@, fields: field_views(self.fields@) }
    }
}

impl<'a> Table<'a> {
    /// The name of the table.
    pub fn name(&self) -> (name: &Key<'a>)
        ensures
            name@ == self@.name,
    {
        &self.name
    }

    /// The table named `name` that holds `fields`.
    pub(crate) fn new(name: Key<'a>, fields: KeyedSet<Field<'a>>) -> (table: Self)
        ensures
            table@ == (TableView { name: name@, fields: field_views(fields@) }),
    {
        Self { name, fields }
    }

    /// The fields of the table, each under the name of the table, in the
    /// order in which they were added.
    pub fn fields(&self) -> (it: Fields<'_>)
        ensures
            it@ == table_entries(self@),
    {
        Fields::from_table(self)
    }

    /// The table as it is printed: its name between brackets on a line of
    /// its own, then a line for each field, the key of the field under the
    /// name of the table.
    pub fn to_string(&self) -> (text: String)
        ensures
            text@ == table_text(self@),
    {
        let mut text = String::new();
        text.push('[');
        let name = self.name.to_string();
        text.append(name.as_str());
        text.push(']');
        text.push('\n');
        let ghost head = text@;
        let ghost entries = table_entries(self@);
        let mut it = self.fields();
        let ghost mut n: int = 0;
        loop
            invariant
                0 <= n <= entries.len(),
                it@ == entries.skip(n),
                text@ == head + field_lines(entries.take(n)),
            ensures
                text@ == head + field_lines(entries),
            decreases entries.len() - n,
        {
            match it.next() {
                None => {
                    assert(entries.take(n) =~= entries);
                    break ;
                },
                Some(field) => {
                    let line = field.to_string();
                    text.append(line.as_str());
                    text.push('\n');
                    proof {
                        assert(entries.take(n + 1).drop_last() =~= entries.take(n));
                        n = n + 1;
                    }
                },
            }
        }
        text
    }
}

impl<'a> KeyEq for Table<'a> {
    open spec fn key_view(&self) -> Seq<Seq<char>> {
        self@.name
    }

    fn key(&self) -> (key: &Key<'_>) {
        &self.name
    }
}

/// The fields of a table that have not been handed out yet.
pub struct Fields<'table> {
    table_name: &'table Key<'table>,
    inner: Iter<'table, Field<'table>>,
}

impl<'table> View for Fields<'table> {
    type V = Seq<FieldView>;

    /// The fields that are left, each under the name of the table.
    closed spec fn view(&self) -> Seq<FieldView> {
        field_views(self.inner@).map_values(|f: FieldView| with_parent(self.table_name@, f))
    }
}

impl<'table> Fields<'table> {
    fn from_table(table: &'table Table<'table>) -> (it: Self)
        ensures
            it@ == table_entries(table@),
    {
        let it = Self { table_name: table.name(), inner: table.fields.iter() };
        it
    }

    /// Hands out the next field under the name of the table, if one is
    /// left.
    pub fn next(&mut self) -> (field: Option<Field<'table>>)
        ensures
            match field {
                Some(f) => old(self)@.len() > 0 && f@ == old(self)@[0] && final(self)@ == old(
                    self,
                )@.drop_first(),
                None => old(self)@.len() == 0 && final(self)@ == old(self)@,
            },
    {
        match self.inner.next() {
            Some(field) => {
                Some(field.with_parent(self.table_name))
            },
            None => None,
        }
    }
}

} // verus!
