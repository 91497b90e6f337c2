//! Fields: a key and the value assigned to it.

use vstd::prelude::*;
use crate::grammar::FieldView;
use crate::rendering::field_text;
use crate::model::key::Key;
use crate::model::value::Value;
use crate::set::KeyEq;

mod parse;

pub use parse::Error as ParseError;

verus! {

/// A key and the value assigned to it.
#[derive(Hash, Debug)]
pub struct Field<'kv> {
    key: Key<'kv>,
    value: Value<'kv>,
}

impl<'kv> View for Field<'kv> {
    type V = FieldView;

    closed spec fn view(&self) -> FieldView {
        FieldView { key: self.key@, value: self.value@ }
    }
}

impl<'kv> Field<'kv> {
    /// The field that assigns `value` to `key`.
    pub(crate) fn new(key: Key<'kv>, value: Value<'kv>) -> (field: Self)
        ensures
            field@ == (FieldView { key: key@, value: value@ }),
    {
        Self { key, value }
    }

    /// The key of the field.
    pub fn key(&self) -> (key: &Key<'kv>)
        ensures
            key@ == self@.key,
    {
        &self.key
    }

    /// The value of the field.
    pub fn value(&self) -> (value: Value<'kv>)
        ensures
            value@ == self@.value,
    {
        self.value
    }

    /// The key and the value of the field.
    pub fn to_kv(self) -> (kv: (Key<'kv>, Value<'kv>))
        ensures
            kv.0@ == self@.key,
            kv.1@ == self@.value,
    {
        (self.key, self.value)
    }

    /// The same field under `key`: its key is `key` followed by the key of
    /// this field.
    pub fn with_parent(&'kv self, key: &'kv Key<'kv>) -> (field: Self)
        ensures
            field@ == (FieldView { key: key@ + self@.key, value: self@.value }),
    {
        Self { key: key.chain(&self.key), value: self.value }
    }

    /// Whether the two fields have the same key and the same value.
    pub fn same(&self, other: &Self) -> (same: bool)
        ensures
            same == (self@ == other@),
    {
        self.key.same(&other.key) && self.value.same(&other.value)
    }

    /// The field as it is written: its key, ` = `, and its value.
    pub fn to_string(&self) -> (text: String)
        ensures
            text@ == field_text(self@),
    {
        let mut text = self.key.to_string();
        text.push(' ');
        text.push('=');
        text.push(' ');
        let value = self.value.to_string();
        text.append(value.as_str());
        text
    }
}

impl<'kv> KeyEq for Field<'kv> {
    open spec fn key_view(&self) -> Seq<Seq<char>> {
        self@.key
    }

    fn key(&self) -> (key: &Key<'_>) {
        &self.key
    }
}

impl<'kv> Clone for Field<'kv> {
    fn clone(&self) -> (copy: Self)
        ensures
            copy@ == self@,
    {
        Self { key: self.key.clone(), value: self.value }
    }
}

impl<'kv> PartialEq for Field<'kv> {
    fn eq(&self, other: &Self) -> (same: bool) {
        self.same(other)
    }
}

impl<'kv> Eq for Field<'kv> {

}

impl<'kv> vstd::std_specs::cmp::PartialEqSpecImpl for Field<'kv> {
    open spec fn obeys_eq_spec() -> bool {
        true
    }

    open spec fn eq_spec(&self, other: &Self) -> bool {
        self@ == other@
    }
}

} // verus!
