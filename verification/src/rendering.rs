//! What values are written as, and the variables that a document stands
//! for.

use vstd::prelude::*;
use crate::grammar::{is_key, key, DocumentView, FieldView, ItemView, TableView, ValueView};

verus! {

/// The parts of `parts`, with `sep` between each two.
pub open spec fn join(parts: Seq<Seq<char>>, sep: char) -> Seq<char>
    decreases parts.len(),
{
    if parts.len() == 0 {
        Seq::empty()
    } else if parts.len() == 1 {
        parts[0]
    } else {
        join(parts.drop_last(), sep) + seq![sep] + parts.last()
    }
}

/// A key as it is written: its segments with `.` between them.
pub open spec fn key_text(k: Seq<Seq<char>>) -> Seq<char> {
    join(k, '.')
}

/// The digit that stands for `d`, for `d` below ten.
pub open spec fn digit_char(d: nat) -> char {
    ('0' as int + d) as char
}

/// A number as it is written in decimal digits, without leading zeros.
pub open spec fn decimal_text(n: nat) -> Seq<char>
    decreases n,
{
    if n < 10 {
        seq![digit_char(n)]
    } else {
        decimal_text(n / 10).push(digit_char(n % 10))
    }
}

/// What a variable is set to for a value: the text of a string without its
/// quotes, a number in decimal digits.
pub open spec fn value_var(v: ValueView) -> Seq<char> {
    match v {
        ValueView::String(text) => text,
        ValueView::Integer(n) => decimal_text(n as nat),
    }
}

/// A value as it is written: a string between quotes, a number in decimal
/// digits.
pub open spec fn value_text(v: ValueView) -> Seq<char> {
    match v {
        ValueView::String(text) => seq!['"'] + text + seq!['"'],
        ValueView::Integer(n) => decimal_text(n as nat),
    }
}

/// A field as it is written: its key, ` = `, and its value.
pub open spec fn field_text(f: FieldView) -> Seq<char> {
    key_text(f.key) + seq![' ', '=', ' '] + value_text(f.value)
}

/// `f` under the key `parent`: its key is `parent` followed by its own.
pub open spec fn with_parent(parent: Seq<Seq<char>>, f: FieldView) -> FieldView {
    FieldView { key: parent + f.key, value: f.value }
}

/// The fields of a table, each under the name of the table.
pub open spec fn table_entries(t: TableView) -> Seq<FieldView> {
    t.fields.map_values(|f: FieldView| with_parent(t.name, f))
}

/// Each of `fields` as it is written, with a line break after it.
pub open spec fn field_lines(fields: Seq<FieldView>) -> Seq<char>
    decreases fields.len(),
{
    if fields.len() == 0 {
        Seq::empty()
    } else {
        field_lines(fields.drop_last()) + field_text(fields.last()) + seq!['\n']
    }
}

/// A table as it is printed: its name between brackets on a line of its
/// own, then a line for each field, the key of the field under the name of
/// the table.
pub open spec fn table_text(t: TableView) -> Seq<char> {
    seq!['['] + key_text(t.name) + seq![']', '\n'] + field_lines(table_entries(t))
}

/// The items of `items` that are fields, in their order.
pub open spec fn top_fields(items: Seq<ItemView>) -> Seq<FieldView>
    decreases items.len(),
{
    if items.len() == 0 {
        Seq::empty()
    } else {
        match items.last() {
            ItemView::Field(f) => top_fields(items.drop_last()).push(f),
            ItemView::Table(_) => top_fields(items.drop_last()),
        }
    }
}

/// The items of `items` that are tables, in their order.
pub open spec fn top_tables(items: Seq<ItemView>) -> Seq<TableView>
    decreases items.len(),
{
    if items.len() == 0 {
        Seq::empty()
    } else {
        match items.last() {
            ItemView::Field(_) => top_tables(items.drop_last()),
            ItemView::Table(t) => top_tables(items.drop_last()).push(t),
        }
    }
}

/// The fields that an item stands for: a field itself, the fields of a
/// table under its name.
pub open spec fn item_entries(item: ItemView) -> Seq<FieldView> {
    match item {
        ItemView::Field(f) => seq![f],
        ItemView::Table(t) => table_entries(t),
    }
}

/// The fields that the items stand for, in the order of the items.
pub open spec fn document_entries(items: Seq<ItemView>) -> Seq<FieldView>
    decreases items.len(),
{
    if items.len() == 0 {
        Seq::empty()
    } else {
        document_entries(items.drop_last()) + item_entries(items.last())
    }
}

/// The key that a base name stands for: the key at its head, if there is
/// one.
pub open spec fn base_key(basename: Option<Seq<char>>) -> Option<Seq<Seq<char>>> {
    match basename {
        Some(text) => match key(text).result {
            Ok(k) => Some(k),
            Err(_) => None,
        },
        None => None,
    }
}

/// The variable that a field sets and what it sets it to, the name of the
/// variable under `base` where there is one.
pub open spec fn assignment(base: Option<Seq<Seq<char>>>, f: FieldView) -> (Seq<char>, Seq<char>) {
    (
        var_name(
            match base {
                Some(b) => b + f.key,
                None => f.key,
            },
        ),
        value_var(f.value),
    )
}

/// The assignments that a document stands for: one for each field, in the
/// order of the items and, in a table, of its fields.
pub open spec fn document_vars(doc: DocumentView) -> Seq<(Seq<char>, Seq<char>)> {
    document_entries(doc.items).map_values(
        |f: FieldView| assignment(base_key(doc.basename), f),
    )
}

/// The capital of a letter from `a` to `z`; any other character as it is.
pub open spec fn upper(c: char) -> char {
    if 'a' <= c && c <= 'z' {
        ((c as u8) - 32) as char
    } else {
        c
    }
}

/// `s` with each letter from `a` to `z` replaced by its capital.
pub open spec fn upper_text(s: Seq<char>) -> Seq<char> {
    s.map_values(|c: char| upper(c))
}

/// The name of the variable that a key stands for: its segments in capitals
/// with `_` between them.
pub open spec fn var_name(k: Seq<Seq<char>>) -> Seq<char> {
    join(k.map_values(|s: Seq<char>| upper_text(s)), '_')
}

/// Joining one part more appends the separator and the part, but for the
/// first part, which stands alone.
pub proof fn lemma_join_step(parts: Seq<Seq<char>>, sep: char, i: int)
    requires
        0 <= i < parts.len(),
    ensures
        join(parts.take(i + 1), sep) == (if i == 0 {
            parts[0]
        } else {
            join(parts.take(i), sep) + seq![sep] + parts[i]
        }),
{
    assert(parts.take(i + 1).drop_last() =~= parts.take(i));
}

/// Chaining is associative: what matters is the order of the keys, not the
/// order in which they are put together.
pub proof fn lemma_chain_associative(a: Seq<Seq<char>>, b: Seq<Seq<char>>, c: Seq<Seq<char>>)
    ensures
        (a + b) + c == a + (b + c),
{
}

/// Two keys chained are a key.
pub proof fn lemma_chain_is_key(a: Seq<Seq<char>>, b: Seq<Seq<char>>)
    requires
        is_key(a),
        is_key(b),
    ensures
        is_key(a + b),
{
}

/// The name of a variable does not depend on the case of the letters of the
/// key: keys that are the same in capitals stand for the same variable.
pub proof fn lemma_var_name_ignores_case(a: Seq<Seq<char>>, b: Seq<Seq<char>>)
    requires
        a.len() == b.len(),
        forall|i: int| 0 <= i < a.len() ==> upper_text(#[trigger] a[i]) == upper_text(b[i]),
    ensures
        var_name(a) == var_name(b),
{
    assert(a.map_values(|s: Seq<char>| upper_text(s)) =~= b.map_values(
        |s: Seq<char>| upper_text(s),
    ));
}

/// No lowercase letter stands in the text that joins parts without
/// lowercase letters by a separator that is none.
proof fn lemma_join_no_lowercase(parts: Seq<Seq<char>>, sep: char)
    requires
        !('a' <= sep && sep <= 'z'),
        forall|i: int, j: int|
            0 <= i < parts.len() && 0 <= j < parts[i].len() ==> !('a' <= #[trigger] parts[i][j]
                && parts[i][j] <= 'z'),
    ensures
        forall|j: int|
            0 <= j < join(parts, sep).len() ==> !('a' <= #[trigger] join(parts, sep)[j] && join(
                parts,
                sep,
            )[j] <= 'z'),
    decreases parts.len(),
{
    if parts.len() > 1 {
        let front = parts.drop_last();
        lemma_join_no_lowercase(front, sep);
        // what is joined is `head` and then the last part
        let head = join(front, sep) + seq![sep];
        assert(join(parts, sep) == head + parts.last());
    }
}

/// The name of a variable holds no lowercase letter, whatever the case of
/// the letters of the key.
pub proof fn lemma_var_name_no_lowercase(k: Seq<Seq<char>>)
    ensures
        forall|j: int|
            0 <= j < var_name(k).len() ==> !('a' <= #[trigger] var_name(k)[j] && var_name(k)[j]
                <= 'z'),
{
    let parts = k.map_values(|s: Seq<char>| upper_text(s));
    lemma_join_no_lowercase(parts, '_');
}

} // verus!
