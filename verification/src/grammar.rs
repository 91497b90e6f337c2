//! The configuration language, stated as mathematical functions on sequences
//! of characters.
//!
//! ```text
//! document   := item*
//! item       := table | field
//! table      := "[" key "]" delim field (delim field)*
//! field      := key " = " value
//! key        := ident ("." ident)*
//! ident      := [a-z0-9_]+
//! value      := '"' <any character but '"'>* '"' | [0-9]+
//! delim      := " " | "\n"
//! ```
//!
//! Each unit is a function from the input that is left to an [`Outcome`]:
//! what was read, or why nothing could be, and the input that remains.
//!
//! Beyond the productions, no two fields of a table and no two items of a
//! document have the same key, and the top-level fields of a document stand
//! before its first table.

use vstd::prelude::*;
use crate::model::field;
use crate::model::ident;
use crate::model::key;
use crate::model::value;
use crate::parser::IntError;
use crate::rendering::key_text;

verus! {

/// What reading one unit yields, and the input that it leaves.
pub struct Outcome<T, E> {
    pub result: Result<T, E>,
    pub rest: Seq<char>,
}

/// A value, as the text or number that it holds.
pub enum ValueView {
    String(Seq<char>),
    Integer(u64),
}

/// A field, as its key segments and its value.
pub struct FieldView {
    pub key: Seq<Seq<char>>,
    pub value: ValueView,
}

/// A table, as its name and its fields in the order in which they were read.
pub struct TableView {
    pub name: Seq<Seq<char>>,
    pub fields: Seq<FieldView>,
}

/// A top-level unit of a document.
pub enum ItemView {
    Field(FieldView),
    Table(TableView),
}

/// A document, as its base name and its items in the order in which they
/// were read.
pub struct DocumentView {
    pub basename: Option<Seq<char>>,
    pub items: Seq<ItemView>,
}

/// Why a table could not be read.
pub enum TableErrorView {
    Name(Option<key::ParseError>),
    Field { source: field::ParseError, index: nat },
    MissingDelimiter,
    DuplicateKey(Seq<char>),
}

/// Why an item could not be read.
pub enum ItemErrorView {
    Field(field::ParseError),
    Table(TableErrorView),
}

/// Why a document could not be read.
pub enum DocumentErrorView {
    DuplicateKey(Seq<Seq<char>>),
    Field(field::ParseError),
    Table(TableErrorView),
}

/// The sets of characters that a run is made of.
pub enum CharClass {
    /// `[a-z0-9_]`
    Ident,
    /// `[0-9]`
    Digit,
    /// Anything but `"`.
    Unquoted,
}

pub open spec fn is_ident_char(c: char) -> bool {
    ('a' <= c && c <= 'z') || ('0' <= c && c <= '9') || c == '_'
}

pub open spec fn is_digit(c: char) -> bool {
    '0' <= c && c <= '9'
}

pub open spec fn is_delimiter(c: char) -> bool {
    c == ' ' || c == '\n'
}

pub open spec fn in_class(class: CharClass, c: char) -> bool {
    match class {
        CharClass::Ident => is_ident_char(c),
        CharClass::Digit => is_digit(c),
        CharClass::Unquoted => c != '"',
    }
}

/// The length of the longest prefix of `s` made of characters of `class`.
pub open spec fn run_len(class: CharClass, s: Seq<char>) -> nat
    decreases s.len(),
{
    if s.len() > 0 && in_class(class, s[0]) {
        1 + run_len(class, s.drop_first())
    } else {
        0
    }
}

/// A non-empty sequence of identifier characters.
pub open spec fn is_ident(s: Seq<char>) -> bool {
    s.len() > 0 && forall|i: int| 0 <= i < s.len() ==> is_ident_char(#[trigger] s[i])
}

/// A non-empty sequence of identifiers.
pub open spec fn is_key(k: Seq<Seq<char>>) -> bool {
    k.len() > 0 && forall|i: int| 0 <= i < k.len() ==> is_ident(#[trigger] k[i])
}

/// `ident := [a-z0-9_]+`
pub open spec fn ident(s: Seq<char>) -> Outcome<Seq<char>, ident::ParseError> {
    let n = run_len(CharClass::Ident, s) as int;
    if n == 0 {
        Outcome { result: Err(ident::ParseError), rest: s }
    } else {
        Outcome { result: Ok(s.take(n)), rest: s.skip(n) }
    }
}

/// `outcome`, with `ids` in front of the segments that it holds.
pub open spec fn prepend(
    ids: Seq<Seq<char>>,
    outcome: Outcome<Seq<Seq<char>>, key::ParseError>,
) -> Outcome<Seq<Seq<char>>, key::ParseError> {
    Outcome {
        result: match outcome.result {
            Ok(more) => Ok(ids + more),
            Err(e) => Err(e),
        },
        rest: outcome.rest,
    }
}

/// `("." ident)*`: the segments that follow the first one.
pub open spec fn key_tail(s: Seq<char>) -> Outcome<Seq<Seq<char>>, key::ParseError>
    decreases s.len(),
{
    if s.len() > 0 && s[0] == '.' {
        let segment = ident(s.drop_first());
        match segment.result {
            Err(_) => Outcome { result: Err(key::ParseError::Ident), rest: segment.rest },
            Ok(id) => {
                proof {
                    lemma_ident_rest(s.drop_first());
                }
                prepend(seq![id], key_tail(segment.rest))
            },
        }
    } else {
        Outcome { result: Ok(Seq::empty()), rest: s }
    }
}

/// `key := ident ("." ident)*`
pub open spec fn key(s: Seq<char>) -> Outcome<Seq<Seq<char>>, key::ParseError> {
    if s.len() > 0 && s[0] == '.' {
        Outcome { result: Err(key::ParseError::LeadingSeparator), rest: s }
    } else {
        let first = ident(s);
        match first.result {
            Err(_) => Outcome { result: Err(key::ParseError::Ident), rest: first.rest },
            Ok(id) => prepend(seq![id], key_tail(first.rest)),
        }
    }
}

/// The number that a sequence of decimal digits denotes.
pub open spec fn decimal_value(digits: Seq<char>) -> nat
    decreases digits.len(),
{
    if digits.len() == 0 {
        0
    } else {
        (decimal_value(digits.drop_last()) * 10 + (digits.last() as int - '0' as int)) as nat
    }
}

/// `[0-9]+`, as a number that fits in 64 bits.
pub open spec fn integer(s: Seq<char>) -> Outcome<u64, IntError> {
    let n = run_len(CharClass::Digit, s) as int;
    let number = decimal_value(s.take(n));
    Outcome {
        result: if n == 0 {
            Err(IntError::Empty)
        } else if number > u64::MAX {
            Err(IntError::Overflow)
        } else {
            Ok(number as u64)
        },
        rest: s.skip(n),
    }
}

/// `value := '"' <any character but '"'>* '"' | [0-9]+`
pub open spec fn value(s: Seq<char>) -> Outcome<ValueView, value::ParseError> {
    if s.len() > 0 && s[0] == '"' {
        let body = s.drop_first();
        let n = run_len(CharClass::Unquoted, body) as int;
        if n < body.len() {
            Outcome { result: Ok(ValueView::String(body.take(n))), rest: body.skip(n + 1) }
        } else {
            Outcome { result: Err(value::ParseError::UnclosedString), rest: body.skip(n) }
        }
    } else {
        let number = integer(s);
        Outcome {
            result: match number.result {
                Ok(v) => Ok(ValueView::Integer(v)),
                Err(e) => Err(value::ParseError::ParseInt(e)),
            },
            rest: number.rest,
        }
    }
}

/// How many characters of `s` agree with the start of `" = "`.
pub open spec fn separator_len(s: Seq<char>) -> int {
    if !(s.len() > 0 && s[0] == ' ') {
        0
    } else if !(s.len() > 1 && s[1] == '=') {
        1
    } else if !(s.len() > 2 && s[2] == ' ') {
        2
    } else {
        3
    }
}

/// `" = "`; where the input departs from it, what agreed is consumed.
pub open spec fn separator(s: Seq<char>) -> Outcome<(), field::ParseError> {
    let n = separator_len(s);
    Outcome {
        result: if n == 3 {
            Ok(())
        } else {
            Err(field::ParseError::Separator)
        },
        rest: s.skip(n),
    }
}

/// `field := key " = " value`
pub open spec fn field(s: Seq<char>) -> Outcome<FieldView, field::ParseError> {
    let k = key(s);
    match k.result {
        Err(e) => Outcome { result: Err(field::ParseError::Key(e)), rest: k.rest },
        Ok(name) => {
            let sep = separator(k.rest);
            match sep.result {
                Err(e) => Outcome { result: Err(e), rest: sep.rest },
                Ok(_) => {
                    let v = value(sep.rest);
                    Outcome {
                        result: match v.result {
                            Err(e) => Err(field::ParseError::Value(e)),
                            Ok(val) => Ok(FieldView { key: name, value: val }),
                        },
                        rest: v.rest,
                    }
                },
            }
        },
    }
}

/// Whether some field of `fields` has the key `k`.
pub open spec fn has_field(fields: Seq<FieldView>, k: Seq<Seq<char>>) -> bool {
    exists|i: int| 0 <= i < fields.len() && (#[trigger] fields[i]).key == k
}

/// `s` without its first character, where that is a delimiter.
pub open spec fn skip_delimiter(s: Seq<char>) -> Seq<char> {
    if s.len() > 0 && is_delimiter(s[0]) {
        s.drop_first()
    } else {
        s
    }
}

/// Whether a field of a table may start at the head of `s`.
pub open spec fn field_follows(s: Seq<char>) -> bool {
    s.len() > 0 && s[0] != '[' && s[0] != '\n'
}

/// `field (delim field)*`, after the fields `seen` of the same table: all
/// the fields of the table, or the first failure. A field whose key one of
/// the earlier fields has is a failure.
pub open spec fn table_fields(s: Seq<char>, seen: Seq<FieldView>) -> Outcome<
    Seq<FieldView>,
    TableErrorView,
>
    decreases s.len(),
{
    if field_follows(s) {
        let next = field(s);
        match next.result {
            Err(e) => Outcome {
                result: Err(TableErrorView::Field { source: e, index: seen.len() }),
                rest: next.rest,
            },
            Ok(f) => {
                if has_field(seen, f.key) {
                    Outcome {
                        result: Err(TableErrorView::DuplicateKey(key_text(f.key))),
                        rest: next.rest,
                    }
                } else {
                    proof {
                        lemma_field_rest(s);
                    }
                    table_fields(skip_delimiter(next.rest), seen.push(f))
                }
            },
        }
    } else {
        Outcome { result: Ok(seen), rest: s }
    }
}

/// The table named `name` with the fields that `fields` holds, or the
/// failure that it holds.
pub open spec fn with_name(
    name: Seq<Seq<char>>,
    fields: Outcome<Seq<FieldView>, TableErrorView>,
) -> Outcome<TableView, TableErrorView> {
    Outcome {
        result: match fields.result {
            Err(e) => Err(e),
            Ok(fs) => Ok(TableView { name: name, fields: fs }),
        },
        rest: fields.rest,
    }
}

/// `table := "[" key "]" delim field (delim field)*`
pub open spec fn table(s: Seq<char>) -> Outcome<TableView, TableErrorView> {
    if !(s.len() > 0 && s[0] == '[') {
        Outcome { result: Err(TableErrorView::Name(None)), rest: s }
    } else {
        let name = key(s.drop_first());
        match name.result {
            Err(e) => Outcome { result: Err(TableErrorView::Name(Some(e))), rest: name.rest },
            Ok(k) => {
                if !(name.rest.len() > 0 && name.rest[0] == ']') {
                    Outcome { result: Err(TableErrorView::Name(None)), rest: name.rest }
                } else if !(name.rest.len() > 1 && is_delimiter(name.rest[1])) {
                    Outcome { result: Err(TableErrorView::MissingDelimiter), rest: name.rest.skip(1) }
                } else {
                    with_name(k, table_fields(name.rest.skip(2), Seq::empty()))
                }
            },
        }
    }
}

/// A table, as an item.
pub open spec fn table_item(s: Seq<char>) -> Outcome<ItemView, ItemErrorView> {
    let t = table(s);
    Outcome {
        result: match t.result {
            Err(e) => Err(ItemErrorView::Table(e)),
            Ok(tv) => Ok(ItemView::Table(tv)),
        },
        rest: t.rest,
    }
}

/// A field, as an item.
pub open spec fn field_item(s: Seq<char>) -> Outcome<ItemView, ItemErrorView> {
    let f = field(s);
    Outcome {
        result: match f.result {
            Err(e) => Err(ItemErrorView::Field(e)),
            Ok(fv) => Ok(ItemView::Field(fv)),
        },
        rest: f.rest,
    }
}

/// `item := table | field`, told apart by a leading `[`.
pub open spec fn item(s: Seq<char>) -> Outcome<ItemView, ItemErrorView> {
    if s.len() > 0 && s[0] == '[' {
        table_item(s)
    } else {
        field_item(s)
    }
}

/// The key by which an item is told from the others: a field's key, a
/// table's name.
pub open spec fn item_key(item: ItemView) -> Seq<Seq<char>> {
    match item {
        ItemView::Field(f) => f.key,
        ItemView::Table(t) => t.name,
    }
}

/// Whether some item of `items` has the key `k`.
pub open spec fn has_item(items: Seq<ItemView>, k: Seq<Seq<char>>) -> bool {
    exists|i: int| 0 <= i < items.len() && item_key(#[trigger] items[i]) == k
}

/// `s` without its leading line breaks.
pub open spec fn skip_newlines(s: Seq<char>) -> Seq<char>
    decreases s.len(),
{
    if s.len() > 0 && s[0] == '\n' {
        skip_newlines(s.drop_first())
    } else {
        s
    }
}

/// Whether the last of the items `seen` is a table. Top-level fields stand
/// before the first table: once a table has been read, only tables follow.
pub open spec fn tables_started(seen: Seq<ItemView>) -> bool {
    seen.len() > 0 && seen.last() is Table
}

/// The item that follows the items `seen`: a field or a table before the
/// first table, a table after it.
pub open spec fn next_item(s: Seq<char>, seen: Seq<ItemView>) -> Outcome<ItemView, ItemErrorView> {
    if tables_started(seen) {
        table_item(s)
    } else {
        item(s)
    }
}

/// `item*` up to the end of the input, after the items `seen`: all the
/// items of the document, or the first failure. An item whose key one of the
/// earlier items has is a failure, and so is a field after a table. Line
/// breaks after an item are skipped.
pub open spec fn document_items(s: Seq<char>, seen: Seq<ItemView>) -> Outcome<
    Seq<ItemView>,
    DocumentErrorView,
>
    decreases s.len(),
{
    if s.len() == 0 {
        Outcome { result: Ok(seen), rest: s }
    } else {
        let next = next_item(s, seen);
        match next.result {
            Err(ItemErrorView::Field(e)) => Outcome {
                result: Err(DocumentErrorView::Field(e)),
                rest: next.rest,
            },
            Err(ItemErrorView::Table(e)) => Outcome {
                result: Err(DocumentErrorView::Table(e)),
                rest: next.rest,
            },
            Ok(it) => {
                if has_item(seen, item_key(it)) {
                    Outcome {
                        result: Err(DocumentErrorView::DuplicateKey(item_key(it))),
                        rest: next.rest,
                    }
                } else {
                    proof {
                        lemma_next_item_rest(s, seen);
                        lemma_skip_newlines_rest(next.rest);
                    }
                    document_items(skip_newlines(next.rest), seen.push(it))
                }
            },
        }
    }
}

/// `document := item*`
pub open spec fn document(s: Seq<char>) -> Outcome<DocumentView, DocumentErrorView> {
    let items = document_items(s, Seq::empty());
    Outcome {
        result: match items.result {
            Err(e) => Err(e),
            Ok(its) => Ok(DocumentView { basename: None, items: its }),
        },
        rest: items.rest,
    }
}

/// The characters that count as white space.
pub open spec fn is_whitespace(c: char) -> bool {
    c == ' ' || ('\t' <= c && c <= '\r') || c == '\u{85}' || c == '\u{a0}' || c == '\u{1680}' || (
    '\u{2000}' <= c && c <= '\u{200a}') || c == '\u{2028}' || c == '\u{2029}' || c == '\u{202f}'
        || c == '\u{205f}' || c == '\u{3000}'
}

/// Whether `s` is empty or made of white space only.
pub open spec fn is_blank(s: Seq<char>) -> bool {
    forall|i: int| 0 <= i < s.len() ==> is_whitespace(#[trigger] s[i])
}

/// An identifier, read as an identifier, is itself, and nothing is left.
pub proof fn lemma_ident_reads_itself(s: Seq<char>)
    requires
        is_ident(s),
    ensures
        ident(s) == (Outcome::<Seq<char>, ident::ParseError> { result: Ok(s), rest: Seq::empty() }),
{
    lemma_run_len_is(CharClass::Ident, s, s.len() as int);
    assert(s.take(s.len() as int) =~= s);
    assert(s.skip(s.len() as int) =~= Seq::<char>::empty());
}

/// Nothing can be read from an input that is empty or made of white space
/// only: no identifier, no key and no value.
pub proof fn lemma_blank_fails(s: Seq<char>)
    requires
        is_blank(s),
    ensures
        ident(s).result is Err,
        key(s).result is Err,
        value(s).result is Err,
{
    lemma_run_len_is(CharClass::Ident, s, 0);
    lemma_run_len_is(CharClass::Digit, s, 0);
}

/// What is read as an identifier is an identifier.
pub proof fn lemma_ident_is_ident(s: Seq<char>)
    ensures
        ident(s).result is Ok ==> is_ident(ident(s).result->Ok_0),
{
    lemma_run_len_bound(CharClass::Ident, s);
    lemma_run_holds(CharClass::Ident, s);
}

/// Every character of a run is of its class.
pub proof fn lemma_run_holds(class: CharClass, s: Seq<char>)
    ensures
        forall|i: int| 0 <= i < run_len(class, s) ==> in_class(class, #[trigger] s[i]),
        run_len(class, s) < s.len() ==> !in_class(class, s[run_len(class, s) as int]),
    decreases s.len(),
{
    lemma_run_len_bound(class, s);
    if s.len() > 0 && in_class(class, s[0]) {
        let tail = s.drop_first();
        lemma_run_holds(class, tail);
        assert forall|i: int| 0 <= i < run_len(class, s) implies in_class(
            class,
            #[trigger] s[i],
        ) by {
            if i > 0 {
                assert(s[i] == tail[i - 1]);
            }
        }
    }
}

/// The segments that are read after the first one are identifiers.
pub proof fn lemma_key_tail_is_idents(s: Seq<char>)
    ensures
        key_tail(s).result is Ok ==> forall|i: int|
            0 <= i < key_tail(s).result->Ok_0.len() ==> is_ident(
                #[trigger] key_tail(s).result->Ok_0[i],
            ),
    decreases s.len(),
{
    if s.len() > 0 && s[0] == '.' {
        let segment = ident(s.drop_first());
        if segment.result is Ok {
            lemma_ident_rest(s.drop_first());
            lemma_ident_is_ident(s.drop_first());
            lemma_key_tail_is_idents(segment.rest);
        }
    }
}

/// What is read as a key is a key: it has a segment, and each segment is an
/// identifier.
pub proof fn lemma_key_is_key(s: Seq<char>)
    ensures
        key(s).result is Ok ==> is_key(key(s).result->Ok_0),
{
    if key(s).result is Ok {
        lemma_ident_is_ident(s);
        lemma_key_tail_is_idents(ident(s).rest);
    }
}

/// Whether no two fields of `fields` have the same key.
pub open spec fn distinct_fields(fields: Seq<FieldView>) -> bool {
    forall|i: int, j: int|
        0 <= i < j < fields.len() ==> (#[trigger] fields[i]).key != (#[trigger] fields[j]).key
}

/// Whether no two items of `items` have the same key.
pub open spec fn distinct_items(items: Seq<ItemView>) -> bool {
    forall|i: int, j: int|
        0 <= i < j < items.len() ==> item_key(#[trigger] items[i]) != item_key(
            #[trigger] items[j],
        )
}

/// The fields that are read after fields with distinct keys have distinct
/// keys, those before them included.
pub proof fn lemma_table_fields_distinct(s: Seq<char>, seen: Seq<FieldView>)
    requires
        distinct_fields(seen),
    ensures
        table_fields(s, seen).result is Ok ==> distinct_fields(table_fields(s, seen).result->Ok_0),
    decreases s.len(),
{
    if field_follows(s) {
        let next = field(s);
        if next.result is Ok && !has_field(seen, next.result->Ok_0.key) {
            let f = next.result->Ok_0;
            let longer = seen.push(f);
            lemma_field_rest(s);
            lemma_table_fields_distinct(skip_delimiter(next.rest), longer);
        }
    }
}

/// No two fields of a table that is read have the same key.
pub proof fn lemma_table_distinct(s: Seq<char>)
    ensures
        table(s).result is Ok ==> distinct_fields(table(s).result->Ok_0.fields),
{
    if table(s).result is Ok {
        let name = key(s.drop_first());
        lemma_table_fields_distinct(name.rest.skip(2), Seq::empty());
    }
}

/// The items that are read after items with distinct keys have distinct
/// keys, those before them included.
pub proof fn lemma_document_items_distinct(s: Seq<char>, seen: Seq<ItemView>)
    requires
        distinct_items(seen),
    ensures
        document_items(s, seen).result is Ok ==> distinct_items(
            document_items(s, seen).result->Ok_0,
        ),
    decreases s.len(),
{
    if s.len() > 0 {
        let next = next_item(s, seen);
        if next.result is Ok && !has_item(seen, item_key(next.result->Ok_0)) {
            let it = next.result->Ok_0;
            let longer = seen.push(it);
            lemma_next_item_rest(s, seen);
            lemma_skip_newlines_rest(next.rest);
            lemma_document_items_distinct(skip_newlines(next.rest), longer);
        }
    }
}

/// Whether every field of `items` stands before every table.
pub open spec fn fields_first(items: Seq<ItemView>) -> bool {
    forall|i: int, j: int|
        0 <= i < j < items.len() && (#[trigger] items[i]) is Table ==> (#[trigger] items[j]) is Table
}

/// The items that are read after items whose fields stand before their
/// tables are fields before tables too, those before them included.
pub proof fn lemma_document_items_fields_first(s: Seq<char>, seen: Seq<ItemView>)
    requires
        fields_first(seen),
    ensures
        document_items(s, seen).result is Ok ==> fields_first(document_items(s, seen).result->Ok_0),
    decreases s.len(),
{
    if s.len() > 0 {
        let next = next_item(s, seen);
        if next.result is Ok && !has_item(seen, item_key(next.result->Ok_0)) {
            let longer = seen.push(next.result->Ok_0);
            lemma_next_item_rest(s, seen);
            lemma_skip_newlines_rest(next.rest);
            assert forall|i: int, j: int|
                0 <= i < j < longer.len() && (#[trigger] longer[i]) is Table implies (
            #[trigger] longer[j]) is Table by {
                if j == seen.len() {
                    assert(seen[i] is Table);
                    if i < seen.len() - 1 {
                        assert(seen[seen.len() - 1] is Table);
                    }
                } else {
                    assert(longer[i] == seen[i]);
                    assert(longer[j] == seen[j]);
                }
            }
            lemma_document_items_fields_first(skip_newlines(next.rest), longer);
        }
    }
}

/// In a document that is read, every top-level field stands before every
/// table.
pub proof fn lemma_document_fields_first(s: Seq<char>)
    ensures
        document(s).result is Ok ==> fields_first(document(s).result->Ok_0.items),
{
    lemma_document_items_fields_first(s, Seq::empty());
}

/// Where the items can be read, nothing is left of the input.
pub proof fn lemma_document_items_exhaust(s: Seq<char>, seen: Seq<ItemView>)
    ensures
        document_items(s, seen).result is Ok ==> document_items(s, seen).rest.len() == 0,
    decreases s.len(),
{
    if s.len() > 0 {
        let next = next_item(s, seen);
        if next.result is Ok && !has_item(seen, item_key(next.result->Ok_0)) {
            lemma_next_item_rest(s, seen);
            lemma_skip_newlines_rest(next.rest);
            lemma_document_items_exhaust(skip_newlines(next.rest), seen.push(next.result->Ok_0));
        }
    }
}

/// A document is read from the whole input: where it can be read, nothing
/// is left.
pub proof fn lemma_document_exhausts(s: Seq<char>)
    ensures
        document(s).result is Ok ==> document(s).rest.len() == 0,
{
    lemma_document_items_exhaust(s, Seq::empty());
}

/// No two items of a document that is read have the same key.
pub proof fn lemma_document_distinct(s: Seq<char>)
    ensures
        document(s).result is Ok ==> distinct_items(document(s).result->Ok_0.items),
{
    lemma_document_items_distinct(s, Seq::empty());
}

/// A run is no longer than the input that it is taken from.
pub proof fn lemma_run_len_bound(class: CharClass, s: Seq<char>)
    ensures
        run_len(class, s) <= s.len(),
    decreases s.len(),
{
    if s.len() > 0 && in_class(class, s[0]) {
        lemma_run_len_bound(class, s.drop_first());
    }
}

/// A prefix of characters of `class` that ends where the input ends, or at
/// a character outside `class`, is the run.
pub proof fn lemma_run_len_is(class: CharClass, s: Seq<char>, n: int)
    requires
        0 <= n <= s.len(),
        forall|i: int| 0 <= i < n ==> in_class(class, #[trigger] s[i]),
        n < s.len() ==> !in_class(class, s[n]),
    ensures
        run_len(class, s) == n,
    decreases s.len(),
{
    if n > 0 {
        let tail = s.drop_first();
        lemma_run_len_is(class, tail, n - 1);
    }
}

/// Reading an identifier leaves no more than it was given, and less where
/// it succeeds.
pub proof fn lemma_ident_rest(s: Seq<char>)
    ensures
        ident(s).rest.len() <= s.len(),
        ident(s).result is Ok ==> ident(s).rest.len() < s.len(),
{
    lemma_run_len_bound(CharClass::Ident, s);
}

pub proof fn lemma_key_tail_rest(s: Seq<char>)
    ensures
        key_tail(s).rest.len() <= s.len(),
    decreases s.len(),
{
    if s.len() > 0 && s[0] == '.' {
        lemma_ident_rest(s.drop_first());
        if ident(s.drop_first()).result is Ok {
            lemma_key_tail_rest(ident(s.drop_first()).rest);
        }
    }
}

/// Reading a key leaves no more than it was given, and less where it
/// succeeds.
pub proof fn lemma_key_rest(s: Seq<char>)
    ensures
        key(s).rest.len() <= s.len(),
        key(s).result is Ok ==> key(s).rest.len() < s.len(),
{
    lemma_ident_rest(s);
    lemma_key_tail_rest(ident(s).rest);
}

pub proof fn lemma_value_rest(s: Seq<char>)
    ensures
        value(s).rest.len() <= s.len(),
{
    if s.len() > 0 && s[0] == '"' {
        lemma_run_len_bound(CharClass::Unquoted, s.drop_first());
    } else {
        lemma_run_len_bound(CharClass::Digit, s);
    }
}

/// Reading a field leaves no more than it was given, and less where it
/// succeeds.
pub proof fn lemma_field_rest(s: Seq<char>)
    ensures
        field(s).rest.len() <= s.len(),
        field(s).result is Ok ==> field(s).rest.len() < s.len(),
{
    lemma_key_rest(s);
    if key(s).result is Ok {
        let after_key = key(s).rest;
        if separator(after_key).result is Ok {
            lemma_value_rest(separator(after_key).rest);
        }
    }
}

pub proof fn lemma_table_fields_rest(s: Seq<char>, seen: Seq<FieldView>)
    ensures
        table_fields(s, seen).rest.len() <= s.len(),
    decreases s.len(),
{
    if field_follows(s) {
        lemma_field_rest(s);
        let next = field(s);
        if next.result is Ok && !has_field(seen, next.result->Ok_0.key) {
            lemma_table_fields_rest(skip_delimiter(next.rest), seen.push(next.result->Ok_0));
        }
    }
}

/// Reading a table leaves no more than it was given, and less where it
/// succeeds.
pub proof fn lemma_table_rest(s: Seq<char>)
    ensures
        table(s).rest.len() <= s.len(),
        table(s).result is Ok ==> table(s).rest.len() < s.len(),
{
    if s.len() > 0 && s[0] == '[' {
        lemma_key_rest(s.drop_first());
        let name = key(s.drop_first());
        if name.result is Ok && name.rest.len() > 1 {
            lemma_table_fields_rest(name.rest.skip(2), Seq::empty());
        }
    }
}

/// Reading an item leaves no more than it was given, and less where it
/// succeeds.
pub proof fn lemma_item_rest(s: Seq<char>)
    ensures
        item(s).rest.len() <= s.len(),
        item(s).result is Ok ==> item(s).rest.len() < s.len(),
{
    lemma_table_rest(s);
    lemma_field_rest(s);
}

/// Reading the next item of a document leaves no more than it was given,
/// and less where it succeeds.
pub proof fn lemma_next_item_rest(s: Seq<char>, seen: Seq<ItemView>)
    ensures
        next_item(s, seen).rest.len() <= s.len(),
        next_item(s, seen).result is Ok ==> next_item(s, seen).rest.len() < s.len(),
{
    lemma_table_rest(s);
    lemma_item_rest(s);
}

pub proof fn lemma_skip_newlines_rest(s: Seq<char>)
    ensures
        skip_newlines(s).len() <= s.len(),
    decreases s.len(),
{
    if s.len() > 0 && s[0] == '\n' {
        lemma_skip_newlines_rest(s.drop_first());
    }
}

} // verus!
