//! What is written reads back as what it was written from: the text of a
//! key, a number, a value or a field, read by the grammar, gives the same
//! key, number, value or field, and leaves what followed the text.

use vstd::prelude::*;
use crate::grammar::{
    decimal_value,
    field,
    ident,
    integer,
    is_digit,
    is_ident,
    is_ident_char,
    is_key,
    key,
    key_tail,
    lemma_run_len_is,
    separator,
    value,
    CharClass,
    FieldView,
    Outcome,
    ValueView,
};
use crate::rendering::{decimal_text, field_text, key_text, value_text};
use crate::model::field;
use crate::model::ident;
use crate::model::key;
use crate::model::value;
use crate::parser::IntError;

verus! {

/// Whether a key ends where `rest` starts: `rest` is empty, or its first
/// character is neither an identifier character nor the separator.
pub open spec fn ends_key(rest: Seq<char>) -> bool {
    rest.len() == 0 || (!is_ident_char(rest[0]) && rest[0] != '.')
}

/// Whether a number ends where `rest` starts: `rest` is empty, or its first
/// character is no digit.
pub open spec fn ends_number(rest: Seq<char>) -> bool {
    rest.len() == 0 || !is_digit(rest[0])
}

/// Whether `v` can be written so that it reads back: its text, if it is a
/// string, holds no quote.
pub open spec fn is_writable(v: ValueView) -> bool {
    match v {
        ValueView::String(text) => forall|i: int| 0 <= i < text.len() ==> #[trigger] text[i] != '"',
        ValueView::Integer(_) => true,
    }
}

/// Whether `v` ends where `rest` starts: always for a string, which its
/// closing quote ends; for a number, where the number ends.
pub open spec fn ends_value(v: ValueView, rest: Seq<char>) -> bool {
    match v {
        ValueView::String(_) => true,
        ValueView::Integer(_) => ends_number(rest),
    }
}

/// An identifier followed by something that is no identifier character
/// reads as that identifier.
pub proof fn lemma_ident_round_trip(id: Seq<char>, rest: Seq<char>)
    requires
        is_ident(id),
        rest.len() == 0 || !is_ident_char(rest[0]),
    ensures
        ident(id + rest) == (Outcome::<Seq<char>, ident::ParseError> { result: Ok(id), rest }),
{
    let s = id + rest;
    lemma_run_len_is(CharClass::Ident, s, id.len() as int);
    assert(s.take(id.len() as int) =~= id);
    assert(s.skip(id.len() as int) =~= rest);
}

/// The segments `k`, each after a separator.
pub open spec fn tail_text(k: Seq<Seq<char>>) -> Seq<char>
    decreases k.len(),
{
    if k.len() == 0 {
        Seq::empty()
    } else {
        seq!['.'] + k.first() + tail_text(k.drop_first())
    }
}

/// The text of a key is its first segment, and each of the others after a
/// separator.
pub proof fn lemma_key_text_unfolds(k: Seq<Seq<char>>)
    requires
        k.len() > 0,
    ensures
        key_text(k) == k.first() + tail_text(k.drop_first()),
    decreases k.len(),
{
    if k.len() > 1 {
        let front = k.drop_last();
        lemma_key_text_unfolds(front);
        lemma_tail_text_push(front.drop_first(), k.last());
        assert(front.drop_first().push(k.last()) =~= k.drop_first());
    }
}

/// One segment more at the end of the segments is one separator and one
/// segment more at the end of their text.
proof fn lemma_tail_text_push(k: Seq<Seq<char>>, last: Seq<char>)
    ensures
        tail_text(k.push(last)) == tail_text(k) + seq!['.'] + last,
    decreases k.len(),
{
    if k.len() == 0 {
        assert(k.push(last).drop_first() =~= Seq::<Seq<char>>::empty());
        assert(tail_text(k.push(last)) =~= seq!['.'] + last + tail_text(Seq::empty()));
    } else {
        lemma_tail_text_push(k.drop_first(), last);
        assert(k.push(last).drop_first() =~= k.drop_first().push(last));
    }
}

/// Segments written each after a separator read back as those segments.
pub proof fn lemma_key_tail_round_trip(k: Seq<Seq<char>>, rest: Seq<char>)
    requires
        forall|i: int| 0 <= i < k.len() ==> is_ident(#[trigger] k[i]),
        ends_key(rest),
    ensures
        key_tail(tail_text(k) + rest) == (Outcome::<Seq<Seq<char>>, key::ParseError> {
            result: Ok(k),
            rest,
        }),
    decreases k.len(),
{
    if k.len() == 0 {
        assert(k =~= Seq::<Seq<char>>::empty());
    } else {
        let s = tail_text(k) + rest;
        let more = k.drop_first();
        let after = tail_text(more) + rest;
        assert(s.drop_first() =~= k.first() + after);
        lemma_ident_round_trip(k.first(), after);
        lemma_key_tail_round_trip(more, rest);
        assert(seq![k.first()] + more =~= k);
    }
}

/// The text of a key reads back as that key.
pub proof fn lemma_key_round_trip(k: Seq<Seq<char>>, rest: Seq<char>)
    requires
        is_key(k),
        ends_key(rest),
    ensures
        key(key_text(k) + rest) == (Outcome::<Seq<Seq<char>>, key::ParseError> {
            result: Ok(k),
            rest,
        }),
{
    lemma_key_text_unfolds(k);
    let more = k.drop_first();
    let after = tail_text(more) + rest;
    let s = key_text(k) + rest;
    assert(s =~= k.first() + after);
    lemma_ident_round_trip(k.first(), after);
    lemma_key_tail_round_trip(more, rest);
    assert(seq![k.first()] + more =~= k);
}

/// A number written in decimal digits is made of digits only, and they
/// denote that number.
pub proof fn lemma_decimal_text(n: nat)
    ensures
        decimal_text(n).len() > 0,
        forall|i: int| 0 <= i < decimal_text(n).len() ==> is_digit(#[trigger] decimal_text(n)[i]),
        decimal_value(decimal_text(n)) == n,
    decreases n,
{
    if n < 10 {
        let text = decimal_text(n);
        assert(decimal_value(text.drop_last()) == 0);
    } else {
        lemma_decimal_text(n / 10);
        let front = decimal_text(n / 10);
        assert(decimal_text(n).drop_last() =~= front);
    }
}

/// A number written in decimal digits reads back as that number.
pub proof fn lemma_integer_round_trip(n: u64, rest: Seq<char>)
    requires
        ends_number(rest),
    ensures
        integer(decimal_text(n as nat) + rest) == (Outcome::<u64, IntError> {
            result: Ok(n),
            rest,
        }),
{
    let digits = decimal_text(n as nat);
    let s = digits + rest;
    lemma_decimal_text(n as nat);
    if rest.len() > 0 {
        assert(s[digits.len() as int] == rest[0]);
    }
    lemma_run_len_is(CharClass::Digit, s, digits.len() as int);
    assert(s.take(digits.len() as int) =~= digits);
    assert(s.skip(digits.len() as int) =~= rest);
}

/// The text of a value reads back as that value.
pub proof fn lemma_value_round_trip(v: ValueView, rest: Seq<char>)
    requires
        is_writable(v),
        ends_value(v, rest),
    ensures
        value(value_text(v) + rest) == (Outcome::<ValueView, value::ParseError> {
            result: Ok(v),
            rest,
        }),
{
    let s = value_text(v) + rest;
    match v {
        ValueView::String(text) => {
            let body = text + seq!['"'] + rest;
            assert(s.drop_first() =~= body);
            lemma_run_len_is(CharClass::Unquoted, body, text.len() as int);
            assert(body.take(text.len() as int) =~= text);
            assert(body.skip(text.len() as int + 1) =~= rest);
        },
        ValueView::Integer(n) => {
            lemma_decimal_text(n as nat);
            lemma_integer_round_trip(n, rest);
        },
    }
}

/// The text of a field reads back as that field.
pub proof fn lemma_field_round_trip(f: FieldView, rest: Seq<char>)
    requires
        is_key(f.key),
        is_writable(f.value),
        ends_value(f.value, rest),
    ensures
        field(field_text(f) + rest) == (Outcome::<FieldView, field::ParseError> {
            result: Ok(f),
            rest,
        }),
{
    let after_sep = value_text(f.value) + rest;
    let after_key = seq![' ', '=', ' '] + after_sep;
    assert(field_text(f) + rest =~= key_text(f.key) + after_key);
    lemma_key_round_trip(f.key, after_key);
    assert(separator(after_key).rest == after_sep);
    lemma_value_round_trip(f.value, rest);
}

} // verus!
