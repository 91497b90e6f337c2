//! Strings as sequences of characters: where a string slice can be cut, when
//! two slices hold the same text, and how text is appended to a `String`.

use vstd::prelude::*;
use vstd::string::*;
use vstd::std_specs::iter::IteratorSpec;
use vstd::utf8::*;
use crate::rendering::{decimal_text, upper, upper_text};

verus! {

/// `String::push` of the standard library: the string afterwards is the
/// string before with `ch` as one more character at its end. Assumed, not
/// proved.
pub assume_specification[ std::string::String::push ](s: &mut std::string::String, ch: char)
    ensures
        final(s)@ == old(s)@.push(ch),
;

/// The capital of a letter from `a` to `z`; any other character as it is.
pub fn to_upper(ch: char) -> (up: char)
    ensures
        up == upper(ch),
{
    if 'a' <= ch && ch <= 'z' {
        ((ch as u8) - 32) as char
    } else {
        ch
    }
}

/// Appends `text` to `out`, each letter from `a` to `z` as its capital.
pub fn push_upper(out: &mut String, text: &str)
    ensures
        final(out)@ == old(out)@ + upper_text(text@),
{
    broadcast use group_string_axioms;

    let mut it = text.chars();
    let ghost mut n: int = 0;
    loop
        invariant_except_break
            it.remaining() == text@.skip(n),
        invariant
            0 <= n <= text@.len(),
            it.obeys_prophetic_iter_laws(),
            it.decrease() is Some,
            out@ == old(out)@ + upper_text(text@.take(n)),
        ensures
            out@ == old(out)@ + upper_text(text@),
        decreases text@.len() - n,
    {
        match it.next() {
            None => {
                break ;
            },
            Some(ch) => {
                out.push(to_upper(ch));
                proof {
                    n = n + 1;
                }
            },
        }
    }
}

/// Appends `n` to `out` in decimal digits.
pub fn push_decimal(out: &mut String, n: u64)
    ensures
        final(out)@ == old(out)@ + decimal_text(n as nat),
    decreases n,
{
    if n >= 10 {
        push_decimal(out, n / 10);
    }
    let digit = (('0' as u8) + ((n % 10) as u8)) as char;
    out.push(digit);
}

/// Whether `a` and `b` hold the same characters.
pub fn str_eq(a: &str, b: &str) -> (same: bool)
    ensures
        same == (a@ == b@),
{
    let x = a.as_bytes();
    let y = b.as_bytes();
    if x.len() != y.len() {
        return false;
    }
    let mut i: usize = 0;
    while i < x.len()
        invariant
            x@ == encode_utf8(a@),
            y@ == encode_utf8(b@),
            x@.len() == y@.len(),
            0 <= i <= x@.len(),
            forall|j: int| 0 <= j < i ==> x@[j] == y@[j],
        decreases x@.len() - i,
    {
        if x[i] != y[i] {
            return false;
        }
        i = i + 1;
    }
    proof {
        assert(x@ =~= y@);
        lemma_encode_injective(a@, b@);
    }
    true
}

/// The number of bytes that the UTF-8 encoding of `c` occupies.
pub fn utf8_width(c: char) -> (n: usize)
    ensures
        n == encode_scalar(c as u32).len(),
        1 <= n <= 4,
{
    let v: u32 = c as u32;
    if v < 0x80 {
        1
    } else if v < 0x800 {
        2
    } else if v < 0x10000 {
        3
    } else {
        4
    }
}

/// Encoding distributes over concatenation.
pub proof fn lemma_encode_concat(a: Seq<char>, b: Seq<char>)
    ensures
        encode_utf8(a + b) == encode_utf8(a) + encode_utf8(b),
    decreases a.len(),
{
    if a.len() > 0 {
        lemma_encode_concat(a.drop_first(), b);
        assert((a + b).drop_first() =~= a.drop_first() + b);
    }
}

/// The end of an encoded prefix is a character boundary of the whole encoding.
pub proof fn lemma_prefix_boundary(a: Seq<char>, b: Seq<char>)
    ensures
        is_char_boundary(encode_utf8(a + b), encode_utf8(a).len() as int),
    decreases a.len(),
{
    broadcast use encode_utf8_valid_utf8;

    let bytes = encode_utf8(a + b);
    if a.len() > 0 {
        lemma_encode_concat(a, b);
        encode_utf8_first_scalar(a + b);
        lemma_prefix_boundary(a.drop_first(), b);
        assert((a + b).drop_first() =~= a.drop_first() + b);
        assert(pop_first_scalar(bytes) =~= encode_utf8(a.drop_first() + b));
    }
}

/// Cutting the encoding of `a + b` after the bytes of `a` yields the encodings
/// of `a` and of `b`.
pub proof fn lemma_split_encoding(a: Seq<char>, b: Seq<char>)
    ensures
        ({
            let bytes = encode_utf8(a + b);
            let mid = encode_utf8(a).len() as int;
            &&& mid <= bytes.len()
            &&& is_char_boundary(bytes, mid)
            &&& bytes.subrange(0, mid) == encode_utf8(a)
            &&& bytes.subrange(mid, bytes.len() as int) == encode_utf8(b)
        }),
{
    lemma_encode_concat(a, b);
    lemma_prefix_boundary(a, b);
    let bytes = encode_utf8(a + b);
    let mid = encode_utf8(a).len() as int;
}

/// Two character sequences with the same encoding are the same sequence.
pub proof fn lemma_encode_injective(a: Seq<char>, b: Seq<char>)
    requires
        encode_utf8(a) == encode_utf8(b),
    ensures
        a == b,
{
    encode_utf8_decode_utf8(a);
    encode_utf8_decode_utf8(b);
}

} // verus!
