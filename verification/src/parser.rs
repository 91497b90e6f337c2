//! The character reader that every grammar unit parses from, and the protocol
//! that the units share.

use vstd::prelude::*;
use vstd::string::*;
use vstd::utf8::*;
use vstd::std_specs::iter::IteratorSpec;
use crate::text::{
    lemma_encode_concat,
    lemma_encode_injective,
    lemma_split_encoding,
    utf8_width,
};
use crate::grammar::{decimal_value, integer, is_digit, lemma_run_len_is, CharClass, Outcome};

verus! {

/// Why a run of digits is not a 64-bit unsigned integer.
#[derive(Debug, Clone, Copy, PartialEq, Eq, Structural)]
pub enum IntError {
    /// There is no digit.
    Empty,
    /// The number is larger than `u64::MAX`.
    Overflow,
}

/// A forward-only reader over the characters of a string slice.
pub struct Parser<'i> {
    input: &'i str,
}

impl<'i> View for Parser<'i> {
    type V = Seq<char>;

    /// The characters that have not been consumed yet.
    closed spec fn view(&self) -> Seq<char> {
        self.input@
    }
}

impl<'i> Parser<'i> {
    /// A reader positioned at the start of `input`.
    pub fn new(input: &'i str) -> (p: Self)
        ensures
            p@ == input@,
    {
        Self { input }
    }

    /// The next character, without consuming it.
    pub fn peek_char(&self) -> (c: Option<char>)
        ensures
            c == (if self@.len() > 0 {
                Some(self@[0])
            } else {
                None
            }),
    {
        broadcast use group_string_axioms;

        let mut it = self.input.chars();
        it.next()
    }

    /// Consumes and returns the next character; at the end of the input
    /// nothing changes.
    pub fn next_char(&mut self) -> (c: Option<char>)
        ensures
            c == (if old(self)@.len() > 0 {
                Some(old(self)@[0])
            } else {
                None
            }),
            final(self)@ == (if old(self)@.len() > 0 {
                old(self)@.drop_first()
            } else {
                old(self)@
            }),
    {
        match self.peek_char() {
            None => None,
            Some(ch) => {
                let width = utf8_width(ch);
                proof {
                    let head = seq![ch];
                    let tail = self.input@.drop_first();
                    assert(self.input@ =~= head + tail);
                    lemma_split_encoding(head, tail);
                }
                let (_, rest) = self.input.split_at(width);
                proof {
                    lemma_encode_injective(rest@, self.input@.drop_first());
                }
                self.input = rest;
                Some(ch)
            },
        }
    }

    /// Consumes the next character if it is `ch`, and says whether it did.
    pub fn parse_char(&mut self, ch: char) -> (found: bool)
        ensures
            found == (old(self)@.len() > 0 && old(self)@[0] == ch),
            final(self)@ == (if found {
                old(self)@.drop_first()
            } else {
                old(self)@
            }),
    {
        let is_ch = |next: char| -> (b: bool)
            ensures
                b == (next == ch),
            { next == ch };
        self.parse_char_with(is_ch).is_some()
    }

    /// Consumes the next character if `matches` accepts it; otherwise the
    /// reader stays where it is.
    pub fn parse_char_with<F: FnOnce(char) -> bool>(&mut self, matches: F) -> (c: Option<char>)
        requires
            old(self)@.len() > 0 ==> call_requires(matches, (old(self)@[0],)),
        ensures
            match c {
                Some(ch) => {
                    &&& old(self)@.len() > 0
                    &&& ch == old(self)@[0]
                    &&& call_ensures(matches, (ch,), true)
                    &&& final(self)@ == old(self)@.drop_first()
                },
                None => {
                    &&& final(self)@ == old(self)@
                    &&& old(self)@.len() > 0 ==> call_ensures(matches, (old(self)@[0],), false)
                },
            },
    {
        if let Some(next) = self.peek_char() {
            if matches(next) {
                self.next_char();
                return Some(next);
            }
        }
        None
    }

    /// Consumes the longest leading run of characters that `matches` accepts
    /// and returns it, or `None` where that run is empty.
    pub fn parse_while<F: Fn(&char) -> bool>(&mut self, matches: F) -> (run: Option<&'i str>)
        requires
            forall|i: int|
                0 <= i < old(self)@.len() ==> #[trigger] call_requires(
                    matches,
                    (&old(self)@[i],),
                ),
        ensures
            final(self)@.len() <= old(self)@.len(),
            ({
                let n = old(self)@.len() - final(self)@.len();
                &&& final(self)@ == old(self)@.skip(n)
                &&& forall|i: int|
                    0 <= i < n ==> call_ensures(matches, (&#[trigger] old(self)@[i],), true)
                &&& n < old(self)@.len() ==> call_ensures(matches, (&old(self)@[n],), false)
                &&& match run {
                    Some(s) => n > 0 && s@ == old(self)@.take(n),
                    None => n == 0,
                }
            }),
    {
        broadcast use group_string_axioms;

        let ghost text = self.input@;
        // the counter of bytes stays within the length of the input, which fits a `usize`
        let total = self.input.as_bytes().len();
        let mut it = self.input.chars();
        let mut counter: usize = 0;
        let ghost mut n: int = 0;
        loop
            invariant_except_break
                it.remaining() == text.skip(n),
            invariant
                text == self.input@,
                text == old(self)@,
                total == encode_utf8(text).len(),
                0 <= n <= text.len(),
                it.obeys_prophetic_iter_laws(),
                it.decrease() is Some,
                counter == encode_utf8(text.take(n)).len(),
                forall|i: int|
                    0 <= i < text.len() ==> #[trigger] call_requires(matches, (&text[i],)),
                forall|i: int| 0 <= i < n ==> call_ensures(matches, (&#[trigger] text[i],), true),
            ensures
                0 <= n <= text.len(),
                counter == encode_utf8(text.take(n)).len(),
                forall|i: int| 0 <= i < n ==> call_ensures(matches, (&#[trigger] text[i],), true),
                n < text.len() ==> call_ensures(matches, (&text[n],), false),
            decreases text.len() - n,
        {
            match it.next() {
                None => {
                    break ;
                },
                Some(ch) => {
                    if !matches(&ch) {
                        break ;
                    }
                    let width = utf8_width(ch);
                    proof {
                        let longer = text.take(n + 1);
                        assert(longer =~= text.take(n) + seq![ch]);
                        lemma_encode_concat(text.take(n), seq![ch]);
                        assert(encode_utf8(seq![ch]) =~= encode_scalar(ch as u32)) by {
                            reveal_with_fuel(encode_utf8, 2);
                        }
                        assert(text =~= longer + text.skip(n + 1));
                        lemma_encode_concat(longer, text.skip(n + 1));
                        n = n + 1;
                    }
                    counter = counter + width;
                },
            }
        }
        proof {
            assert(text =~= text.take(n) + text.skip(n));
            lemma_split_encoding(text.take(n), text.skip(n));
        }
        let (head, rest) = self.input.split_at(counter);
        proof {
            lemma_encode_injective(head@, text.take(n));
            lemma_encode_injective(rest@, text.skip(n));
        }
        if counter != 0 {
            self.input = rest;
            Some(head)
        } else {
            proof {
                if n > 0 {
                    lemma_encode_concat(seq![text[0]], text.take(n).drop_first());
                    vstd::utf8::char_is_scalar(text[0]);
                }
            }
            None
        }
    }
}

/// Closes [`Parse`]: only the units of this language implement it.
pub trait Sealed {

}

/// A unit of the language that can be read from a [`Parser`].
pub trait Parse<'p>: Sized + Sealed {
    type Err;

    /// Whether the grammar of this unit, on the input `before`, yields `r`
    /// and leaves `after`.
    spec fn parsed(before: Seq<char>, r: Result<Self, Self::Err>, after: Seq<char>) -> bool;

    /// Reads one unit from the head of `input`.
    fn parse(input: &mut Parser<'p>) -> (r: Result<Self, Self::Err>)
        ensures
            Self::parsed(old(input)@, r, final(input)@),
    ;

    /// Reads one unit from the head of `s`.
    fn parse_str<'s: 'p>(s: &'s str) -> (r: Result<Self, Self::Err>)
        ensures
            exists|rest: Seq<char>| Self::parsed(s@, r, rest),
    {
        let mut input = Parser::new(s);
        let r = Self::parse(&mut input);
        r
    }
}

impl<'i> Parser<'i> {
    /// Reads one unit of the kind `P` from the head of the input.
    pub fn parse<P: Parse<'i>>(&mut self) -> (r: Result<P, P::Err>)
        ensures
            P::parsed(old(self)@, r, final(self)@),
    {
        P::parse(self)
    }
}

impl Sealed for u64 {

}

impl<'p> Parse<'p> for u64 {
    type Err = IntError;

    open spec fn parsed(before: Seq<char>, r: Result<Self, Self::Err>, after: Seq<char>) -> bool {
        integer(before) == (Outcome { result: r, rest: after })
    }

    fn parse(input: &mut Parser<'p>) -> (r: Result<Self, Self::Err>) {
        read_integer(input)
    }
}

/// Reads the longest run of digits at the head of `input` as a number. The
/// run is consumed also where it is too long for 64 bits.
pub(crate) fn read_integer<'p>(input: &mut Parser<'p>) -> (r: Result<u64, IntError>)
    ensures
        integer(old(input)@) == (Outcome { result: r, rest: final(input)@ }),
{
    let ghost text = input@;
    let mut number: u64 = 0;
    let mut overflow = false;
    let mut any = false;
    let ghost mut n: int = 0;
    loop
        invariant
            0 <= n <= text.len(),
            input@ == text.skip(n),
            forall|i: int| 0 <= i < n ==> is_digit(#[trigger] text[i]),
            any == (n > 0),
            overflow ==> decimal_value(text.take(n)) > u64::MAX,
            !overflow ==> number == decimal_value(text.take(n)),
        ensures
            0 <= n <= text.len(),
            input@ == text.skip(n),
            forall|i: int| 0 <= i < n ==> is_digit(#[trigger] text[i]),
            n < text.len() ==> !is_digit(text[n]),
            any == (n > 0),
            overflow ==> decimal_value(text.take(n)) > u64::MAX,
            !overflow ==> number == decimal_value(text.take(n)),
        decreases text.len() - n,
    {
        let is_digit_char = |ch: char| -> (b: bool)
            ensures
                b == is_digit(ch),
            { '0' <= ch && ch <= '9' };
        match input.parse_char_with(is_digit_char) {
            None => {
                break ;
            },
            Some(digit) => {
                let d: u64 = (digit as u64) - ('0' as u64);
                proof {
                    assert(text.take(n + 1).drop_last() =~= text.take(n));
                }
                if !overflow {
                    if number > (u64::MAX - d) / 10 {
                        overflow = true;
                    } else {
                        number = number * 10 + d;
                    }
                }
                any = true;
                proof {
                    n = n + 1;
                }
            },
        }
    }
    proof {
        lemma_run_len_is(CharClass::Digit, text, n);
    }
    if !any {
        Err(IntError::Empty)
    } else if overflow {
        Err(IntError::Overflow)
    } else {
        Ok(number)
    }
}

} // verus!
