//! Bytes of the input: the classes the grammar sorts them into, runs of one
//! class, and the text that a run of ASCII bytes spells.

use crate::css::ascii::{
    ASCII_END, CARRIAGE_RETURN, DIGIT_0, DIGIT_9, LINE_FEED, LOWER_A, LOWER_F, LOWER_Z, MINUS,
    SPACE, TAB, UPPER_A, UPPER_F, UPPER_Z,
};
use vstd::prelude::*;
use vstd::string::StringSliceAdditionalSpecFns;
use vstd::utf8::*;

verus! {

/// The ASCII letters.
pub open spec fn is_alpha(term: u8) -> bool {
    UPPER_A <= term <= UPPER_Z || LOWER_A <= term <= LOWER_Z
}

/// The ASCII letters and decimal digits.
pub open spec fn is_alphanum(term: u8) -> bool {
    is_alpha(term) || DIGIT_0 <= term <= DIGIT_9
}

/// `pom::char_class::alpha` answers `u8::is_ascii_alphabetic`: true for the
/// bytes `A` to `Z` and `a` to `z`, false for every other byte.
pub assume_specification[ pom::char_class::alpha ](term: u8) -> (r: bool)
    ensures
        r == is_alpha(term),
;

/// `pom::char_class::alphanum` answers `u8::is_ascii_alphanumeric`: true for
/// the ASCII letters and the digits `0` to `9`, false for every other byte.
pub assume_specification[ pom::char_class::alphanum ](term: u8) -> (r: bool)
    ensures
        r == is_alphanum(term),
;

/// The classes of bytes that the grammar repeats.
#[derive(Debug, PartialEq, Eq, Clone, Copy, Structural)]
pub enum ByteClass {
    /// Space, tab, carriage return and line feed.
    Space,
    /// `0` to `9`.
    Digit,
    /// `0` to `9`, `A` to `F` and `a` to `f`.
    HexDigit,
    /// The ASCII letters.
    Alpha,
    /// The ASCII letters and digits.
    Alphanum,
    /// What may follow the first letter of a property name: letters, digits
    /// and the hyphen.
    Name,
}

impl ByteClass {
    /// Whether `term` is a byte of the class.
    pub open spec fn holds(self, term: u8) -> bool {
        match self {
            ByteClass::Space => {
                term == SPACE || term == TAB || term == CARRIAGE_RETURN || term == LINE_FEED
            },
            ByteClass::Digit => DIGIT_0 <= term <= DIGIT_9,
            ByteClass::HexDigit => {
                ||| DIGIT_0 <= term <= DIGIT_9
                ||| UPPER_A <= term <= UPPER_F
                ||| LOWER_A <= term <= LOWER_F
            },
            ByteClass::Alpha => is_alpha(term),
            ByteClass::Alphanum => is_alphanum(term),
            ByteClass::Name => is_alphanum(term) || term == MINUS,
        }
    }

    /// Whether `term` is a byte of the class.
    pub fn contains(self, term: u8) -> (r: bool)
        ensures
            r == self.holds(term),
    {
        match self {
            ByteClass::Space => {
                term == SPACE || term == TAB || term == CARRIAGE_RETURN || term == LINE_FEED
            },
            ByteClass::Digit => DIGIT_0 <= term && term <= DIGIT_9,
            ByteClass::HexDigit => {
                (DIGIT_0 <= term && term <= DIGIT_9) || (UPPER_A <= term && term <= UPPER_F)
                    || (LOWER_A <= term && term <= LOWER_F)
            },
            ByteClass::Alpha => pom::char_class::alpha(term),
            ByteClass::Alphanum => pom::char_class::alphanum(term),
            ByteClass::Name => pom::char_class::alphanum(term) || term == MINUS,
        }
    }
}

/// Where the longest run of bytes of `class` that starts at `pos` ends.
pub open spec fn run_end(s: Seq<u8>, class: ByteClass, pos: int) -> int
    decreases s.len() - pos,
{
    if 0 <= pos < s.len() && class.holds(s[pos]) {
        run_end(s, class, pos + 1)
    } else {
        pos
    }
}

/// The run is made of bytes of the class, and is not followed by one.
pub proof fn lemma_run_end(s: Seq<u8>, class: ByteClass, pos: int)
    ensures
        pos <= run_end(s, class, pos),
        0 <= pos <= s.len() ==> run_end(s, class, pos) <= s.len(),
        forall|k: int| pos <= k < run_end(s, class, pos) ==> class.holds(#[trigger] s[k]),
        !byte_in(s, run_end(s, class, pos), class),
    decreases s.len() - pos,
{
    if 0 <= pos < s.len() && class.holds(s[pos]) {
        lemma_run_end(s, class, pos + 1);
    }
}

/// Whether the byte at `pos` is `term`; false past the end.
pub open spec fn byte_is(s: Seq<u8>, pos: int, term: u8) -> bool {
    0 <= pos < s.len() && s[pos] == term
}

/// Whether the byte at `pos` is in `class`; false past the end.
pub open spec fn byte_in(s: Seq<u8>, pos: int, class: ByteClass) -> bool {
    0 <= pos < s.len() && class.holds(s[pos])
}

/// Skips the longest run of bytes of `class`.
pub fn skip_run(input: &[u8], class: ByteClass, start: usize) -> (end: usize)
    requires
        start <= input@.len(),
    ensures
        end == run_end(input@, class, start as int),
        start <= end <= input@.len() <= usize::MAX,
{
    let mut pos: usize = start;
    while pos < input.len() && class.contains(input[pos])
        invariant
            start <= pos <= input@.len(),
            run_end(input@, class, start as int) == run_end(input@, class, pos as int),
        decreases input@.len() - pos,
    {
        pos += 1;
    }
    pos
}

/// Skips white space: any run of space, tab, carriage return and line feed.
pub fn space(input: &[u8], start: usize) -> (end: usize)
    requires
        start <= input@.len(),
    ensures
        end == run_end(input@, ByteClass::Space, start as int),
        start <= end <= input@.len() <= usize::MAX,
{
    skip_run(input, ByteClass::Space, start)
}

/// Whether the byte at `pos` is `term`.
pub fn at(input: &[u8], pos: usize, term: u8) -> (r: bool)
    ensures
        r == byte_is(input@, pos as int, term),
        input@.len() <= usize::MAX,
{
    pos < input.len() && input[pos] == term
}

/// Whether every byte is below 128.
pub open spec fn is_ascii_bytes(bytes: Seq<u8>) -> bool {
    forall|i: int| 0 <= i < bytes.len() ==> #[trigger] bytes[i] < ASCII_END
}

/// The text that ASCII bytes spell: one character for each byte.
pub open spec fn ascii_text(bytes: Seq<u8>) -> Seq<char> {
    Seq::new(bytes.len(), |i: int| bytes[i] as char)
}

/// ASCII bytes are well-formed UTF-8 and decode to one character each.
pub proof fn lemma_ascii_is_utf8(bytes: Seq<u8>)
    requires
        is_ascii_bytes(bytes),
    ensures
        valid_utf8(bytes),
        decode_utf8(bytes) == ascii_text(bytes),
{
    let chars = ascii_text(bytes);
    is_ascii_chars_encode_utf8(chars);
    assert(encode_utf8(chars) =~= bytes);
    encode_utf8_valid_utf8(chars);
    encode_utf8_decode_utf8(chars);
}

/// `std::str::from_utf8`: the bytes as a string slice where they are
/// well-formed UTF-8, and nothing where they are not.
#[verifier::external_body]
pub(crate) fn utf8_str(bytes: &[u8]) -> (r: Option<&str>)
    ensures
        r is Some <==> valid_utf8(bytes@),
        r matches Some(text) ==> text.spec_bytes() == bytes@,
{
    std::str::from_utf8(bytes).ok()
}

/// The string that UTF-8 bytes encode.
pub fn v2s(v: &Vec<u8>) -> (s: String)
    requires
        valid_utf8(v@),
    ensures
        s@ == decode_utf8(v@),
{
    match utf8_str(v.as_slice()) {
        Some(text) => {
            proof {
                encode_utf8_decode_utf8(text@);
            }
            text.to_owned()
        },
        None => vstd::pervasive::unreached(),
    }
}

/// The text that the ASCII bytes from `from` up to `to` spell.
pub fn text(input: &[u8], from: usize, to: usize) -> (s: String)
    requires
        from <= to <= input@.len(),
        forall|k: int| from <= k < to ==> #[trigger] input@[k] < ASCII_END,
    ensures
        s@ == ascii_text(input@.subrange(from as int, to as int)),
{
    let bytes = vstd::slice::slice_to_vec(vstd::slice::slice_subrange(input, from, to));
    proof {
        assert forall|i: int| 0 <= i < bytes@.len() implies #[trigger] bytes@[i] < ASCII_END by {
            assert(bytes@[i] == input@[from + i]);
        }
        lemma_ascii_is_utf8(bytes@);
    }
    v2s(&bytes)
}

/// The outcome of a parse in contracts: the value read and the position
/// after it, or the position where the input stopped matching.
pub type Parsed<V> = Result<(V, int), int>;

/// The input does not match the grammar at `position`.
#[derive(Debug, PartialEq, Eq, Clone, Copy, Structural)]
pub struct SyntaxError {
    pub position: usize,
}

/// What an executable parser returned, as its contract states it.
pub open spec fn outcome<T: View>(r: Result<(T, usize), SyntaxError>) -> Parsed<T::V> {
    match r {
        Ok((value, end)) => Ok((value@, end as int)),
        Err(error) => Err(error.position as int),
    }
}

} // verus!
