//! The grammar of property values: numbers, units, lengths, hexadecimal
//! colors and keywords, and the ordered choice among them.

use crate::css::ascii::{
    BACKSLASH, BACKSPACE, CARRIAGE_RETURN, CASE_GAP, DIGIT_0, DOT, FORM_FEED, HASH,
    LINE_FEED, LOWER_B, LOWER_E, LOWER_F, LOWER_N, LOWER_P, LOWER_R, LOWER_T, LOWER_X, MINUS, PLUS,
    QUOTE, SLASH, TAB, UPPER_A, UPPER_E, UPPER_Z,
};
use crate::css::scan::{
    ascii_text, at, byte_in, byte_is, lemma_ascii_is_utf8, lemma_run_end, outcome, run_end,
    skip_run, text, utf8_str, v2s, ByteClass, Parsed, SyntaxError,
};
use crate::css::{Unit, Value, ValueView};
use vstd::prelude::*;
use vstd::utf8::*;

verus! {

/// Where an optional minus sign at `pos` ends.
pub open spec fn sign_end(s: Seq<u8>, pos: int) -> int {
    if byte_is(s, pos, MINUS) {
        pos + 1
    } else {
        pos
    }
}

/// Where the integer part at `pos` ends: a digit other than `0` and the
/// digits after it, or a single `0`.
pub open spec fn integer_end(s: Seq<u8>, pos: int) -> Option<int> {
    if byte_is(s, pos, DIGIT_0) {
        Some(pos + 1)
    } else if byte_in(s, pos, ByteClass::Digit) {
        Some(run_end(s, ByteClass::Digit, pos + 1))
    } else {
        None
    }
}

/// Where an optional fraction at `pos` ends: a point and at least one digit.
pub open spec fn fraction_end(s: Seq<u8>, pos: int) -> int {
    if byte_is(s, pos, DOT) && run_end(s, ByteClass::Digit, pos + 1) > pos + 1 {
        run_end(s, ByteClass::Digit, pos + 1)
    } else {
        pos
    }
}

/// Where the digits of an exponent that starts at `pos` start: after the
/// letter and an optional sign.
pub open spec fn exponent_digits(s: Seq<u8>, pos: int) -> int {
    if byte_is(s, pos + 1, PLUS) || byte_is(s, pos + 1, MINUS) {
        pos + 2
    } else {
        pos + 1
    }
}

/// Where an optional exponent at `pos` ends: `e` or `E`, an optional sign and
/// at least one digit.
pub open spec fn exponent_end(s: Seq<u8>, pos: int) -> int {
    if (byte_is(s, pos, LOWER_E) || byte_is(s, pos, UPPER_E)) && run_end(
        s,
        ByteClass::Digit,
        exponent_digits(s, pos),
    ) > exponent_digits(s, pos) {
        run_end(s, ByteClass::Digit, exponent_digits(s, pos))
    } else {
        pos
    }
}

/// A number: an optional minus sign, an integer part, an optional fraction
/// and an optional exponent. Its value is the numeral as written.
pub open spec fn spec_number(s: Seq<u8>, pos: int) -> Parsed<Seq<char>> {
    match integer_end(s, sign_end(s, pos)) {
        Some(whole) => {
            let end = exponent_end(s, fraction_end(s, whole));
            Ok((ascii_text(s.subrange(pos, end)), end))
        },
        None => Err(sign_end(s, pos)),
    }
}

/// The unit `px`.
pub open spec fn spec_unit(s: Seq<u8>, pos: int) -> Parsed<Unit> {
    if byte_is(s, pos, LOWER_P) && byte_is(s, pos + 1, LOWER_X) {
        Ok((Unit::Px, pos + 2))
    } else {
        Err(pos)
    }
}

/// A length: a number with the unit right after it.
pub open spec fn spec_length(s: Seq<u8>, pos: int) -> Parsed<ValueView> {
    match spec_number(s, pos) {
        Ok((numeral, after)) => match spec_unit(s, after) {
            Ok((unit, end)) => Ok((ValueView::Length(numeral, unit), end)),
            Err(at) => Err(at),
        },
        Err(at) => Err(at),
    }
}

/// An ASCII capital letter as its small letter, any other byte as it is.
pub open spec fn lower(term: u8) -> u8 {
    if UPPER_A <= term <= UPPER_Z {
        (term + CASE_GAP) as u8
    } else {
        term
    }
}

/// The bytes with every ASCII capital letter made small.
pub open spec fn lowered(bytes: Seq<u8>) -> Seq<u8> {
    Seq::new(bytes.len(), |i: int| lower(bytes[i]))
}

/// The stored form of a color written with the hexadecimal digits `digits`:
/// `#` and the digits in lower case.
pub open spec fn hex_code(digits: Seq<u8>) -> Seq<char> {
    ascii_text(lowered(digits).insert(0, HASH))
}

/// A hexadecimal color: `#` and a run of exactly six hexadecimal digits.
pub open spec fn spec_hexcolor(s: Seq<u8>, pos: int) -> Parsed<ValueView> {
    if !byte_is(s, pos, HASH) {
        Err(pos)
    } else if run_end(s, ByteClass::HexDigit, pos + 1) != pos + 7 {
        Err(pos + 1)
    } else {
        Ok((ValueView::HexColor(hex_code(s.subrange(pos + 1, pos + 7))), pos + 7))
    }
}

/// A keyword: white space, then the longest run of letters, which may be
/// empty.
pub open spec fn spec_keyword(s: Seq<u8>, pos: int) -> (ValueView, int) {
    let from = run_end(s, ByteClass::Space, pos);
    let end = run_end(s, ByteClass::Alpha, from);
    (ValueView::Keyword(ascii_text(s.subrange(from, end))), end)
}

/// A value: a hexadecimal color, else a length, else a keyword.
pub open spec fn spec_value(s: Seq<u8>, pos: int) -> (ValueView, int) {
    match spec_hexcolor(s, pos) {
        Ok(color) => color,
        Err(_) => match spec_length(s, pos) {
            Ok(length) => length,
            Err(_) => spec_keyword(s, pos),
        },
    }
}

/// The byte that the byte after a backslash stands for, if the two are an
/// escape sequence: the backslash, the slash and the quote for themselves,
/// and `b`, `f`, `n`, `r` and `t` for backspace, form feed, line feed,
/// carriage return and tab.
pub open spec fn unescaped(term: u8) -> Option<u8> {
    if term == BACKSLASH || term == SLASH || term == QUOTE {
        Some(term)
    } else if term == LOWER_B {
        Some(BACKSPACE)
    } else if term == LOWER_F {
        Some(FORM_FEED)
    } else if term == LOWER_N {
        Some(LINE_FEED)
    } else if term == LOWER_R {
        Some(CARRIAGE_RETURN)
    } else if term == LOWER_T {
        Some(TAB)
    } else {
        None
    }
}

/// The bytes that the inside of a quoted string at `pos` spells, and where
/// it ends: at the first quote, at a backslash that starts no escape
/// sequence, or at the end of the input.
pub open spec fn spec_string_body(s: Seq<u8>, pos: int) -> (Seq<u8>, int)
    decreases s.len() - pos,
{
    if pos < 0 || pos >= s.len() || s[pos] == QUOTE {
        (Seq::empty(), pos)
    } else if s[pos] != BACKSLASH {
        (seq![s[pos]] + spec_string_body(s, pos + 1).0, spec_string_body(s, pos + 1).1)
    } else if pos + 1 < s.len() && unescaped(s[pos + 1]) is Some {
        (
            seq![unescaped(s[pos + 1]).unwrap()] + spec_string_body(s, pos + 2).0,
            spec_string_body(s, pos + 2).1,
        )
    } else {
        (Seq::empty(), pos)
    }
}

/// A quoted string: a quote, bytes and escape sequences, and a quote. The
/// bytes it spells must be well-formed UTF-8; where they are not, the string
/// is refused as a whole, at the position where it starts.
pub open spec fn spec_string(s: Seq<u8>, pos: int) -> Parsed<Seq<char>> {
    if !byte_is(s, pos, QUOTE) {
        Err(pos)
    } else if !byte_is(s, spec_string_body(s, pos + 1).1, QUOTE) {
        Err(spec_string_body(s, pos + 1).1)
    } else if !valid_utf8(spec_string_body(s, pos + 1).0) {
        Err(pos)
    } else {
        Ok((decode_utf8(spec_string_body(s, pos + 1).0), spec_string_body(s, pos + 1).1 + 1))
    }
}

/// A value ends inside the input, at or after the position it was read at.
pub proof fn lemma_value_ends_inside(s: Seq<u8>, pos: int)
    requires
        0 <= pos <= s.len(),
    ensures
        pos <= spec_value(s, pos).1 <= s.len(),
{
    lemma_run_end(s, ByteClass::Space, pos);
    lemma_run_end(s, ByteClass::Alpha, run_end(s, ByteClass::Space, pos));
    lemma_run_end(s, ByteClass::HexDigit, pos + 1);
    if let Some(whole) = integer_end(s, sign_end(s, pos)) {
        lemma_run_end(s, ByteClass::Digit, sign_end(s, pos) + 1);
        lemma_run_end(s, ByteClass::Digit, whole + 1);
        let mantissa = fraction_end(s, whole);
        if mantissa < s.len() {
            lemma_run_end(s, ByteClass::Digit, exponent_digits(s, mantissa));
        }
    }
}

/// Colors whose digits differ in case alone are stored as the same code.
pub proof fn lemma_hex_code_ignores_case(a: Seq<u8>, b: Seq<u8>)
    requires
        a.len() == b.len(),
        forall|i: int| 0 <= i < a.len() ==> lower(a[i]) == lower(b[i]),
    ensures
        hex_code(a) == hex_code(b),
{
}

/// A `#` that exactly six hexadecimal digits do not follow is no color, and
/// no other kind of value either: what is read there is the empty keyword,
/// and nothing of the input is taken.
pub proof fn lemma_malformed_color_is_no_value(s: Seq<u8>, pos: int)
    requires
        byte_is(s, pos, HASH),
        run_end(s, ByteClass::HexDigit, pos + 1) != pos + 7,
    ensures
        spec_hexcolor(s, pos) == Err::<(ValueView, int), int>(pos + 1),
        spec_value(s, pos) == (ValueView::Keyword(Seq::<char>::empty()), pos),
{
    assert(ascii_text(s.subrange(pos, pos)) =~= Seq::<char>::empty());
}

/// A number that the unit `px` does not follow is no length, and no other
/// kind of value either: what is read there is the empty keyword, and
/// nothing of the input is taken.
pub proof fn lemma_unknown_unit_is_no_value(s: Seq<u8>, pos: int)
    requires
        spec_number(s, pos) matches Ok((_, end)) && spec_unit(s, end) is Err,
    ensures
        spec_length(s, pos) is Err,
        spec_value(s, pos) == (ValueView::Keyword(Seq::<char>::empty()), pos),
{
    assert(ascii_text(s.subrange(pos, pos)) =~= Seq::<char>::empty());
}

/// Reads a number and returns its numeral.
pub fn number(input: &[u8], start: usize) -> (r: Result<(String, usize), SyntaxError>)
    requires
        start <= input@.len(),
    ensures
        outcome(r) == spec_number(input@, start as int),
        r matches Ok((_, end)) ==> start < end <= input@.len(),
        r matches Err(error) ==> start <= error.position <= input@.len(),
{
    let whole_from: usize = if at(input, start, MINUS) {
        start + 1
    } else {
        start
    };
    let whole_end: usize = if at(input, whole_from, DIGIT_0) {
        whole_from + 1
    } else if whole_from < input.len() && ByteClass::Digit.contains(input[whole_from]) {
        skip_run(input, ByteClass::Digit, whole_from + 1)
    } else {
        return Err(SyntaxError { position: whole_from });
    };
    proof {
        lemma_run_end(input@, ByteClass::Digit, whole_from + 1);
    }
    let mut end: usize = whole_end;
    if at(input, end, DOT) {
        let digits_end: usize = skip_run(input, ByteClass::Digit, end + 1);
        if digits_end > end + 1 {
            proof {
                lemma_run_end(input@, ByteClass::Digit, end + 1);
            }
            end = digits_end;
        }
    }
    if at(input, end, LOWER_E) || at(input, end, UPPER_E) {
        let digits_from: usize = if at(input, end + 1, PLUS) || at(input, end + 1, MINUS) {
            end + 2
        } else {
            end + 1
        };
        let digits_end: usize = skip_run(input, ByteClass::Digit, digits_from);
        if digits_end > digits_from {
            proof {
                lemma_run_end(input@, ByteClass::Digit, digits_from as int);
            }
            end = digits_end;
        }
    }
    Ok((text(input, start, end), end))
}

/// Reads the unit `px`.
pub fn unit(input: &[u8], start: usize) -> (r: Result<(Unit, usize), SyntaxError>)
    requires
        start <= input@.len(),
    ensures
        outcome(r) == spec_unit(input@, start as int),
        r matches Ok((_, end)) ==> start < end <= input@.len(),
        r matches Err(error) ==> start <= error.position <= input@.len(),
{
    if at(input, start, LOWER_P) && at(input, start + 1, LOWER_X) {
        Ok((Unit::Px, start + 2))
    } else {
        Err(SyntaxError { position: start })
    }
}

/// Reads a length: a number and its unit.
pub fn length_unit(input: &[u8], start: usize) -> (r: Result<(Value, usize), SyntaxError>)
    requires
        start <= input@.len(),
    ensures
        outcome(r) == spec_length(input@, start as int),
        r matches Ok((_, end)) ==> start < end <= input@.len(),
        r matches Err(error) ==> start <= error.position <= input@.len(),
{
    match number(input, start) {
        Ok((numeral, after)) => match unit(input, after) {
            Ok((unit, end)) => Ok((Value::Length(numeral, unit), end)),
            Err(error) => Err(error),
        },
        Err(error) => Err(error),
    }
}

/// An ASCII capital letter as its small letter, any other byte as it is.
pub fn to_lower(term: u8) -> (r: u8)
    ensures
        r == lower(term),
{
    if UPPER_A <= term && term <= UPPER_Z {
        term + CASE_GAP
    } else {
        term
    }
}

/// Reads a hexadecimal color and returns it in its stored form.
pub fn hexcolor(input: &[u8], start: usize) -> (r: Result<(Value, usize), SyntaxError>)
    requires
        start <= input@.len(),
    ensures
        outcome(r) == spec_hexcolor(input@, start as int),
        r matches Ok((_, end)) ==> start < end <= input@.len(),
        r matches Err(error) ==> start <= error.position <= input@.len(),
{
    if !at(input, start, HASH) {
        return Err(SyntaxError { position: start });
    }
    let end: usize = skip_run(input, ByteClass::HexDigit, start + 1);
    if end - start != 7 {
        return Err(SyntaxError { position: start + 1 });
    }
    let ghost digits = input@.subrange(start + 1, start + 7);
    let mut code: Vec<u8> = Vec::new();
    let mut i: usize = start + 1;
    while i < end
        invariant
            start + 1 <= i <= end,
            end == start + 7,
            end <= input@.len(),
            digits == input@.subrange(start + 1, start + 7),
            code@ == lowered(digits.subrange(0, i - (start + 1))),
        decreases end - i,
    {
        code.push(to_lower(input[i]));
        i += 1;
    }
    assert(digits.subrange(0, 6) =~= digits);
    code.insert(0, HASH);
    proof {
        lemma_run_end(input@, ByteClass::HexDigit, start + 1);
        lemma_ascii_is_utf8(code@);
    }
    Ok((Value::HexColor(v2s(&code)), end))
}

/// Reads a keyword: white space and a run of letters.
pub fn keyword(input: &[u8], start: usize) -> (r: (Value, usize))
    requires
        start <= input@.len(),
    ensures
        (r.0@, r.1 as int) == spec_keyword(input@, start as int),
        start <= r.1 <= input@.len(),
{
    let from: usize = skip_run(input, ByteClass::Space, start);
    let end: usize = skip_run(input, ByteClass::Alpha, from);
    proof {
        lemma_run_end(input@, ByteClass::Alpha, from as int);
    }
    (Value::Keyword(text(input, from, end)), end)
}

/// Reads a value: a hexadecimal color, else a length, else a keyword.
pub fn value(input: &[u8], start: usize) -> (r: (Value, usize))
    requires
        start <= input@.len(),
    ensures
        (r.0@, r.1 as int) == spec_value(input@, start as int),
        start <= r.1 <= input@.len(),
{
    match hexcolor(input, start) {
        Ok(color) => color,
        Err(_) => match length_unit(input, start) {
            Ok(length) => length,
            Err(_) => keyword(input, start),
        },
    }
}

/// The byte that `term` stands for after a backslash.
pub fn unescape(term: u8) -> (r: Option<u8>)
    ensures
        r == unescaped(term),
{
    if term == BACKSLASH || term == SLASH || term == QUOTE {
        Some(term)
    } else if term == LOWER_B {
        Some(BACKSPACE)
    } else if term == LOWER_F {
        Some(FORM_FEED)
    } else if term == LOWER_N {
        Some(LINE_FEED)
    } else if term == LOWER_R {
        Some(CARRIAGE_RETURN)
    } else if term == LOWER_T {
        Some(TAB)
    } else {
        None
    }
}

/// Reads a quoted string and returns the text between the quotes, with each
/// escape sequence replaced by the byte it stands for.
pub fn string(input: &[u8], start: usize) -> (r: Result<(String, usize), SyntaxError>)
    requires
        start <= input@.len(),
    ensures
        outcome(r) == spec_string(input@, start as int),
        r matches Ok((_, end)) ==> start < end <= input@.len(),
        r matches Err(error) ==> start <= error.position <= input@.len(),
{
    if !at(input, start, QUOTE) {
        return Err(SyntaxError { position: start });
    }
    let mut bytes: Vec<u8> = Vec::new();
    let mut pos: usize = start + 1;
    loop
        invariant
            start < pos <= input@.len() <= usize::MAX,
            spec_string_body(input@, start + 1).0 == bytes@ + spec_string_body(
                input@,
                pos as int,
            ).0,
            spec_string_body(input@, start + 1).1 == spec_string_body(input@, pos as int).1,
        ensures
            spec_string_body(input@, pos as int) == (Seq::<u8>::empty(), pos as int),
        decreases input@.len() - pos,
    {
        if pos >= input.len() || input[pos] == QUOTE {
            break ;
        }
        let ghost rest = spec_string_body(input@, pos as int).0;
        if input[pos] != BACKSLASH {
            assert(bytes@.push(input@[pos as int]) + spec_string_body(input@, pos + 1).0
                =~= bytes@ + rest);
            bytes.push(input[pos]);
            pos += 1;
        } else if pos + 1 < input.len() {
            match unescape(input[pos + 1]) {
                Some(term) => {
                    assert(bytes@.push(term) + spec_string_body(input@, pos + 2).0 =~= bytes@
                        + rest);
                    bytes.push(term);
                    pos += 2;
                },
                None => {
                    break ;
                },
            }
        } else {
            break ;
        }
    }
    assert(bytes@ + Seq::<u8>::empty() =~= bytes@);
    if !at(input, pos, QUOTE) {
        return Err(SyntaxError { position: pos });
    }
    match utf8_str(bytes.as_slice()) {
        Some(text) => {
            proof {
                encode_utf8_decode_utf8(text@);
            }
            Ok((text.to_owned(), pos + 1))
        },
        None => Err(SyntaxError { position: start }),
    }
}

} // verus!
