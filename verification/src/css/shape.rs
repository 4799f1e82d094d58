//! The shape of what the grammar yields: which stylesheets can come out of
//! a parse, and where a parse stops.

use crate::css::ascii::{COLON, HASH, OPEN_BRACE};
use crate::css::rules::{
    lemma_declaration_advances, spec_declaration, spec_declarations, spec_rule, spec_rules,
    spec_selector, spec_stylesheet, spec_ws_sym,
};
use crate::css::scan::{ascii_text, lemma_run_end, run_end, ByteClass};
use crate::css::values::{
    exponent_digits, fraction_end, integer_end, lower, lowered, sign_end, spec_hexcolor,
    spec_number, spec_value,
};
use crate::css::{RuleView, SelectorView, StylesheetView, ValueView};
use vstd::prelude::*;

verus! {

/// A color as it is stored: `#` and six hexadecimal digits, none of them a
/// capital letter.
pub open spec fn is_hex_code(code: Seq<char>) -> bool {
    &&& code.len() == 7
    &&& code[0] == '#'
    &&& forall|i: int|
        1 <= i < 7 ==> ('0' <= #[trigger] code[i] <= '9') || ('a' <= code[i] <= 'f')
}

/// A value as the grammar yields it: a keyword of letters, a length whose
/// numeral is not empty, or a color in its stored form. The grammar yields
/// no color with channels.
pub open spec fn is_parsed_value(value: ValueView) -> bool {
    match value {
        ValueView::Keyword(word) => forall|i: int|
            0 <= i < word.len() ==> ('a' <= #[trigger] word[i] <= 'z') || ('A' <= word[i] <= 'Z'),
        ValueView::Length(numeral, _) => numeral.len() > 0,
        ValueView::HexColor(code) => is_hex_code(code),
        ValueView::ColorValue(_) => false,
    }
}

/// A selector as the grammar yields it: it names no id, and either a tag
/// name and no class or one class and no tag name. A class starts with its
/// dot.
pub open spec fn is_parsed_selector(selector: SelectorView) -> bool {
    match selector {
        SelectorView::Simple(simple) => {
            &&& simple.id is None
            &&& simple.tag_name matches Some(name) ==> simple.class.len() == 0 && name.len() > 0
            &&& simple.tag_name is None ==> simple.class.len() == 1 && simple.class[0].len() > 1
                && simple.class[0][0] == '.'
        },
    }
}

/// A rule as the grammar yields it: one selector, and values as the grammar
/// yields them.
pub open spec fn is_parsed_rule(rule: RuleView) -> bool {
    &&& rule.selectors.len() == 1
    &&& is_parsed_selector(rule.selectors[0])
    &&& forall|j: int|
        0 <= j < rule.declarations.len() ==> is_parsed_value(
            (#[trigger] rule.declarations[j]).value,
        ) && rule.declarations[j].name.len() > 0
}

/// A stylesheet as the grammar yields it.
pub open spec fn is_parsed_sheet(sheet: StylesheetView) -> bool {
    forall|i: int| 0 <= i < sheet.rules.len() ==> is_parsed_rule(#[trigger] sheet.rules[i])
}

/// A color that is read is in its stored form.
pub proof fn lemma_hexcolor_is_stored_form(s: Seq<u8>, pos: int)
    ensures
        spec_hexcolor(s, pos) matches Ok((value, _)) ==> is_parsed_value(value),
{
    if let Ok((ValueView::HexColor(code), _)) = spec_hexcolor(s, pos) {
        lemma_run_end(s, ByteClass::HexDigit, pos + 1);
        let digits = s.subrange(pos + 1, pos + 7);
        let bytes = lowered(digits).insert(0, HASH);
        assert(code == ascii_text(bytes));
        assert forall|i: int| 1 <= i < 7 implies ('0' <= #[trigger] code[i] <= '9') || ('a'
            <= code[i] <= 'f') by {
            assert(bytes[i] == lower(digits[i - 1]));
            assert(code[i] == bytes[i] as char);
        }
    }
}

/// A number that is read is not empty and ends inside the input.
pub proof fn lemma_number_is_not_empty(s: Seq<u8>, pos: int)
    ensures
        spec_number(s, pos) matches Ok((numeral, end)) ==> 0 <= pos < end <= s.len()
            && numeral.len() == end - pos,
{
    if let Some(whole) = integer_end(s, sign_end(s, pos)) {
        lemma_run_end(s, ByteClass::Digit, sign_end(s, pos) + 1);
        lemma_run_end(s, ByteClass::Digit, whole + 1);
        let mantissa = fraction_end(s, whole);
        lemma_run_end(s, ByteClass::Digit, exponent_digits(s, mantissa));
    }
}

/// A value that is read is a value as the grammar yields it.
pub proof fn lemma_value_is_parsed(s: Seq<u8>, pos: int)
    requires
        0 <= pos <= s.len(),
    ensures
        is_parsed_value(spec_value(s, pos).0),
{
    lemma_hexcolor_is_stored_form(s, pos);
    lemma_number_is_not_empty(s, pos);
    let from = run_end(s, ByteClass::Space, pos);
    lemma_run_end(s, ByteClass::Space, pos);
    lemma_run_end(s, ByteClass::Alpha, from);
}

/// A selector that is read is a selector as the grammar yields it, and is
/// not empty.
pub proof fn lemma_selector_is_parsed(s: Seq<u8>, pos: int)
    requires
        0 <= pos <= s.len(),
    ensures
        spec_selector(s, pos) matches Ok((selector, end)) ==> is_parsed_selector(selector) && pos
            < end <= s.len(),
{
    let from = run_end(s, ByteClass::Space, pos);
    lemma_run_end(s, ByteClass::Space, pos);
    lemma_run_end(s, ByteClass::Alphanum, from);
    lemma_run_end(s, ByteClass::Alphanum, from + 1);
}

/// The declarations that are read end inside the input, have names, and
/// have values as the grammar yields them. No declaration matches where
/// they end.
pub proof fn lemma_declarations_are_parsed(s: Seq<u8>, pos: int)
    requires
        0 <= pos <= s.len(),
    ensures
        pos <= spec_declarations(s, pos).1 <= s.len(),
        spec_declaration(s, spec_declarations(s, pos).1) is Err,
        forall|j: int|
            0 <= j < spec_declarations(s, pos).0.len() ==> is_parsed_value(
                (#[trigger] spec_declarations(s, pos).0[j]).value,
            ) && spec_declarations(s, pos).0[j].name.len() > 0,
    decreases s.len() - pos,
{
    lemma_declaration_advances(s, pos);
    if let Ok((first, next)) = spec_declaration(s, pos) {
        lemma_declarations_are_parsed(s, next);
        let from = run_end(s, ByteClass::Space, pos);
        lemma_run_end(s, ByteClass::Space, pos);
        lemma_run_end(s, ByteClass::Name, from + 1);
        let after_name = run_end(s, ByteClass::Name, from + 1);
        let after_colon = spec_ws_sym(s, after_name, COLON)->Ok_0.1;
        lemma_run_end(s, ByteClass::Space, after_name);
        lemma_run_end(s, ByteClass::Space, run_end(s, ByteClass::Space, after_name) + 1);
        lemma_value_is_parsed(s, after_colon);
    }
}

/// A rule that is read is a rule as the grammar yields it, is not empty and
/// ends inside the input.
pub proof fn lemma_rule_is_parsed(s: Seq<u8>, pos: int)
    requires
        0 <= pos <= s.len(),
    ensures
        spec_rule(s, pos) matches Ok((rule, end)) ==> is_parsed_rule(rule) && pos < end <= s.len(),
{
    lemma_selector_is_parsed(s, pos);
    if let Ok((selector, after_selector)) = spec_selector(s, pos) {
        lemma_run_end(s, ByteClass::Space, after_selector);
        let open = run_end(s, ByteClass::Space, after_selector);
        if let Ok((_, after_open)) = spec_ws_sym(s, after_selector, OPEN_BRACE) {
            lemma_run_end(s, ByteClass::Space, open + 1);
            lemma_declarations_are_parsed(s, after_open);
            let after_list = spec_declarations(s, after_open).1;
            lemma_run_end(s, ByteClass::Space, after_list);
            lemma_run_end(s, ByteClass::Space, run_end(s, ByteClass::Space, after_list) + 1);
        }
    }
}

/// The rules that are read end inside the input and are rules as the
/// grammar yields them, and no rule matches where they end: the stylesheet
/// holds every rule that the input starts with.
pub proof fn lemma_stylesheet_is_parsed(s: Seq<u8>, pos: int)
    requires
        0 <= pos <= s.len(),
    ensures
        is_parsed_sheet(spec_stylesheet(s, pos).0),
        pos <= spec_stylesheet(s, pos).1 <= s.len(),
        spec_rule(s, spec_stylesheet(s, pos).1) is Err,
    decreases s.len() - pos,
{
    lemma_rule_is_parsed(s, pos);
    if let Ok((first, next)) = spec_rule(s, pos) {
        lemma_stylesheet_is_parsed(s, next);
        let all = spec_rules(s, pos).0;
        assert forall|i: int| 0 <= i < all.len() implies is_parsed_rule(#[trigger] all[i]) by {
            if i > 0 {
                assert(is_parsed_rule(spec_stylesheet(s, next).0.rules[i - 1]));
            }
        }
    }
}

} // verus!
