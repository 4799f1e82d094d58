//! The grammar of selectors, declarations and rules, and the stylesheet as
//! the list of rules that the input starts with.

use crate::css::ascii::{ASTERISK, CLOSE_BRACE, COLON, DOT, HASH, OPEN_BRACE, SEMICOLON};
use crate::css::scan::{
    ascii_text, at, byte_in, byte_is, lemma_run_end, outcome, run_end, skip_run, space, text,
    ByteClass, Parsed, SyntaxError,
};
use crate::css::values::{spec_number, spec_unit, spec_value, value};
use crate::css::{
    views, Declaration, DeclarationView, Rule, RuleView, Selector, SelectorView, SimpleSelector,
    SimpleSelectorView, Stylesheet, StylesheetView,
};
use vstd::prelude::*;
use vstd::string::StringSliceAdditionalSpecFns;

verus! {

/// One or more bytes of `class`, as text.
pub open spec fn spec_word(s: Seq<u8>, class: ByteClass, pos: int) -> Parsed<Seq<char>> {
    if run_end(s, class, pos) > pos {
        Ok((ascii_text(s.subrange(pos, run_end(s, class, pos))), run_end(s, class, pos)))
    } else {
        Err(pos)
    }
}

/// The universal selector `*`, as text.
pub open spec fn spec_star_string(s: Seq<u8>, pos: int) -> Parsed<Seq<char>> {
    if byte_is(s, pos, ASTERISK) {
        Ok((ascii_text(s.subrange(pos, pos + 1)), pos + 1))
    } else {
        Err(pos)
    }
}

/// A class token: a dot and one or more letters and digits. The text keeps
/// the dot.
pub open spec fn spec_class_string(s: Seq<u8>, pos: int) -> Parsed<Seq<char>> {
    if !byte_is(s, pos, DOT) {
        Err(pos)
    } else if run_end(s, ByteClass::Alphanum, pos + 1) > pos + 1 {
        Ok(
            (
                ascii_text(s.subrange(pos, run_end(s, ByteClass::Alphanum, pos + 1))),
                run_end(s, ByteClass::Alphanum, pos + 1),
            ),
        )
    } else {
        Err(pos + 1)
    }
}

/// The selector that names the one class `token`.
pub open spec fn class_selector(token: Seq<char>) -> SelectorView {
    SelectorView::Simple(SimpleSelectorView { tag_name: None, id: None, class: seq![token] })
}

/// The selector that names the one tag `name`.
pub open spec fn tag_selector(name: Seq<char>) -> SelectorView {
    SelectorView::Simple(
        SimpleSelectorView { tag_name: Some(name), id: None, class: Seq::empty() },
    )
}

/// A selector: white space, then a class token, else `*`, else a tag name of
/// letters and digits.
pub open spec fn spec_selector(s: Seq<u8>, pos: int) -> Parsed<SelectorView> {
    let from = run_end(s, ByteClass::Space, pos);
    match spec_class_string(s, from) {
        Ok((token, end)) => Ok((class_selector(token), end)),
        Err(_) => match spec_star_string(s, from) {
            Ok((name, end)) => Ok((tag_selector(name), end)),
            Err(_) => match spec_word(s, ByteClass::Alphanum, from) {
                Ok((name, end)) => Ok((tag_selector(name), end)),
                Err(at) => Err(at),
            },
        },
    }
}

/// A property name: white space, a letter, then letters, digits and hyphens.
pub open spec fn spec_identifier(s: Seq<u8>, pos: int) -> Parsed<Seq<char>> {
    let from = run_end(s, ByteClass::Space, pos);
    if byte_in(s, from, ByteClass::Alpha) {
        Ok(
            (
                ascii_text(s.subrange(from, run_end(s, ByteClass::Name, from + 1))),
                run_end(s, ByteClass::Name, from + 1),
            ),
        )
    } else {
        Err(from)
    }
}

/// The byte `term` with white space on both sides of it.
pub open spec fn spec_ws_sym(s: Seq<u8>, pos: int, term: u8) -> Parsed<u8> {
    let from = run_end(s, ByteClass::Space, pos);
    if byte_is(s, from, term) {
        Ok((term, run_end(s, ByteClass::Space, from + 1)))
    } else {
        Err(from)
    }
}

/// A declaration: a property name, a colon, a value and a semicolon, with
/// white space around each.
pub open spec fn spec_declaration(s: Seq<u8>, pos: int) -> Parsed<DeclarationView> {
    match spec_identifier(s, pos) {
        Err(at) => Err(at),
        Ok((name, after_name)) => match spec_ws_sym(s, after_name, COLON) {
            Err(at) => Err(at),
            Ok((_, after_colon)) => {
                let (value, after_value) = spec_value(s, after_colon);
                match spec_ws_sym(s, after_value, SEMICOLON) {
                    Err(at) => Err(at),
                    Ok((_, end)) => Ok((DeclarationView { name, value }, end)),
                }
            },
        },
    }
}

/// The declarations that the input at `pos` starts with, as many as match.
pub open spec fn spec_declarations(s: Seq<u8>, pos: int) -> (Seq<DeclarationView>, int)
    decreases s.len() - pos,
{
    match spec_declaration(s, pos) {
        Ok((first, next)) => if pos < next <= s.len() {
            (seq![first] + spec_declarations(s, next).0, spec_declarations(s, next).1)
        } else {
            (Seq::empty(), pos)
        },
        Err(_) => (Seq::empty(), pos),
    }
}

/// A rule: a selector, `{`, declarations and `}`.
pub open spec fn spec_rule(s: Seq<u8>, pos: int) -> Parsed<RuleView> {
    match spec_selector(s, pos) {
        Err(at) => Err(at),
        Ok((selector, after_selector)) => match spec_ws_sym(s, after_selector, OPEN_BRACE) {
            Err(at) => Err(at),
            Ok((_, after_open)) => {
                let (declarations, after_list) = spec_declarations(s, after_open);
                match spec_ws_sym(s, after_list, CLOSE_BRACE) {
                    Err(at) => Err(at),
                    Ok((_, end)) => Ok((RuleView { selectors: seq![selector], declarations }, end)),
                }
            },
        },
    }
}

/// The rules that the input at `pos` starts with, as many as match.
pub open spec fn spec_rules(s: Seq<u8>, pos: int) -> (Seq<RuleView>, int)
    decreases s.len() - pos,
{
    match spec_rule(s, pos) {
        Ok((first, next)) => if pos < next <= s.len() {
            (seq![first] + spec_rules(s, next).0, spec_rules(s, next).1)
        } else {
            (Seq::empty(), pos)
        },
        Err(_) => (Seq::empty(), pos),
    }
}

/// A stylesheet: the rules that the input at `pos` starts with, and where
/// they end. What follows them is not read.
pub open spec fn spec_stylesheet(s: Seq<u8>, pos: int) -> (StylesheetView, int) {
    (StylesheetView { rules: spec_rules(s, pos).0 }, spec_rules(s, pos).1)
}

/// A declaration that matches is not empty and ends inside the input.
pub proof fn lemma_declaration_advances(s: Seq<u8>, pos: int)
    requires
        0 <= pos <= s.len(),
    ensures
        spec_declaration(s, pos) matches Ok((_, end)) ==> pos < end <= s.len(),
{
    if let Ok((_, end)) = spec_declaration(s, pos) {
        let from = run_end(s, ByteClass::Space, pos);
        lemma_run_end(s, ByteClass::Space, pos);
        lemma_run_end(s, ByteClass::Name, from + 1);
        let after_name = run_end(s, ByteClass::Name, from + 1);
        lemma_run_end(s, ByteClass::Space, after_name);
        let colon = run_end(s, ByteClass::Space, after_name);
        lemma_run_end(s, ByteClass::Space, colon + 1);
        let after_colon = run_end(s, ByteClass::Space, colon + 1);
        crate::css::values::lemma_value_ends_inside(s, after_colon);
        let after_value = spec_value(s, after_colon).1;
        lemma_run_end(s, ByteClass::Space, after_value);
        let semicolon = run_end(s, ByteClass::Space, after_value);
        lemma_run_end(s, ByteClass::Space, semicolon + 1);
    }
}

/// A declaration whose value is a malformed color or a number with another
/// unit than `px` does not match: the value read is empty, and the semicolon
/// does not follow it.
pub proof fn lemma_bad_value_rejects_declaration(s: Seq<u8>, pos: int)
    requires
        spec_identifier(s, pos) matches Ok((_, after_name)) && spec_ws_sym(s, after_name, COLON)
            matches Ok((_, at)) && ({
            ||| byte_is(s, at, HASH) && run_end(s, ByteClass::HexDigit, at + 1) != at + 7
            ||| spec_number(s, at) matches Ok((_, end)) && spec_unit(s, end) is Err
        }),
    ensures
        spec_declaration(s, pos) is Err,
{
    let after_name = spec_identifier(s, pos)->Ok_0.1;
    let at = spec_ws_sym(s, after_name, COLON)->Ok_0.1;
    if byte_is(s, at, HASH) && run_end(s, ByteClass::HexDigit, at + 1) != at + 7 {
        crate::css::values::lemma_malformed_color_is_no_value(s, at);
    } else {
        crate::css::values::lemma_unknown_unit_is_no_value(s, at);
    }
}

/// Reads one or more bytes of `class` as text.
pub fn word(input: &[u8], class: ByteClass, start: usize) -> (r: Result<
    (String, usize),
    SyntaxError,
>)
    requires
        start <= input@.len(),
    ensures
        outcome(r) == spec_word(input@, class, start as int),
        r matches Ok((_, end)) ==> start < end <= input@.len(),
        r matches Err(error) ==> start <= error.position <= input@.len(),
{
    let end: usize = skip_run(input, class, start);
    if end > start {
        proof {
            lemma_run_end(input@, class, start as int);
        }
        Ok((text(input, start, end), end))
    } else {
        Err(SyntaxError { position: start })
    }
}

/// Reads one or more letters as text.
pub fn alpha_string(input: &[u8], start: usize) -> (r: Result<(String, usize), SyntaxError>)
    requires
        start <= input@.len(),
    ensures
        outcome(r) == spec_word(input@, ByteClass::Alpha, start as int),
        r matches Ok((_, end)) ==> start < end <= input@.len(),
        r matches Err(error) ==> start <= error.position <= input@.len(),
{
    word(input, ByteClass::Alpha, start)
}

/// Reads one or more letters and digits as text.
pub fn alphanum_string(input: &[u8], start: usize) -> (r: Result<(String, usize), SyntaxError>)
    requires
        start <= input@.len(),
    ensures
        outcome(r) == spec_word(input@, ByteClass::Alphanum, start as int),
        r matches Ok((_, end)) ==> start < end <= input@.len(),
        r matches Err(error) ==> start <= error.position <= input@.len(),
{
    word(input, ByteClass::Alphanum, start)
}

/// Reads the universal selector `*` as text.
pub fn star_string(input: &[u8], start: usize) -> (r: Result<(String, usize), SyntaxError>)
    requires
        start <= input@.len(),
    ensures
        outcome(r) == spec_star_string(input@, start as int),
        r matches Ok((_, end)) ==> start < end <= input@.len(),
        r matches Err(error) ==> start <= error.position <= input@.len(),
{
    if start < input.len() && crate::css::star(input[start]) {
        Ok((text(input, start, start + 1), start + 1))
    } else {
        Err(SyntaxError { position: start })
    }
}

/// Reads a class token as text, the dot included.
pub fn class_string(input: &[u8], start: usize) -> (r: Result<(String, usize), SyntaxError>)
    requires
        start <= input@.len(),
    ensures
        outcome(r) == spec_class_string(input@, start as int),
        r matches Ok((_, end)) ==> start < end <= input@.len(),
        r matches Err(error) ==> start <= error.position <= input@.len(),
{
    if !at(input, start, DOT) {
        return Err(SyntaxError { position: start });
    }
    let end: usize = skip_run(input, ByteClass::Alphanum, start + 1);
    if end > start + 1 {
        proof {
            lemma_run_end(input@, ByteClass::Alphanum, start + 1);
        }
        Ok((text(input, start, end), end))
    } else {
        Err(SyntaxError { position: start + 1 })
    }
}

/// Reads a selector.
pub fn selector(input: &[u8], start: usize) -> (r: Result<(Selector, usize), SyntaxError>)
    requires
        start <= input@.len(),
    ensures
        outcome(r) == spec_selector(input@, start as int),
        r matches Ok((_, end)) ==> start < end <= input@.len(),
        r matches Err(error) ==> start <= error.position <= input@.len(),
{
    let from: usize = space(input, start);
    match class_string(input, from) {
        Ok((token, end)) => {
            let mut class: Vec<String> = Vec::new();
            class.push(token);
            assert(views(class@) =~= seq![token@]);
            Ok((Selector::Simple(SimpleSelector { tag_name: None, id: None, class }), end))
        },
        Err(_) => {
            let name = match star_string(input, from) {
                Ok(name) => name,
                Err(_) => match alphanum_string(input, from) {
                    Ok(name) => name,
                    Err(error) => {
                        return Err(error);
                    },
                },
            };
            let class: Vec<String> = Vec::new();
            assert(views(class@) =~= Seq::<Seq<char>>::empty());
            Ok(
                (
                    Selector::Simple(
                        SimpleSelector { tag_name: Some(name.0), id: None, class },
                    ),
                    name.1,
                ),
            )
        },
    }
}

/// Reads a property name.
pub fn identifier(input: &[u8], start: usize) -> (r: Result<(String, usize), SyntaxError>)
    requires
        start <= input@.len(),
    ensures
        outcome(r) == spec_identifier(input@, start as int),
        r matches Ok((_, end)) ==> start < end <= input@.len(),
        r matches Err(error) ==> start <= error.position <= input@.len(),
{
    let from: usize = space(input, start);
    if from < input.len() && ByteClass::Alpha.contains(input[from]) {
        let end: usize = skip_run(input, ByteClass::Name, from + 1);
        proof {
            lemma_run_end(input@, ByteClass::Name, from + 1);
        }
        Ok((text(input, from, end), end))
    } else {
        Err(SyntaxError { position: from })
    }
}

/// Reads the byte `ch` and the white space on both sides of it.
pub fn ws_sym(input: &[u8], start: usize, ch: u8) -> (r: Result<(u8, usize), SyntaxError>)
    requires
        start <= input@.len(),
    ensures
        outcome(r) == spec_ws_sym(input@, start as int, ch),
        r matches Ok((_, end)) ==> start < end <= input@.len(),
        r matches Err(error) ==> start <= error.position <= input@.len(),
{
    let from: usize = space(input, start);
    if at(input, from, ch) {
        Ok((ch, space(input, from + 1)))
    } else {
        Err(SyntaxError { position: from })
    }
}

/// Reads a declaration.
pub fn declaration(input: &[u8], start: usize) -> (r: Result<(Declaration, usize), SyntaxError>)
    requires
        start <= input@.len(),
    ensures
        outcome(r) == spec_declaration(input@, start as int),
        r matches Ok((_, end)) ==> start < end <= input@.len(),
        r matches Err(error) ==> start <= error.position <= input@.len(),
{
    let (name, after_name) = match identifier(input, start) {
        Ok(name) => name,
        Err(error) => {
            return Err(error);
        },
    };
    let after_colon: usize = match ws_sym(input, after_name, COLON) {
        Ok((_, end)) => end,
        Err(error) => {
            return Err(error);
        },
    };
    let (value, after_value) = value(input, after_colon);
    match ws_sym(input, after_value, SEMICOLON) {
        Ok((_, end)) => Ok((Declaration { name, value }, end)),
        Err(error) => Err(error),
    }
}

/// Reads declarations until one does not match.
pub fn declarations(input: &[u8], start: usize) -> (r: (Vec<Declaration>, usize))
    requires
        start <= input@.len(),
    ensures
        (views(r.0@), r.1 as int) == spec_declarations(input@, start as int),
        start <= r.1 <= input@.len(),
{
    let mut list: Vec<Declaration> = Vec::new();
    let mut pos: usize = start;
    loop
        invariant
            start <= pos <= input@.len(),
            spec_declarations(input@, start as int).0 == views(list@) + spec_declarations(
                input@,
                pos as int,
            ).0,
            spec_declarations(input@, start as int).1 == spec_declarations(input@, pos as int).1,
        ensures
            spec_declarations(input@, pos as int) == (Seq::<DeclarationView>::empty(), pos as int),
        decreases input@.len() - pos,
    {
        match declaration(input, pos) {
            Ok((item, next)) => {
                assert(views(list@.push(item)) + spec_declarations(input@, next as int).0
                    =~= views(list@) + spec_declarations(input@, pos as int).0);
                list.push(item);
                pos = next;
            },
            Err(_) => {
                break ;
            },
        }
    }
    (list, pos)
}

/// Reads a rule.
pub fn rule(input: &[u8], start: usize) -> (r: Result<(Rule, usize), SyntaxError>)
    requires
        start <= input@.len(),
    ensures
        outcome(r) == spec_rule(input@, start as int),
        r matches Ok((_, end)) ==> start < end <= input@.len(),
        r matches Err(error) ==> start <= error.position <= input@.len(),
{
    let (first, after_selector) = match selector(input, start) {
        Ok(first) => first,
        Err(error) => {
            return Err(error);
        },
    };
    let after_open: usize = match ws_sym(input, after_selector, OPEN_BRACE) {
        Ok((_, end)) => end,
        Err(error) => {
            return Err(error);
        },
    };
    let (declarations, after_list) = declarations(input, after_open);
    match ws_sym(input, after_list, CLOSE_BRACE) {
        Ok((_, end)) => {
            let mut selectors: Vec<Selector> = Vec::new();
            selectors.push(first);
            assert(views(selectors@) =~= seq![first@]);
            Ok((Rule { selectors, declarations }, end))
        },
        Err(error) => Err(error),
    }
}

/// Reads the rules that the input at `start` starts with and returns them
/// with the position where they end.
pub fn stylesheet(input: &[u8], start: usize) -> (r: (Stylesheet, usize))
    requires
        start <= input@.len(),
    ensures
        (r.0@, r.1 as int) == spec_stylesheet(input@, start as int),
        start <= r.1 <= input@.len(),
{
    let mut rules: Vec<Rule> = Vec::new();
    let mut pos: usize = start;
    loop
        invariant
            start <= pos <= input@.len(),
            spec_rules(input@, start as int).0 == views(rules@) + spec_rules(input@, pos as int).0,
            spec_rules(input@, start as int).1 == spec_rules(input@, pos as int).1,
        ensures
            spec_rules(input@, pos as int) == (Seq::<RuleView>::empty(), pos as int),
        decreases input@.len() - pos,
    {
        match rule(input, pos) {
            Ok((item, next)) => {
                assert(views(rules@.push(item)) + spec_rules(input@, next as int).0 =~= views(
                    rules@,
                ) + spec_rules(input@, pos as int).0);
                rules.push(item);
                pos = next;
            },
            Err(_) => {
                break ;
            },
        }
    }
    (Stylesheet { rules }, pos)
}

/// Reads the rules that `text` starts with. Text after the last rule that
/// matches is left unread.
pub fn parse_stylesheet(text: &str) -> (sheet: Stylesheet)
    ensures
        sheet@ == spec_stylesheet(text.spec_bytes(), 0).0,
{
    stylesheet(text.as_bytes(), 0).0
}

} // verus!
