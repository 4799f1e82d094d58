//! The stylesheet data model and its mathematical views.

pub mod ascii;
pub mod complete;
pub mod rules;
pub mod scan;
pub mod shape;
pub mod values;

pub use complete::{complete, parse_complete, IncompleteParse};
pub use rules::{
    alpha_string, alphanum_string, class_string, declaration, declarations, identifier,
    parse_stylesheet, rule, selector, star_string, stylesheet, word, ws_sym,
};
pub use scan::{space, v2s, ByteClass, SyntaxError};
pub use values::{hexcolor, keyword, length_unit, number, string, unit, value};

use crate::css::ascii::ASTERISK;
use vstd::prelude::*;

verus! {

/// An ordered list of rules; the order is the source order.
#[derive(Debug, PartialEq)]
pub struct Stylesheet {
    pub rules: Vec<Rule>,
}

/// Selectors and the declarations that apply where one of them matches.
#[derive(Debug, PartialEq)]
pub struct Rule {
    pub selectors: Vec<Selector>,
    pub declarations: Vec<Declaration>,
}

/// What a rule is said of. The grammar knows simple selectors only.
#[derive(Debug, PartialEq)]
pub enum Selector {
    Simple(SimpleSelector),
}

/// A selector with at most one tag name, at most one id and any number of
/// class tokens. A class token is kept as written, leading dot included.
#[derive(Debug, PartialEq)]
pub struct SimpleSelector {
    pub tag_name: Option<String>,
    pub id: Option<String>,
    pub class: Vec<String>,
}

/// A property and the value that a rule gives it.
#[derive(Debug, PartialEq)]
pub struct Declaration {
    pub name: String,
    pub value: Value,
}

/// A property value.
///
/// `Length` holds its magnitude as the decimal numeral that was written,
/// `HexColor` the seven characters `#rrggbb` in lower case.
#[derive(Debug, PartialEq)]
pub enum Value {
    Keyword(String),
    Length(String, Unit),
    ColorValue(Color),
    HexColor(String),
}

/// The unit of a length.
#[derive(Debug, PartialEq, Eq, Clone, Copy, Structural)]
pub enum Unit {
    Px,
}

impl View for Unit {
    type V = Unit;

    open spec fn view(&self) -> Unit {
        *self
    }
}

/// A color by its red, green, blue and alpha channels.
#[derive(Debug, PartialEq, Eq, Clone, Copy, Structural)]
pub struct Color {
    pub r: u8,
    pub g: u8,
    pub b: u8,
    pub a: u8,
}

/// Counts of ids, classes and tag names, compared in that order.
pub type Specificity = (usize, usize, usize);

/// A simple selector with its names as text.
pub struct SimpleSelectorView {
    pub tag_name: Option<Seq<char>>,
    pub id: Option<Seq<char>>,
    pub class: Seq<Seq<char>>,
}

/// A selector with its names as text.
pub enum SelectorView {
    Simple(SimpleSelectorView),
}

/// A value with its keyword, numeral or color code as text.
pub enum ValueView {
    Keyword(Seq<char>),
    Length(Seq<char>, Unit),
    ColorValue(Color),
    HexColor(Seq<char>),
}

/// A declaration with its name and value as text.
pub struct DeclarationView {
    pub name: Seq<char>,
    pub value: ValueView,
}

/// A rule as the sequences of its selectors and declarations.
pub struct RuleView {
    pub selectors: Seq<SelectorView>,
    pub declarations: Seq<DeclarationView>,
}

/// A stylesheet as the sequence of its rules.
pub struct StylesheetView {
    pub rules: Seq<RuleView>,
}

/// The views of the items of a sequence, in their order.
pub open spec fn views<T: View>(items: Seq<T>) -> Seq<T::V> {
    Seq::new(items.len(), |i: int| items[i]@)
}

/// The text of an optional string.
pub open spec fn text_of(s: Option<String>) -> Option<Seq<char>> {
    match s {
        Some(s) => Some(s@),
        None => None,
    }
}

impl View for SimpleSelector {
    type V = SimpleSelectorView;

    open spec fn view(&self) -> SimpleSelectorView {
        SimpleSelectorView {
            tag_name: text_of(self.tag_name),
            id: text_of(self.id),
            class: views(self.class@),
        }
    }
}

impl View for Selector {
    type V = SelectorView;

    open spec fn view(&self) -> SelectorView {
        match *self {
            Selector::Simple(simple) => SelectorView::Simple(simple@),
        }
    }
}

impl View for Value {
    type V = ValueView;

    open spec fn view(&self) -> ValueView {
        match *self {
            Value::Keyword(word) => ValueView::Keyword(word@),
            Value::Length(numeral, unit) => ValueView::Length(numeral@, unit),
            Value::ColorValue(color) => ValueView::ColorValue(color),
            Value::HexColor(code) => ValueView::HexColor(code@),
        }
    }
}

impl View for Declaration {
    type V = DeclarationView;

    open spec fn view(&self) -> DeclarationView {
        DeclarationView { name: self.name@, value: self.value@ }
    }
}

impl View for Rule {
    type V = RuleView;

    open spec fn view(&self) -> RuleView {
        RuleView {
            selectors: views(self.selectors@),
            declarations: views(self.declarations@),
        }
    }
}

impl View for Stylesheet {
    type V = StylesheetView;

    open spec fn view(&self) -> StylesheetView {
        StylesheetView { rules: views(self.rules@) }
    }
}

impl Clone for Value {
    fn clone(&self) -> (copy: Value)
        ensures
            copy == *self,
    {
        match self {
            Value::Keyword(word) => Value::Keyword(word.clone()),
            Value::Length(numeral, unit) => Value::Length(numeral.clone(), *unit),
            Value::ColorValue(color) => Value::ColorValue(*color),
            Value::HexColor(code) => Value::HexColor(code.clone()),
        }
    }
}

/// The numeral `0`, the magnitude of a value that is no length.
pub open spec fn zero_numeral() -> Seq<char> {
    seq!['0']
}

impl ValueView {
    /// The magnitude of a length in pixels, and zero for any other value.
    pub open spec fn px(self) -> Seq<char> {
        match self {
            ValueView::Length(numeral, Unit::Px) => numeral,
            _ => zero_numeral(),
        }
    }
}

impl Value {
    /// The magnitude of a length in pixels as a decimal numeral, and `0` for
    /// any other value.
    pub fn to_px(&self) -> (numeral: String)
        ensures
            numeral@ == self@.px(),
    {
        match self {
            Value::Length(numeral, Unit::Px) => numeral.clone(),
            _ => {
                proof {
                    reveal_strlit("0");
                }
                "0".to_owned()
            },
        }
    }
}

impl SelectorView {
    /// How many ids, classes and tag names the selector names.
    pub open spec fn specificity(self) -> (nat, nat, nat) {
        match self {
            SelectorView::Simple(simple) => (
                if simple.id is Some { 1nat } else { 0nat },
                simple.class.len(),
                if simple.tag_name is Some { 1nat } else { 0nat },
            ),
        }
    }
}

impl Selector {
    /// How many ids, classes and tag names the selector names: one or no
    /// id, the number of its classes, and one or no tag name.
    pub fn specificity(&self) -> (s: Specificity)
        ensures
            s.0 == self@.specificity().0,
            s.1 == self@.specificity().1,
            s.2 == self@.specificity().2,
            s.0 <= 1,
            s.2 <= 1,
    {
        match self {
            Selector::Simple(simple) => {
                let a: usize = if simple.id.is_some() { 1 } else { 0 };
                let b: usize = simple.class.len();
                let c: usize = if simple.tag_name.is_some() { 1 } else { 0 };
                (a, b, c)
            },
        }
    }
}

/// Whether a byte is the universal selector `*`.
pub open spec fn is_star(term: u8) -> bool {
    term == ASTERISK
}

/// Whether a byte is the universal selector `*`.
pub fn star(term: u8) -> (r: bool)
    ensures
        r == is_star(term),
{
    term == ASTERISK
}

} // verus!
