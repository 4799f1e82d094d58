//! Style resolution: which rules match an element, in which order they
//! apply, and the property map that results for each node of a document.

pub mod cascade;
pub mod matching;
pub mod precedence;

pub use cascade::{specified_values, PropertyMap};
pub use matching::{match_rule, matches_simple_selector, matching_rules, rank_rules, MatchedRule};

use crate::css::{zero_numeral, Color, Stylesheet, StylesheetView, Value, ValueView};
use crate::dom::{Node, NodeType};
use crate::style::cascade::properties;
use crate::style::precedence::cascade;
use vstd::hash_map::StringHashMap;
use vstd::prelude::*;

verus! {

/// How a node takes part in layout.
#[derive(Debug, PartialEq, Eq, Clone, Copy, Structural)]
pub enum Display {
    Inline,
    Block,
    /// The node is left out of layout: `display: none`.
    Hidden,
}

/// Opaque black, the color of a property that names no color.
pub open spec fn opaque_black() -> Color {
    Color { r: 0, g: 0, b: 0, a: 255 }
}

/// Opaque black.
pub fn black() -> (color: Color)
    ensures
        color == opaque_black(),
{
    Color { r: 0, g: 0, b: 0, a: 255 }
}

/// A node of the document with its specified values, and its children
/// styled in the same way and in the same order.
pub struct StyledNode<'a> {
    pub node: &'a Node,
    pub specified_values: PropertyMap,
    pub children: Vec<StyledNode<'a>>,
}

/// The value of the property `name`, if the map has one.
pub open spec fn lookup<V>(props: Map<Seq<char>, V>, name: Seq<char>) -> Option<V> {
    if props.dom().contains(name) {
        Some(props[name])
    } else {
        None
    }
}

/// The display mode that a property map asks for: `block` and `none` by
/// those keywords of the property `display`, and inline otherwise.
pub open spec fn display_of(props: Map<Seq<char>, ValueView>) -> Display {
    match lookup(props, "display"@) {
        Some(ValueView::Keyword(word)) => if word == "block"@ {
            Display::Block
        } else if word == "none"@ {
            Display::Hidden
        } else {
            Display::Inline
        },
        _ => Display::Inline,
    }
}

/// The color of the property `name`, and black where it names no color.
pub open spec fn color_of(props: Map<Seq<char>, ValueView>, name: Seq<char>) -> Color {
    match lookup(props, name) {
        Some(ValueView::ColorValue(color)) => color,
        _ => opaque_black(),
    }
}

/// The magnitude of the property `name` as a numeral, and zero where it is
/// no length.
pub open spec fn inset_of(props: Map<Seq<char>, ValueView>, name: Seq<char>) -> Seq<char> {
    match lookup(props, name) {
        Some(ValueView::Length(numeral, _)) => numeral,
        _ => zero_numeral(),
    }
}

impl<'a> StyledNode<'a> {
    /// The specified values as the contracts see them.
    pub open spec fn props(&self) -> Map<Seq<char>, ValueView> {
        properties(self.specified_values)
    }

    /// The specified value of the property `name`, if there is one.
    pub fn value(&self, name: &str) -> (r: Option<Value>)
        ensures
            r == lookup(self.specified_values@, name@),
    {
        match self.specified_values.get(name) {
            Some(value) => Some(value.clone()),
            None => None,
        }
    }

    /// The display mode of the node.
    pub fn display(&self) -> (r: Display)
        ensures
            r == display_of(self.props()),
    {
        match self.specified_values.get("display") {
            Some(Value::Keyword(word)) => {
                if *word == "block".to_owned() {
                    Display::Block
                } else if *word == "none".to_owned() {
                    Display::Hidden
                } else {
                    Display::Inline
                }
            },
            _ => Display::Inline,
        }
    }

    /// The color that the property `name` specifies, black if it specifies
    /// none.
    pub fn color(&self, name: &str) -> (r: Color)
        ensures
            r == color_of(self.props(), name@),
    {
        match self.specified_values.get(name) {
            Some(Value::ColorValue(color)) => *color,
            _ => black(),
        }
    }

    /// The magnitude of the length that the property `name` specifies, as a
    /// decimal numeral, and `0` if it specifies none.
    pub fn insets(&self, name: &str) -> (r: String)
        ensures
            r@ == inset_of(self.props(), name@),
    {
        match self.specified_values.get(name) {
            Some(Value::Length(numeral, _)) => numeral.clone(),
            _ => {
                proof {
                    reveal_strlit("0");
                }
                "0".to_owned()
            },
        }
    }
}

/// Whether `styled` is the styled tree of `node` under the stylesheet: it
/// refers to the node, an element has the cascade of the stylesheet as its
/// specified values and a text node has none, and the children are the
/// styled trees of the node's children, in their order.
pub open spec fn styles(styled: StyledNode, node: Node, sheet: StylesheetView) -> bool
    decreases node,
{
    &&& *styled.node == node
    &&& match node.node_type {
        NodeType::Element(elem) => styled.props() == cascade(elem@, sheet),
        NodeType::Text(_) => styled.specified_values@ == Map::<Seq<char>, Value>::empty(),
    }
    &&& styled.children@.len() == node.children@.len()
    &&& forall|i: int|
        0 <= i < node.children@.len() ==> styles(
            #[trigger] styled.children@[i],
            node.children@[i],
            sheet,
        )
}

/// Styles a document: every node of the tree under `root` gets its
/// specified values.
pub fn style_tree<'a>(root: &'a Node, stylesheet: &'a Stylesheet) -> (styled: StyledNode<'a>)
    ensures
        styles(styled, *root, stylesheet@),
        root.node_type is Text ==> styled.props() == Map::<Seq<char>, ValueView>::empty(),
    decreases root,
{
    let specified_values = match &root.node_type {
        NodeType::Element(elem) => specified_values(elem, stylesheet),
        NodeType::Text(_) => StringHashMap::new(),
    };
    let mut children: Vec<StyledNode<'a>> = Vec::new();
    let mut i: usize = 0;
    while i < root.children.len()
        invariant
            i <= root.children@.len(),
            children@.len() == i,
            forall|k: int|
                0 <= k < i ==> styles(#[trigger] children@[k], root.children@[k], stylesheet@),
        decreases root.children@.len() - i,
    {
        children.push(style_tree(&root.children[i], stylesheet));
        i += 1;
    }
    let styled = StyledNode { node: root, specified_values, children };
    styled
}

} // verus!
