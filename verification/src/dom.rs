//! The document tree that styles are resolved against.

use vstd::prelude::*;

verus! {

/// A node of the document with its children in document order.
#[derive(Debug, PartialEq)]
pub struct Node {
    pub children: Vec<Node>,
    pub node_type: NodeType,
}

/// What a node is: an element, or text.
#[derive(Debug, PartialEq)]
pub enum NodeType {
    Element(ElementData),
    Text(String),
}

/// What style resolution reads of an element.
#[derive(Debug, PartialEq)]
pub struct ElementData {
    pub tag_name: String,
    pub id: Option<String>,
    pub classes: Vec<String>,
}

/// An element as matching sees it: its tag name, its id if it has one, and
/// the set of its class tokens.
pub struct ElementView {
    pub tag_name: Seq<char>,
    pub id: Option<Seq<char>>,
    pub classes: Set<Seq<char>>,
}

impl View for ElementData {
    type V = ElementView;

    open spec fn view(&self) -> ElementView {
        ElementView {
            tag_name: self.tag_name@,
            id: crate::css::text_of(self.id),
            classes: Set::new(
                |token: Seq<char>|
                    exists|i: int|
                        0 <= i < self.classes@.len() && #[trigger] self.classes@[i]@ == token,
            ),
        }
    }
}

impl ElementData {
    /// The element's id, if it has one.
    pub fn id(&self) -> (id: Option<&String>)
        ensures
            id matches Some(s) ==> self.id == Some(*s),
            id is None <==> self.id is None,
    {
        self.id.as_ref()
    }

    /// Whether `token` is one of the element's class tokens.
    pub fn has_class(&self, token: &String) -> (found: bool)
        ensures
            found == self@.classes.contains(token@),
    {
        let mut i: usize = 0;
        while i < self.classes.len()
            invariant
                i <= self.classes@.len(),
                forall|k: int| 0 <= k < i ==> self.classes@[k]@ != token@,
            decreases self.classes@.len() - i,
        {
            if self.classes[i] == *token {
                return true;
            }
            i += 1;
        }
        false
    }
}

} // verus!
