//! Style resolution for a small style-sheet language.
//!
//! [`css`] reads a stylesheet from bytes into rules, [`dom`] is the document
//! tree that styles are resolved against, and [`style`] cascades the rules
//! that match an element into one property map per node.

pub mod css;
pub mod dom;
pub mod style;
