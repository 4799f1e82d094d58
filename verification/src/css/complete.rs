//! Reading a stylesheet to its end: the parse that reports what it could
//! not read.

use crate::css::rules::{rule, spec_rule, spec_stylesheet, stylesheet};
use crate::css::scan::{run_end, space, ByteClass, SyntaxError};
use crate::css::shape::lemma_stylesheet_is_parsed;
use crate::css::{Stylesheet, StylesheetView};
use vstd::prelude::*;
use vstd::string::StringSliceAdditionalSpecFns;

verus! {

/// The rules of the input stop at `position`, before its end, and what
/// stands there is neither white space nor a rule: read as a rule, it stops
/// matching where `cause` says.
#[derive(Debug, PartialEq, Eq, Clone, Copy, Structural)]
pub struct IncompleteParse {
    pub position: usize,
    pub cause: SyntaxError,
}

/// A stylesheet that is read to its end: the rules of the input, if only
/// white space follows them, and else the position where they stop and the
/// position where the rule that is tried there stops matching.
pub open spec fn spec_complete(s: Seq<u8>) -> Result<StylesheetView, (int, int)> {
    let (sheet, end) = spec_stylesheet(s, 0);
    if run_end(s, ByteClass::Space, end) == s.len() {
        Ok(sheet)
    } else {
        Err((end, spec_rule(s, end)->Err_0))
    }
}

/// What a complete parse returned, as its contract states it.
pub open spec fn complete_outcome(r: Result<Stylesheet, IncompleteParse>) -> Result<
    StylesheetView,
    (int, int),
> {
    match r {
        Ok(sheet) => Ok(sheet@),
        Err(error) => Err((error.position as int, error.cause.position as int)),
    }
}

/// Reads `input` as a stylesheet to its end, and reports where the rules
/// stop if anything but white space follows them.
pub fn complete(input: &[u8]) -> (r: Result<Stylesheet, IncompleteParse>)
    ensures
        complete_outcome(r) == spec_complete(input@),
{
    let (sheet, end) = stylesheet(input, 0);
    if space(input, end) == input.len() {
        Ok(sheet)
    } else {
        proof {
            lemma_stylesheet_is_parsed(input@, 0);
        }
        match rule(input, end) {
            Err(cause) => Err(IncompleteParse { position: end, cause }),
            Ok(_) => vstd::pervasive::unreached(),
        }
    }
}

/// Reads `text` as a stylesheet to its end, and reports where the rules
/// stop if anything but white space follows them.
pub fn parse_complete(text: &str) -> (r: Result<Stylesheet, IncompleteParse>)
    ensures
        complete_outcome(r) == spec_complete(text.spec_bytes()),
{
    complete(text.as_bytes())
}

} // verus!
