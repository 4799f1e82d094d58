//! The ASCII bytes that the grammar names.

use vstd::prelude::*;

verus! {

pub const BACKSPACE: u8 = 8;

pub const TAB: u8 = 9;

pub const LINE_FEED: u8 = 10;

pub const FORM_FEED: u8 = 12;

pub const CARRIAGE_RETURN: u8 = 13;

pub const SPACE: u8 = 32;

pub const QUOTE: u8 = 34;

pub const HASH: u8 = 35;

pub const ASTERISK: u8 = 42;

pub const PLUS: u8 = 43;

pub const MINUS: u8 = 45;

pub const DOT: u8 = 46;

pub const SLASH: u8 = 47;

pub const DIGIT_0: u8 = 48;

pub const DIGIT_9: u8 = 57;

pub const COLON: u8 = 58;

pub const SEMICOLON: u8 = 59;

pub const UPPER_A: u8 = 65;

pub const UPPER_E: u8 = 69;

pub const UPPER_F: u8 = 70;

pub const UPPER_Z: u8 = 90;

pub const BACKSLASH: u8 = 92;

pub const LOWER_A: u8 = 97;

pub const LOWER_B: u8 = 98;

pub const LOWER_E: u8 = 101;

pub const LOWER_F: u8 = 102;

pub const LOWER_N: u8 = 110;

pub const LOWER_P: u8 = 112;

pub const LOWER_R: u8 = 114;

pub const LOWER_T: u8 = 116;

pub const LOWER_X: u8 = 120;

pub const LOWER_Z: u8 = 122;

pub const OPEN_BRACE: u8 = 123;

pub const CLOSE_BRACE: u8 = 125;

/// How far a small letter stands after its capital.
pub const CASE_GAP: u8 = 32;

/// The first byte that is not ASCII.
pub const ASCII_END: u8 = 128;

} // verus!
