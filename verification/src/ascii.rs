//! The bytes that the text forms of tasks and patterns are written with.

use vstd::prelude::*;

verus! {

/// The horizontal tab, the first of the five control bytes that are white space.
pub const TAB: u8 = 9;

/// The line feed, which ends a line.
pub const LINE_FEED: u8 = 10;

/// The carriage return, the last of the five control bytes that are white space.
pub const CARRIAGE_RETURN: u8 = 13;

/// The space.
pub const SPACE: u8 = 32;

/// The quotation mark `"`.
pub const QUOTE: u8 = 34;

/// The dollar sign `$`.
pub const DOLLAR: u8 = 36;

/// The plus sign `+`.
pub const PLUS: u8 = 43;

/// The minus sign `-`.
pub const MINUS: u8 = 45;

/// The full stop `.`.
pub const DOT: u8 = 46;

/// The digit `0`.
pub const DIGIT_0: u8 = 48;

/// The digit `1`.
pub const DIGIT_1: u8 = 49;

/// The digit `2`.
pub const DIGIT_2: u8 = 50;

/// The digit `3`.
pub const DIGIT_3: u8 = 51;

/// The digit `9`.
pub const DIGIT_9: u8 = 57;

/// The colon `:`.
pub const COLON: u8 = 58;

/// The equals sign `=`.
pub const EQUALS: u8 = 61;

/// The greater-than sign `>`.
pub const GREATER_THAN: u8 = 62;

/// The capital letter `E`.
pub const LETTER_E: u8 = 69;

/// The capital letter `G`.
pub const LETTER_G: u8 = 71;

/// The capital letter `L`.
pub const LETTER_L: u8 = 76;

/// The capital letter `R`.
pub const LETTER_R: u8 = 82;

/// The small letter `a`.
pub const SMALL_A: u8 = 97;

/// The small letter `e`.
pub const SMALL_E: u8 = 101;

/// The small letter `l`.
pub const SMALL_L: u8 = 108;

/// The small letter `u`.
pub const SMALL_U: u8 = 117;

/// The small letter `z`.
pub const SMALL_Z: u8 = 122;

/// The vertical bar `|`.
pub const BAR: u8 = 124;

} // verus!
