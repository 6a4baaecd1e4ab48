//! The ASCII bytes that JSON text is built from, by name.

use vstd::prelude::*;

verus! {

pub const QUOTE: u8 = 0x22;

pub const BACKSLASH: u8 = 0x5c;

pub const COMMA: u8 = 0x2c;

pub const COLON: u8 = 0x3a;

pub const OPEN_BRACE: u8 = 0x7b;

pub const CLOSE_BRACE: u8 = 0x7d;

pub const OPEN_BRACKET: u8 = 0x5b;

pub const CLOSE_BRACKET: u8 = 0x5d;

pub const LINE_FEED: u8 = 0x0a;

pub const MINUS: u8 = 0x2d;

pub const PLUS: u8 = 0x2b;

pub const POINT: u8 = 0x2e;

pub const DIGIT_0: u8 = 0x30;

pub const DIGIT_9: u8 = 0x39;

pub const LOWER_E: u8 = 0x65;

pub const UPPER_E: u8 = 0x45;

pub const UPPER_T: u8 = 0x54;

pub const UPPER_Z: u8 = 0x5a;

/// The bytes of `null`.
pub open spec fn null_text() -> Seq<u8> {
    seq![0x6eu8, 0x75u8, 0x6cu8, 0x6cu8]
}

/// The bytes of `true`.
pub open spec fn true_text() -> Seq<u8> {
    seq![0x74u8, 0x72u8, 0x75u8, 0x65u8]
}

/// The bytes of `false`.
pub open spec fn false_text() -> Seq<u8> {
    seq![0x66u8, 0x61u8, 0x6cu8, 0x73u8, 0x65u8]
}

} // verus!
