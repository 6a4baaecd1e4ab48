//! What a JSON parser reads back from a string token, and the proof that a
//! written string reads back as itself.
//!
//! The reader here is a specification only. It follows the grammar of JSON
//! strings: a raw quote or control byte is an error, a backslash starts one
//! of the eight short escapes or `\uXXXX`. An escape `\uXXXX` stands for
//! the UTF-8 bytes of its code point; the surrogate range, which takes two
//! escapes to name one character, is not read and counts as an error.

use crate::ascii::{BACKSLASH, QUOTE};
use crate::escape::{
    escape_of, escaped, hex_digit, lemma_escaped_concat, lemma_escaped_single, needs_escape,
};
use crate::writer::string_token;
use vstd::prelude::*;
use vstd::utf8::encode_scalar;

verus! {

/// The value of a hexadecimal digit, in either case.
pub open spec fn hex_value(d: u8) -> Option<int> {
    if 0x30 <= d <= 0x39 {
        Some(d - 0x30)
    } else if 0x61 <= d <= 0x66 {
        Some(d - 0x61 + 10)
    } else if 0x41 <= d <= 0x46 {
        Some(d - 0x41 + 10)
    } else {
        None
    }
}

/// The number that four hexadecimal digits write.
pub open spec fn code_unit(a: u8, b: u8, c: u8, d: u8) -> Option<int> {
    if hex_value(a) is Some && hex_value(b) is Some && hex_value(c) is Some && hex_value(d)
        is Some {
        Some(
            ((hex_value(a).unwrap() * 16 + hex_value(b).unwrap()) * 16 + hex_value(c).unwrap()) * 16
                + hex_value(d).unwrap(),
        )
    } else {
        None
    }
}

/// The byte that the letter of a short escape stands for.
pub open spec fn short_escape(letter: u8) -> Option<u8> {
    if letter == 0x22 {
        Some(0x22u8)
    } else if letter == 0x5c {
        Some(0x5cu8)
    } else if letter == 0x2f {
        Some(0x2fu8)
    } else if letter == 0x62 {
        Some(0x08u8)
    } else if letter == 0x66 {
        Some(0x0cu8)
    } else if letter == 0x6e {
        Some(0x0au8)
    } else if letter == 0x72 {
        Some(0x0du8)
    } else if letter == 0x74 {
        Some(0x09u8)
    } else {
        None
    }
}

/// `head` in front of what the rest reads as, or the error of the rest.
pub open spec fn in_front(head: Seq<u8>, rest: Option<Seq<u8>>) -> Option<Seq<u8>> {
    match rest {
        Some(tail) => Some(head + tail),
        None => None,
    }
}

/// The text that the inside of a string token reads as, or `None` where
/// it is not the inside of a string token.
pub open spec fn unescaped(body: Seq<u8>) -> Option<Seq<u8>>
    decreases body.len(),
{
    if body.len() == 0 {
        Some(Seq::empty())
    } else if body[0] == BACKSLASH {
        if body.len() < 2 {
            None
        } else if body[1] == 0x75 {
            if body.len() < 6 {
                None
            } else {
                match code_unit(body[2], body[3], body[4], body[5]) {
                    Some(unit) => if 0xd800 <= unit <= 0xdfff {
                        None
                    } else {
                        in_front(encode_scalar(unit as u32), unescaped(body.skip(6)))
                    },
                    None => None,
                }
            }
        } else {
            match short_escape(body[1]) {
                Some(b) => in_front(seq![b], unescaped(body.skip(2))),
                None => None,
            }
        }
    } else if needs_escape(body[0]) {
        None
    } else {
        in_front(seq![body[0]], unescaped(body.skip(1)))
    }
}

/// The text that a string token reads as: what stands between its quotes,
/// unescaped.
pub open spec fn parsed_string(token: Seq<u8>) -> Option<Seq<u8>> {
    if token.len() >= 2 && token[0] == QUOTE && token.last() == QUOTE {
        unescaped(token.subrange(1, token.len() - 1))
    } else {
        None
    }
}

proof fn lemma_low_scalar(b: u8)
    by (bit_vector)
    requires
        b < 0x80,
    ensures
        ((b as u32) & 0x7f) as u8 == b,
{
}

/// The escape of a byte, in front of anything, reads as the byte in front
/// of what the rest reads as.
proof fn lemma_unescape_one(b: u8, rest: Seq<u8>)
    ensures
        unescaped(escape_of(b) + rest) == in_front(seq![b], unescaped(rest)),
{
    let body = escape_of(b) + rest;
    if b == 0x22 || b == 0x5c || b == 0x08 || b == 0x0c || b == 0x0a || b == 0x0d || b == 0x09 {
        assert(body.skip(2) =~= rest);
    } else if b < 0x20 {
        assert(body.skip(6) =~= rest);
        assert(body[2] == 0x30 && body[3] == 0x30);
        assert(body[4] == hex_digit(b / 16));
        assert(body[5] == hex_digit(b % 16));
        assert(code_unit(body[2], body[3], body[4], body[5]) == Some(b as int));
        lemma_low_scalar(b);
        assert(encode_scalar(b as u32) =~= seq![b]);
    } else {
        assert(body.skip(1) =~= rest);
    }
}

/// Escaped text reads back as the text.
pub proof fn lemma_unescape_escaped(s: Seq<u8>)
    ensures
        unescaped(escaped(s)) == Some(s),
    decreases s.len(),
{
    if s.len() == 0 {
        assert(escaped(s) =~= Seq::<u8>::empty());
    } else {
        let rest = s.drop_first();
        lemma_unescape_escaped(rest);
        lemma_escaped_single(s[0]);
        lemma_escaped_concat(seq![s[0]], rest);
        assert(seq![s[0]] + rest =~= s);
        lemma_unescape_one(s[0], escaped(rest));
    }
}

/// A string written as a token reads back as the same string.
pub proof fn lemma_string_round_trip(s: Seq<u8>)
    ensures
        parsed_string(string_token(s)) == Some(s),
{
    let token = string_token(s);
    lemma_unescape_escaped(s);
    assert(token.subrange(1, token.len() - 1) =~= escaped(s));
}

} // verus!
