//! The byte-level JSON writer.
//!
//! A [`JsonWriter`] is an append-only buffer with one method per JSON
//! token. It does not track nesting or commas: the caller says where an
//! object opens, where a comma goes and where the object closes.

use crate::ascii::{
    false_text, null_text, true_text, CLOSE_BRACE, CLOSE_BRACKET, COLON, COMMA, LINE_FEED,
    OPEN_BRACE, OPEN_BRACKET, QUOTE,
};
use crate::decimal::{decimal, push_decimal, push_signed_decimal, signed_decimal};
use crate::double::Double;
use crate::escape::{escape_json_into, escaped};
use crate::render::{debug_text, display_text};
use vstd::prelude::*;
use vstd::slice::slice_to_vec;
use vstd::string::StringSliceAdditionalSpecFns;
use vstd::utf8::encode_utf8;

verus! {

/// An object key: the name between quotes, then a colon. The name is
/// written as it is, without escaping.
pub open spec fn key_token(name: Seq<u8>) -> Seq<u8> {
    seq![QUOTE] + name + seq![QUOTE, COLON]
}

/// A JSON string: the escaped text between quotes.
pub open spec fn string_token(text: Seq<u8>) -> Seq<u8> {
    seq![QUOTE] + escaped(text) + seq![QUOTE]
}

/// `true` or `false`.
pub open spec fn bool_token(v: bool) -> Seq<u8> {
    if v {
        true_text()
    } else {
        false_text()
    }
}

/// An integer wider than 64 bits: its decimal text between quotes, since a
/// JSON number cannot carry that range safely.
pub open spec fn wide_token(v: int) -> Seq<u8> {
    seq![QUOTE] + signed_decimal(v) + seq![QUOTE]
}

/// A JSON text under construction.
pub struct JsonWriter {
    buf: Vec<u8>,
}

impl View for JsonWriter {
    type V = Seq<u8>;

    /// The bytes written so far.
    closed spec fn view(&self) -> Seq<u8> {
        self.buf@
    }
}

impl JsonWriter {
    /// A writer with nothing written.
    pub fn new() -> (w: Self)
        ensures
            w@ == Seq::<u8>::empty(),
    {
        JsonWriter { buf: Vec::new() }
    }

    /// A writer that goes on after the bytes of `buf`, reusing its storage.
    pub fn from_vec(buf: Vec<u8>) -> (w: Self)
        ensures
            w@ == buf@,
    {
        JsonWriter { buf }
    }

    /// A writer that goes on after a copy of `existing`.
    pub fn continuing(existing: &[u8]) -> (w: Self)
        ensures
            w@ == existing@,
    {
        JsonWriter { buf: slice_to_vec(existing) }
    }

    /// Writes `{`.
    pub fn obj_start(&mut self)
        ensures
            final(self)@ == old(self)@.push(OPEN_BRACE),
    {
        self.buf.push(OPEN_BRACE);
    }

    /// Writes `}`.
    pub fn obj_end(&mut self)
        ensures
            final(self)@ == old(self)@.push(CLOSE_BRACE),
    {
        self.buf.push(CLOSE_BRACE);
    }

    /// Writes `[`.
    pub fn arr_start(&mut self)
        ensures
            final(self)@ == old(self)@.push(OPEN_BRACKET),
    {
        self.buf.push(OPEN_BRACKET);
    }

    /// Writes `]`.
    pub fn arr_end(&mut self)
        ensures
            final(self)@ == old(self)@.push(CLOSE_BRACKET),
    {
        self.buf.push(CLOSE_BRACKET);
    }

    /// Writes an object key. The name goes out unescaped: it is the
    /// caller's to see that it holds nothing that would need an escape.
    pub fn key(&mut self, name: &str)
        ensures
            final(self)@ == old(self)@ + key_token(name.spec_bytes()),
    {
        self.buf.push(QUOTE);
        self.buf.extend_from_slice(name.as_bytes());
        self.buf.push(QUOTE);
        self.buf.push(COLON);
        assert(self.buf@ =~= old(self).buf@ + key_token(name.spec_bytes()));
    }

    /// Writes a string value, escaped and quoted.
    pub fn val_str(&mut self, s: &str)
        ensures
            final(self)@ == old(self)@ + string_token(s.spec_bytes()),
    {
        self.buf.push(QUOTE);
        escape_json_into(s, &mut self.buf);
        self.buf.push(QUOTE);
        assert(self.buf@ =~= old(self).buf@ + string_token(s.spec_bytes()));
    }

    /// Writes an unsigned integer in decimal.
    pub fn val_u64(&mut self, v: u64)
        ensures
            final(self)@ == old(self)@ + decimal(v as nat),
    {
        push_decimal(&mut self.buf, v as u128);
    }

    /// Writes a signed integer in decimal, with a minus sign if negative.
    pub fn val_i64(&mut self, v: i64)
        ensures
            final(self)@ == old(self)@ + signed_decimal(v as int),
    {
        push_signed_decimal(&mut self.buf, v as i128);
    }

    /// Writes a wide unsigned integer as a quoted decimal string.
    pub fn val_u128(&mut self, v: u128)
        ensures
            final(self)@ == old(self)@ + wide_token(v as int),
    {
        self.buf.push(QUOTE);
        push_decimal(&mut self.buf, v);
        self.buf.push(QUOTE);
        assert(self.buf@ =~= old(self).buf@ + wide_token(v as int));
    }

    /// Writes a wide signed integer as a quoted decimal string.
    pub fn val_i128(&mut self, v: i128)
        ensures
            final(self)@ == old(self)@ + wide_token(v as int),
    {
        self.buf.push(QUOTE);
        push_signed_decimal(&mut self.buf, v);
        self.buf.push(QUOTE);
        assert(self.buf@ =~= old(self).buf@ + wide_token(v as int));
    }

    /// Writes a double: `null` for NaN and the infinities, else its decimal
    /// text, with `.0` added where the text has neither point nor exponent.
    pub fn val_f64(&mut self, v: &Double)
        ensures
            final(self)@ == old(self)@ + v.token(),
            v.token().len() > 0,
            v.token().last() != COMMA,
    {
        v.write_token(&mut self.buf);
    }

    /// Writes `true` or `false`.
    pub fn val_bool(&mut self, v: bool)
        ensures
            final(self)@ == old(self)@ + bool_token(v),
    {
        if v {
            self.buf.push(0x74);
            self.buf.push(0x72);
            self.buf.push(0x75);
            self.buf.push(0x65);
        } else {
            self.buf.push(0x66);
            self.buf.push(0x61);
            self.buf.push(0x6c);
            self.buf.push(0x73);
            self.buf.push(0x65);
        }
        assert(self.buf@ =~= old(self).buf@ + bool_token(v));
    }

    /// Writes `null`.
    pub fn val_null(&mut self)
        ensures
            final(self)@ == old(self)@ + null_text(),
    {
        self.buf.push(0x6e);
        self.buf.push(0x75);
        self.buf.push(0x6c);
        self.buf.push(0x6c);
        assert(self.buf@ =~= old(self).buf@ + null_text());
    }

    /// Writes the `Debug` text of `value` as a string value.
    ///
    /// What the text is rests with the value; whatever it is, it goes out
    /// escaped and quoted like any other string.
    pub fn val_debug(&mut self, value: &dyn core::fmt::Debug)
        ensures
            exists|text: Seq<char>| final(self)@ == old(self)@ + string_token(encode_utf8(text)),
    {
        let text = debug_text(value);
        self.val_str(text.as_str());
        assert(self@ == old(self)@ + string_token(encode_utf8(text@)));
    }

    /// Writes the `Display` text of `value` as a string value.
    ///
    /// What the text is rests with the value; whatever it is, it goes out
    /// escaped and quoted like any other string.
    pub fn val_display(&mut self, value: &dyn core::fmt::Display)
        ensures
            exists|text: Seq<char>| final(self)@ == old(self)@ + string_token(encode_utf8(text)),
    {
        let text = display_text(value);
        self.val_str(text.as_str());
        assert(self@ == old(self)@ + string_token(encode_utf8(text@)));
    }

    /// Writes `,`.
    pub fn comma(&mut self)
        ensures
            final(self)@ == old(self)@.push(COMMA),
    {
        self.buf.push(COMMA);
    }

    /// Splices bytes that are JSON already, as they are.
    pub fn raw(&mut self, s: &[u8])
        ensures
            final(self)@ == old(self)@ + s@,
    {
        self.buf.extend_from_slice(s);
    }

    /// Ends the line with a line feed.
    pub fn finish_line(&mut self)
        ensures
            final(self)@ == old(self)@.push(LINE_FEED),
    {
        self.buf.push(LINE_FEED);
    }

    /// Writes one byte as it is.
    pub fn push_byte(&mut self, b: u8)
        ensures
            final(self)@ == old(self)@.push(b),
    {
        self.buf.push(b);
    }

    /// The number of bytes written.
    pub fn len(&self) -> (n: usize)
        ensures
            n == self@.len(),
    {
        self.buf.len()
    }

    /// Drops all bytes after the first `len`; does nothing if there are no
    /// more than `len`.
    pub fn truncate(&mut self, len: usize)
        ensures
            len <= old(self)@.len() ==> final(self)@ == old(self)@.take(len as int),
            len > old(self)@.len() ==> final(self)@ == old(self)@,
    {
        self.buf.truncate(len);
    }

    /// The bytes written so far.
    pub fn as_bytes(&self) -> (bytes: &[u8])
        ensures
            bytes@ == self@,
    {
        self.buf.as_slice()
    }

    /// Gives up the writer for its bytes.
    pub fn into_vec(self) -> (bytes: Vec<u8>)
        ensures
            bytes@ == self@,
    {
        self.buf
    }
}

impl Default for JsonWriter {
    /// A writer with nothing written.
    fn default() -> (w: Self)
        ensures
            w@ == Seq::<u8>::empty(),
    {
        JsonWriter::new()
    }
}

/// The error of `core::fmt::Write`, opaque to the verified code.
#[verifier::external_type_specification]
#[verifier::external_body]
pub struct ExFmtError(core::fmt::Error);

impl core::fmt::Write for JsonWriter {
    /// Writes text as it is, without quotes or escapes.
    fn write_str(&mut self, s: &str) -> (r: core::fmt::Result)
        ensures
            final(self)@ == old(self)@ + s.spec_bytes(),
            r is Ok,
    {
        self.buf.extend_from_slice(s.as_bytes());
        Ok(())
    }
}

} // verus!
