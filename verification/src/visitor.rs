//! Fields and the recorder that writes them as object members.
//!
//! A field is a name and a typed value. The recorder writes each field as
//! `"name":value` and keeps one bit of state: whether the object it writes
//! into has a member already. If it has, a comma goes before the field.

use crate::ascii::{COMMA, QUOTE};
use crate::decimal::{decimal, lemma_decimal_end, signed_decimal};
use crate::double::Double;
use crate::render::{debug_text, display_text};
use crate::writer::{bool_token, key_token, string_token, wide_token, JsonWriter};
use vstd::prelude::*;
use vstd::string::StringSliceAdditionalSpecFns;
use vstd::utf8::encode_utf8;

verus! {

/// The value of a field.
pub enum FieldValue {
    /// Text, written as a JSON string.
    Str(String),
    /// An unsigned 64-bit integer.
    U64(u64),
    /// A signed 64-bit integer.
    I64(i64),
    /// A double.
    Float(Double),
    /// A boolean.
    Bool(bool),
    /// Text that a value's formatter produced, written as a JSON string.
    Formatted(String),
    /// An unsigned integer wider than 64 bits, written as a quoted string.
    U128(u128),
    /// A signed integer wider than 64 bits, written as a quoted string.
    I128(i128),
}

/// A named value.
pub struct Field {
    /// The name, which becomes the key of the member. It is written as it
    /// is, so it must hold nothing that would need an escape.
    pub name: String,
    /// The value.
    pub value: FieldValue,
}

impl FieldValue {
    /// The JSON token of this value.
    pub open spec fn token(self) -> Seq<u8> {
        match self {
            FieldValue::Str(s) => string_token(encode_utf8(s@)),
            FieldValue::U64(v) => decimal(v as nat),
            FieldValue::I64(v) => signed_decimal(v as int),
            FieldValue::Float(d) => d.token(),
            FieldValue::Bool(b) => bool_token(b),
            FieldValue::Formatted(s) => string_token(encode_utf8(s@)),
            FieldValue::U128(v) => wide_token(v as int),
            FieldValue::I128(v) => wide_token(v as int),
        }
    }

    /// The value of a field that is recorded by its `Debug` text.
    pub fn from_debug(value: &dyn core::fmt::Debug) -> (r: FieldValue)
        ensures
            r is Formatted,
    {
        FieldValue::Formatted(debug_text(value))
    }

    /// The value of a field that is recorded by its `Display` text, as
    /// errors are.
    pub fn from_display(value: &dyn core::fmt::Display) -> (r: FieldValue)
        ensures
            r is Formatted,
    {
        FieldValue::Formatted(display_text(value))
    }
}

impl Field {
    /// The object member of this field: its key, then its value.
    pub open spec fn member(self) -> Seq<u8> {
        key_token(encode_utf8(self.name@)) + self.value.token()
    }
}

/// The members of the fields, in order.
pub open spec fn members(fields: Seq<Field>) -> Seq<Seq<u8>> {
    Seq::new(fields.len(), |i: int| fields[i].member())
}

/// The comma that goes before a member when the object has one already.
pub open spec fn separator(has_member: bool) -> Seq<u8> {
    if has_member {
        seq![COMMA]
    } else {
        Seq::empty()
    }
}

/// The parts, with a comma between each two.
pub open spec fn joined(parts: Seq<Seq<u8>>) -> Seq<u8>
    decreases parts.len(),
{
    if parts.len() == 0 {
        Seq::empty()
    } else {
        joined(parts.drop_last()) + separator(parts.len() > 1) + parts.last()
    }
}

/// What writing the parts adds to an object: nothing for no parts, else the
/// joined parts, after a comma if the object has a member already.
pub open spec fn appended(has_member: bool, parts: Seq<Seq<u8>>) -> Seq<u8> {
    if parts.len() == 0 {
        Seq::empty()
    } else {
        separator(has_member) + joined(parts)
    }
}

/// True for bytes that can stand as one part of a comma-joined list: not
/// empty, and with a comma at neither end.
pub open spec fn is_part(s: Seq<u8>) -> bool {
    s.len() > 0 && s[0] != COMMA && s.last() != COMMA
}

/// True when each of the parts is one.
pub open spec fn are_parts(parts: Seq<Seq<u8>>) -> bool {
    forall|i: int| 0 <= i < parts.len() ==> is_part(#[trigger] parts[i])
}

/// Writing one more part adds a comma, if anything stands before it, and
/// the part.
pub proof fn lemma_appended_push(has_member: bool, parts: Seq<Seq<u8>>, part: Seq<u8>)
    ensures
        appended(has_member, parts.push(part)) == appended(has_member, parts) + separator(
            has_member || parts.len() > 0,
        ) + part,
{
    let longer = parts.push(part);
    assert(longer.drop_last() =~= parts);
    assert(longer.last() == part);
    if parts.len() == 0 {
        assert(joined(parts) =~= Seq::<u8>::empty());
    }
    assert(appended(has_member, longer) =~= appended(has_member, parts) + separator(
        has_member || parts.len() > 0,
    ) + part);
}

/// Joining two lists is joining the first and writing the second after it.
pub proof fn lemma_joined_concat(a: Seq<Seq<u8>>, b: Seq<Seq<u8>>)
    ensures
        joined(a + b) == joined(a) + appended(a.len() > 0, b),
    decreases b.len(),
{
    if b.len() == 0 {
        assert(a + b =~= a);
        assert(joined(a) + appended(a.len() > 0, b) =~= joined(a));
    } else {
        let front = b.drop_last();
        lemma_joined_concat(a, front);
        assert((a + b).drop_last() =~= a + front);
        assert((a + b).last() == b.last());
        if front.len() == 0 {
            assert(joined(front) =~= Seq::<u8>::empty());
        }
        assert(joined(a + b) =~= joined(a) + appended(a.len() > 0, b));
    }
}

/// Joined parts are empty for no parts, and a part themselves otherwise.
pub proof fn lemma_joined_is_part(parts: Seq<Seq<u8>>)
    requires
        are_parts(parts),
    ensures
        parts.len() == 0 ==> joined(parts).len() == 0,
        parts.len() > 0 ==> is_part(joined(parts)),
        parts.len() > 0 ==> joined(parts)[0] == parts[0][0],
    decreases parts.len(),
{
    if parts.len() > 0 {
        let front = parts.drop_last();
        assert forall|i: int| 0 <= i < front.len() implies is_part(#[trigger] front[i]) by {
            assert(front[i] == parts[i]);
        }
        lemma_joined_is_part(front);
        assert(is_part(parts[parts.len() - 1]));
        if front.len() > 0 {
            assert(front[0] == parts[0]);
        }
    }
}

/// A member is a part whatever its key, provided its value token is not
/// empty and does not end in a comma.
pub proof fn lemma_member_is_part(name: Seq<u8>, token: Seq<u8>)
    requires
        token.len() > 0,
        token.last() != COMMA,
    ensures
        is_part(key_token(name) + token),
        (key_token(name) + token)[0] == QUOTE,
{
}

/// Writes fields into a [`JsonWriter`] as object members.
pub struct JsonVisitor<'a> {
    /// The writer that the members go to.
    pub writer: &'a mut JsonWriter,
    /// True until the first field is written into an object that had no
    /// member: the next field then gets no comma.
    pub first: bool,
}

impl<'a> JsonVisitor<'a> {
    /// The bytes that the writer holds.
    pub open spec fn written(&self) -> Seq<u8> {
        self.writer@
    }

    /// True when the object written into has a member already.
    pub open spec fn has_member(&self) -> bool {
        !self.first
    }

    /// A recorder for an object that has no member yet: the first field
    /// gets no comma.
    pub fn new(writer: &'a mut JsonWriter) -> (v: Self)
        ensures
            v.written() == old(writer)@,
            !v.has_member(),
            *final(v.writer) == *final(writer),
    {
        JsonVisitor { writer, first: true }
    }

    /// A recorder for an object that has a member already: every field
    /// gets a comma.
    pub fn continuing(writer: &'a mut JsonWriter) -> (v: Self)
        ensures
            v.written() == old(writer)@,
            v.has_member(),
            *final(v.writer) == *final(writer),
    {
        JsonVisitor { writer, first: false }
    }

    /// Writes the comma, if one is due, and the key.
    fn open_member(&mut self, name: &str)
        ensures
            final(self).written() == old(self).written() + separator(old(self).has_member())
                + key_token(name.spec_bytes()),
            final(self).has_member(),
            *final(final(self).writer) == *final(old(self).writer),
    {
        if !self.first {
            self.writer.comma();
        }
        self.first = false;
        self.writer.key(name);
        assert(self.written() =~= old(self).written() + separator(old(self).has_member())
            + key_token(name.spec_bytes()));
    }

    /// Records a text field.
    pub fn record_str(&mut self, name: &str, value: &str)
        ensures
            final(self).written() == old(self).written() + separator(old(self).has_member())
                + (key_token(name.spec_bytes()) + string_token(value.spec_bytes())),
            final(self).has_member(),
            *final(final(self).writer) == *final(old(self).writer),
    {
        self.open_member(name);
        self.writer.val_str(value);
        assert(self.written() =~= old(self).written() + separator(old(self).has_member())
            + (key_token(name.spec_bytes()) + string_token(value.spec_bytes())));
    }

    /// Records an unsigned integer field.
    pub fn record_u64(&mut self, name: &str, value: u64)
        ensures
            final(self).written() == old(self).written() + separator(old(self).has_member())
                + (key_token(name.spec_bytes()) + decimal(value as nat)),
            final(self).has_member(),
            *final(final(self).writer) == *final(old(self).writer),
    {
        self.open_member(name);
        self.writer.val_u64(value);
        assert(self.written() =~= old(self).written() + separator(old(self).has_member())
            + (key_token(name.spec_bytes()) + decimal(value as nat)));
    }

    /// Records a signed integer field.
    pub fn record_i64(&mut self, name: &str, value: i64)
        ensures
            final(self).written() == old(self).written() + separator(old(self).has_member())
                + (key_token(name.spec_bytes()) + signed_decimal(value as int)),
            final(self).has_member(),
            *final(final(self).writer) == *final(old(self).writer),
    {
        self.open_member(name);
        self.writer.val_i64(value);
        assert(self.written() =~= old(self).written() + separator(old(self).has_member())
            + (key_token(name.spec_bytes()) + signed_decimal(value as int)));
    }

    /// Records a wide unsigned integer field, as a quoted string.
    pub fn record_u128(&mut self, name: &str, value: u128)
        ensures
            final(self).written() == old(self).written() + separator(old(self).has_member())
                + (key_token(name.spec_bytes()) + wide_token(value as int)),
            final(self).has_member(),
            *final(final(self).writer) == *final(old(self).writer),
    {
        self.open_member(name);
        self.writer.val_u128(value);
        assert(self.written() =~= old(self).written() + separator(old(self).has_member())
            + (key_token(name.spec_bytes()) + wide_token(value as int)));
    }

    /// Records a wide signed integer field, as a quoted string.
    pub fn record_i128(&mut self, name: &str, value: i128)
        ensures
            final(self).written() == old(self).written() + separator(old(self).has_member())
                + (key_token(name.spec_bytes()) + wide_token(value as int)),
            final(self).has_member(),
            *final(final(self).writer) == *final(old(self).writer),
    {
        self.open_member(name);
        self.writer.val_i128(value);
        assert(self.written() =~= old(self).written() + separator(old(self).has_member())
            + (key_token(name.spec_bytes()) + wide_token(value as int)));
    }

    /// Records a double field.
    pub fn record_f64(&mut self, name: &str, value: &Double)
        ensures
            final(self).written() == old(self).written() + separator(old(self).has_member())
                + (key_token(name.spec_bytes()) + value.token()),
            final(self).has_member(),
            *final(final(self).writer) == *final(old(self).writer),
            value.token().len() > 0,
            value.token().last() != COMMA,
    {
        self.open_member(name);
        self.writer.val_f64(value);
        assert(self.written() =~= old(self).written() + separator(old(self).has_member())
            + (key_token(name.spec_bytes()) + value.token()));
    }

    /// Records a boolean field.
    pub fn record_bool(&mut self, name: &str, value: bool)
        ensures
            final(self).written() == old(self).written() + separator(old(self).has_member())
                + (key_token(name.spec_bytes()) + bool_token(value)),
            final(self).has_member(),
            *final(final(self).writer) == *final(old(self).writer),
    {
        self.open_member(name);
        self.writer.val_bool(value);
        assert(self.written() =~= old(self).written() + separator(old(self).has_member())
            + (key_token(name.spec_bytes()) + bool_token(value)));
    }

    /// Records a field by the `Debug` text of its value.
    pub fn record_debug(&mut self, name: &str, value: &dyn core::fmt::Debug)
        ensures
            exists|text: Seq<char>|
                final(self).written() == old(self).written() + separator(old(self).has_member())
                    + (key_token(name.spec_bytes()) + string_token(encode_utf8(text))),
            final(self).has_member(),
            *final(final(self).writer) == *final(old(self).writer),
    {
        let text = debug_text(value);
        self.record_str(name, text.as_str());
        assert(self.written() == old(self).written() + separator(old(self).has_member())
            + (key_token(name.spec_bytes()) + string_token(encode_utf8(text@))));
    }

    /// Records an error by its message, which is its `Display` text.
    pub fn record_error(&mut self, name: &str, value: &dyn core::fmt::Display)
        ensures
            exists|text: Seq<char>|
                final(self).written() == old(self).written() + separator(old(self).has_member())
                    + (key_token(name.spec_bytes()) + string_token(encode_utf8(text))),
            final(self).has_member(),
            *final(final(self).writer) == *final(old(self).writer),
    {
        let text = display_text(value);
        self.record_str(name, text.as_str());
        assert(self.written() == old(self).written() + separator(old(self).has_member())
            + (key_token(name.spec_bytes()) + string_token(encode_utf8(text@))));
    }
}

impl<'a> JsonVisitor<'a> {
    /// Records one field, whatever its kind.
    pub fn record(&mut self, field: &Field)
        ensures
            final(self).written() == old(self).written() + separator(old(self).has_member())
                + field.member(),
            final(self).has_member(),
            *final(final(self).writer) == *final(old(self).writer),
            is_part(field.member()),
    {
        let name = field.name.as_str();
        match &field.value {
            FieldValue::Str(s) => {
                self.record_str(name, s.as_str());
            },
            FieldValue::U64(v) => {
                self.record_u64(name, *v);
                proof {
                    lemma_decimal_end(*v as int);
                }
            },
            FieldValue::I64(v) => {
                self.record_i64(name, *v);
                proof {
                    lemma_decimal_end(*v as int);
                }
            },
            FieldValue::Float(d) => {
                self.record_f64(name, d);
            },
            FieldValue::Bool(b) => {
                self.record_bool(name, *b);
            },
            FieldValue::Formatted(s) => {
                self.record_str(name, s.as_str());
            },
            FieldValue::U128(v) => {
                self.record_u128(name, *v);
            },
            FieldValue::I128(v) => {
                self.record_i128(name, *v);
            },
        }
        proof {
            lemma_member_is_part(encode_utf8(field.name@), field.value.token());
        }
    }

    /// Records the fields in order.
    pub fn record_all(&mut self, fields: &[Field])
        ensures
            final(self).written() == old(self).written() + appended(
                old(self).has_member(),
                members(fields@),
            ),
            final(self).has_member() == (old(self).has_member() || fields@.len() > 0),
            *final(final(self).writer) == *final(old(self).writer),
            are_parts(members(fields@)),
    {
        let n = fields.len();
        let mut i: usize = 0;
        assert(members(fields@.take(0)) =~= Seq::<Seq<u8>>::empty());
        assert(self.written() =~= old(self).written() + appended(
            old(self).has_member(),
            members(fields@.take(0)),
        ));
        while i < n
            invariant
                n == fields@.len(),
                i <= n,
                self.written() == old(self).written() + appended(
                    old(self).has_member(),
                    members(fields@.take(i as int)),
                ),
                self.has_member() == (old(self).has_member() || i > 0),
                *final(self.writer) == *final(old(self).writer),
                are_parts(members(fields@.take(i as int))),
            decreases n - i,
        {
            let ghost before = members(fields@.take(i as int));
            self.record(&fields[i]);
            proof {
                let after = members(fields@.take(i + 1));
                assert(after =~= before.push(fields@[i as int].member()));
                lemma_appended_push(old(self).has_member(), before, fields@[i as int].member());
                assert forall|k: int| 0 <= k < after.len() implies is_part(#[trigger] after[k]) by {
                    if k < before.len() {
                        assert(after[k] == before[k]);
                    }
                }
            }
            i += 1;
        }
        assert(fields@.take(n as int) =~= fields@);
    }
}

} // verus!
