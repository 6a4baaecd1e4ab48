//! The fields of a span, kept as a fragment of JSON.
//!
//! A span's fields are encoded once, when they are recorded, into a
//! fragment: the span's members, comma-joined, without braces around them.
//! Every record written inside the span splices the fragment in as it is.

use crate::visitor::{
    appended, is_part, joined, lemma_joined_is_part, members, separator, Field, JsonVisitor,
};
use crate::writer::JsonWriter;
use vstd::prelude::*;
use vstd::slice::slice_to_vec;

verus! {

/// True for the bytes of a fragment: empty for no members; otherwise not
/// empty, and with a comma at neither end.
pub open spec fn is_fragment(s: Seq<u8>) -> bool {
    s.len() == 0 || is_part(s)
}

/// What splicing a fragment adds to an object: nothing for an empty
/// fragment, else the fragment, after a comma if the object has a member
/// already.
pub open spec fn spliced(parent_has_members: bool, fragment: Seq<u8>) -> Seq<u8> {
    if fragment.len() == 0 {
        Seq::empty()
    } else {
        separator(parent_has_members) + fragment
    }
}

/// A span without fields has the empty fragment, and splicing the empty
/// fragment adds nothing, whether or not the object has a member.
pub proof fn lemma_empty_fragment(parent_has_members: bool)
    ensures
        joined(members(Seq::<Field>::empty())) == Seq::<u8>::empty(),
        spliced(parent_has_members, Seq::<u8>::empty()) == Seq::<u8>::empty(),
{
    assert(members(Seq::<Field>::empty()) =~= Seq::<Seq<u8>>::empty());
}

/// The encoded fields of one span.
pub struct SpanFields {
    bytes: Vec<u8>,
}

impl View for SpanFields {
    type V = Seq<u8>;

    /// The bytes of the fragment.
    closed spec fn view(&self) -> Seq<u8> {
        self.bytes@
    }
}

impl SpanFields {
    #[verifier::type_invariant]
    spec fn holds_fragment(self) -> bool {
        is_fragment(self.bytes@)
    }

    /// The fragment of a span that starts with the given fields: their
    /// members, comma-joined. It is empty exactly when there are no fields.
    pub fn create(fields: &[Field]) -> (r: SpanFields)
        ensures
            r@ == joined(members(fields@)),
            r@.len() == 0 <==> fields@.len() == 0,
            is_fragment(r@),
    {
        let mut jw = JsonWriter::new();
        let mut visitor = JsonVisitor::new(&mut jw);
        visitor.record_all(fields);
        proof {
            lemma_joined_is_part(members(fields@));
            assert(jw@ =~= joined(members(fields@)));
        }
        SpanFields { bytes: jw.into_vec() }
    }

    /// Adds the members of further fields to the fragment.
    ///
    /// The first of them gets a comma in front exactly when the fragment
    /// holds a member already; with no fields the fragment stays as it is.
    pub fn extend(&mut self, fields: &[Field])
        ensures
            final(self)@ == old(self)@ + appended(old(self)@.len() > 0, members(fields@)),
            final(self)@.len() == 0 <==> old(self)@.len() == 0 && fields@.len() == 0,
            is_fragment(final(self)@),
    {
        proof {
            use_type_invariant(&*self);
        }
        let has_existing = self.bytes.len() > 0;
        let mut jw = JsonWriter::continuing(self.bytes.as_slice());
        let mut visitor = if has_existing {
            JsonVisitor::continuing(&mut jw)
        } else {
            JsonVisitor::new(&mut jw)
        };
        visitor.record_all(fields);
        proof {
            lemma_joined_is_part(members(fields@));
        }
        self.bytes = jw.into_vec();
    }

    /// Splices the fragment into an object under construction.
    ///
    /// An empty fragment adds nothing, not even a comma. Any other goes in
    /// as it is, after a comma if `parent_has_members` says that the object
    /// has a member already.
    pub fn splice_into(&self, writer: &mut JsonWriter, parent_has_members: bool)
        ensures
            final(writer)@ == old(writer)@ + spliced(parent_has_members, self@),
    {
        if self.bytes.len() > 0 {
            if parent_has_members {
                writer.comma();
            }
            writer.raw(self.bytes.as_slice());
        }
        assert(writer@ =~= old(writer)@ + spliced(parent_has_members, self@));
    }

    /// True when the fragment holds no member.
    pub fn is_empty(&self) -> (r: bool)
        ensures
            r == (self@.len() == 0),
    {
        self.bytes.len() == 0
    }

    /// The bytes of the fragment.
    pub fn as_bytes(&self) -> (bytes: &[u8])
        ensures
            bytes@ == self@,
            is_fragment(bytes@),
    {
        proof {
            use_type_invariant(self);
        }
        self.bytes.as_slice()
    }
}

impl Clone for SpanFields {
    /// A copy with the same bytes.
    fn clone(&self) -> (r: Self)
        ensures
            r@ == self@,
    {
        proof {
            use_type_invariant(self);
        }
        SpanFields { bytes: slice_to_vec(self.bytes.as_slice()) }
    }
}

impl Default for SpanFields {
    /// The fragment without members.
    fn default() -> (r: Self)
        ensures
            r@ == Seq::<u8>::empty(),
    {
        SpanFields { bytes: Vec::new() }
    }
}

} // verus!
