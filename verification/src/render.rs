//! Text from outside the verified code: values that format themselves, and
//! the step from bytes to a `String`.

use core::fmt::Write;
use vstd::prelude::*;
use vstd::utf8::{
    encode_utf8, partial_valid_utf8, partial_valid_utf8_extend_ascii_block, valid_utf8,
};

verus! {

/// The `Debug` text of a value: what `write!` with `{:?}` puts into a
/// fresh `String`.
///
/// The text is whatever the value's `Debug` impl writes, up to the point
/// where it reports an error if it does, so nothing is claimed of it.
#[verifier::external_body]
pub(crate) fn debug_text(value: &dyn core::fmt::Debug) -> (text: String) {
    let mut text = String::new();
    let _ = write!(text, "{:?}", value);
    text
}

/// The `Display` text of a value: what `write!` with `{}` puts into a
/// fresh `String`.
///
/// The text is whatever the value's `Display` impl writes, up to the point
/// where it reports an error if it does, so nothing is claimed of it.
#[verifier::external_body]
pub(crate) fn display_text(value: &dyn core::fmt::Display) -> (text: String) {
    let mut text = String::new();
    let _ = write!(text, "{}", value);
    text
}

/// The error of `String::from_utf8`, opaque to the verified code.
#[verifier::external_type_specification]
#[verifier::external_body]
pub struct ExFromUtf8Error(std::string::FromUtf8Error);

/// `String::from_utf8` turns bytes into a string if they are valid UTF-8,
/// and gives an error otherwise: valid UTF-8 always converts, and a string
/// that comes back holds exactly the bytes that went in.
pub assume_specification[ String::from_utf8 ](vec: Vec<u8>) -> (r: Result<
    String,
    std::string::FromUtf8Error,
>)
    ensures
        valid_utf8(vec@) ==> r is Ok,
        r is Ok ==> encode_utf8(r.unwrap()@) == vec@,
;

/// The string with the given bytes, which must be valid UTF-8.
pub(crate) fn string_from_utf8(bytes: Vec<u8>) -> (text: String)
    requires
        valid_utf8(bytes@),
    ensures
        encode_utf8(text@) == bytes@,
{
    match String::from_utf8(bytes) {
        Ok(text) => text,
        Err(_) => String::new(),
    }
}

/// Bytes below 0x80 are valid UTF-8.
pub proof fn lemma_ascii_is_utf8(bytes: Seq<u8>)
    requires
        forall|i: int| 0 <= i < bytes.len() ==> #[trigger] bytes[i] < 0x80,
    ensures
        valid_utf8(bytes),
{
    assert(bytes.subrange(0, 0) =~= Seq::<u8>::empty());
    assert(partial_valid_utf8(bytes, 0));
    partial_valid_utf8_extend_ascii_block(bytes, 0, bytes.len() as int);
    assert(bytes.subrange(0, bytes.len() as int) =~= bytes);
}

} // verus!
