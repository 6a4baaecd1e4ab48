//! Doubles, held without floating-point arithmetic.
//!
//! A double reaches the encoder as two plain values: its IEEE-754 bit
//! pattern, from which the encoder tells finite values from NaN and the
//! infinities, and the shortest decimal text that reads back as the same
//! value, which the encoder copies.

use crate::ascii::{null_text, COMMA, DIGIT_0, DIGIT_9, LOWER_E, MINUS, PLUS, POINT, UPPER_E};
use vstd::prelude::*;
use vstd::slice::slice_to_vec;
use vstd::string::StringSliceAdditionalSpecFns;

verus! {

/// True when the bit pattern is that of a finite double: its eleven
/// exponent bits are not all ones.
pub open spec fn is_finite_bits(bits: u64) -> bool {
    (bits >> 52) & 0x7ff != 0x7ff
}

/// True for the bytes that decimal and exponential number text is made of:
/// digits, the two signs, the point and the exponent marker.
pub open spec fn is_number_byte(b: u8) -> bool {
    (DIGIT_0 <= b <= DIGIT_9) || b == MINUS || b == PLUS || b == POINT || b == LOWER_E || b
        == UPPER_E
}

/// True when `s` is not empty and holds number bytes only.
pub open spec fn is_number_text(s: Seq<u8>) -> bool {
    s.len() > 0 && forall|i: int| 0 <= i < s.len() ==> is_number_byte(#[trigger] s[i])
}

/// True when `s` holds a decimal point or an exponent marker.
pub open spec fn has_point_or_exponent(s: Seq<u8>) -> bool {
    exists|i: int| 0 <= i < s.len() && is_point_or_exponent(#[trigger] s[i])
}

/// True for `.`, `e` and `E`.
pub open spec fn is_point_or_exponent(b: u8) -> bool {
    b == POINT || b == LOWER_E || b == UPPER_E
}

/// What a double becomes in JSON.
///
/// NaN and the infinities have no JSON number and become `null`. A finite
/// value keeps its text; where that text would read as an integer, `.0` is
/// added so that the token still reads as a double.
pub open spec fn double_token(bits: u64, text: Seq<u8>) -> Seq<u8> {
    if !is_finite_bits(bits) {
        null_text()
    } else if has_point_or_exponent(text) {
        text
    } else {
        text + seq![POINT, DIGIT_0]
    }
}

/// True when the bit pattern is that of a NaN: all exponent bits set, and
/// some bit of the fraction.
pub open spec fn is_nan_bits(bits: u64) -> bool {
    (bits >> 52) & 0x7ff == 0x7ff && bits & 0xf_ffff_ffff_ffff != 0
}

/// True when the bit pattern is that of an infinity, of either sign: all
/// exponent bits set, and no bit of the fraction.
pub open spec fn is_infinite_bits(bits: u64) -> bool {
    (bits >> 52) & 0x7ff == 0x7ff && bits & 0xf_ffff_ffff_ffff == 0
}

/// NaN and both infinities become `null`, whatever text comes with them.
pub proof fn lemma_nan_and_infinities_are_null(bits: u64, text: Seq<u8>)
    requires
        is_nan_bits(bits) || is_infinite_bits(bits),
    ensures
        double_token(bits, text) == null_text(),
{
}

/// Every bit pattern is finite, a NaN or an infinity; zero of either sign
/// is finite.
pub proof fn lemma_bit_patterns(bits: u64)
    ensures
        is_finite_bits(bits) <==> !is_nan_bits(bits) && !is_infinite_bits(bits),
        is_finite_bits(0),
        is_finite_bits(0x8000_0000_0000_0000),
        is_infinite_bits(0x7ff0_0000_0000_0000),
        is_infinite_bits(0xfff0_0000_0000_0000),
{
    assert((0u64 >> 52) & 0x7ff == 0) by (bit_vector);
    assert((0x8000_0000_0000_0000u64 >> 52) & 0x7ff == 0) by (bit_vector);
    assert((0x7ff0_0000_0000_0000u64 >> 52) & 0x7ff == 0x7ff) by (bit_vector);
    assert(0x7ff0_0000_0000_0000u64 & 0xf_ffff_ffff_ffff == 0) by (bit_vector);
    assert((0xfff0_0000_0000_0000u64 >> 52) & 0x7ff == 0x7ff) by (bit_vector);
    assert(0xfff0_0000_0000_0000u64 & 0xf_ffff_ffff_ffff == 0) by (bit_vector);
}

/// A finite double never becomes `null`: its token is number text with a
/// point or an exponent marker in it.
pub proof fn lemma_finite_is_number(bits: u64, text: Seq<u8>)
    requires
        is_finite_bits(bits),
        is_number_text(text),
    ensures
        is_number_text(double_token(bits, text)),
        has_point_or_exponent(double_token(bits, text)),
        double_token(bits, text) != null_text(),
{
    let token = double_token(bits, text);
    if has_point_or_exponent(text) {
    } else {
        assert(is_point_or_exponent(token[text.len() as int]));
        assert forall|i: int| 0 <= i < token.len() implies is_number_byte(#[trigger] token[i]) by {
            if i < text.len() {
                assert(token[i] == text[i]);
            }
        }
    }
    assert(is_number_byte(token[0]));
    assert(null_text()[0] == 0x6e);
}

fn bits_are_finite(bits: u64) -> (r: bool)
    ensures
        r == is_finite_bits(bits),
{
    (bits >> 52) & 0x7ff != 0x7ff
}

fn bytes_are_number_text(s: &[u8]) -> (r: bool)
    ensures
        r == is_number_text(s@),
{
    let n = s.len();
    let mut i: usize = 0;
    while i < n
        invariant
            n == s@.len(),
            i <= n,
            forall|k: int| 0 <= k < i ==> is_number_byte(#[trigger] s@[k]),
        decreases n - i,
    {
        let b = s[i];
        if !((DIGIT_0 <= b && b <= DIGIT_9) || b == MINUS || b == PLUS || b == POINT || b
            == LOWER_E || b == UPPER_E) {
            return false;
        }
        i += 1;
    }
    n > 0
}

fn bytes_have_point_or_exponent(s: &[u8]) -> (r: bool)
    ensures
        r == has_point_or_exponent(s@),
{
    let n = s.len();
    let mut i: usize = 0;
    while i < n
        invariant
            n == s@.len(),
            i <= n,
            forall|k: int| 0 <= k < i ==> !is_point_or_exponent(#[trigger] s@[k]),
        decreases n - i,
    {
        let b = s[i];
        if b == POINT || b == LOWER_E || b == UPPER_E {
            return true;
        }
        i += 1;
    }
    false
}

/// A double: its bit pattern and its shortest round-trip decimal text.
///
/// The text of a finite double is number text; for NaN and the infinities
/// the text is not looked at.
pub struct Double {
    bits: u64,
    text: Vec<u8>,
}

impl Double {
    #[verifier::type_invariant]
    spec fn text_fits_bits(self) -> bool {
        is_finite_bits(self.bits) ==> is_number_text(self.text@)
    }

    /// The IEEE-754 bit pattern.
    pub closed spec fn bits(self) -> u64 {
        self.bits
    }

    /// The UTF-8 bytes of the decimal text.
    pub closed spec fn text(self) -> Seq<u8> {
        self.text@
    }

    /// The JSON token of this double.
    pub open spec fn token(self) -> Seq<u8> {
        double_token(self.bits(), self.text())
    }

    /// Pairs a bit pattern with its decimal text.
    ///
    /// Returns `None` for a finite bit pattern whose text is not number
    /// text; NaN and the infinities are taken with any text.
    pub fn new(bits: u64, text: &str) -> (r: Option<Double>)
        ensures
            r is Some <==> (is_finite_bits(bits) ==> is_number_text(text.spec_bytes())),
            r is Some ==> r.unwrap().bits() == bits && r.unwrap().text() == text.spec_bytes(),
    {
        let bytes = text.as_bytes();
        if bits_are_finite(bits) && !bytes_are_number_text(bytes) {
            None
        } else {
            Some(Double { bits, text: slice_to_vec(bytes) })
        }
    }

    /// True when this double is neither NaN nor infinite.
    pub fn is_finite(&self) -> (r: bool)
        ensures
            r == is_finite_bits(self.bits()),
    {
        bits_are_finite(self.bits)
    }

    /// Appends the JSON token of this double to `buf`.
    ///
    /// The token is never empty and never ends in a comma: it is `null`,
    /// or number text, or number text and `.0`.
    pub fn write_token(&self, buf: &mut Vec<u8>)
        ensures
            final(buf)@ == old(buf)@ + self.token(),
            self.token().len() > 0,
            self.token().last() != COMMA,
    {
        proof {
            use_type_invariant(self);
        }
        if !bits_are_finite(self.bits) {
            buf.push(0x6e);
            buf.push(0x75);
            buf.push(0x6c);
            buf.push(0x6c);
            assert(buf@ =~= old(buf)@ + self.token());
        } else {
            buf.extend_from_slice(self.text.as_slice());
            if !bytes_have_point_or_exponent(self.text.as_slice()) {
                buf.push(POINT);
                buf.push(DIGIT_0);
            }
            assert(buf@ =~= old(buf)@ + self.token());
        }
    }
}

} // verus!
