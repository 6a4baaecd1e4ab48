//! JSON string escaping over UTF-8 bytes.
//!
//! The escaper works on bytes, not on characters: every byte that needs an
//! escape is an ASCII byte, and no byte of a multi-byte UTF-8 sequence falls
//! in the ASCII range, so a byte-wise pass gives the same result as a
//! character-wise one. The laws at the end of this module make that precise.

use crate::render::{lemma_ascii_is_utf8, string_from_utf8};
use vstd::prelude::*;
use vstd::slice::slice_subrange;
use vstd::string::StringSliceAdditionalSpecFns;
use vstd::utf8::{
    char_is_scalar, encode_scalar, encode_utf8, encode_utf8_valid_utf8, valid_utf8,
    valid_utf8_concat,
};

verus! {

/// The lowercase hexadecimal digit for a nibble.
pub open spec fn hex_digit(n: u8) -> u8 {
    if n < 10 {
        (48 + n) as u8
    } else {
        (87 + n) as u8
    }
}

/// True for the bytes that cannot stand unescaped inside a JSON string:
/// the quote, the backslash and the control bytes below 0x20.
pub open spec fn needs_escape(b: u8) -> bool {
    b == 0x22 || b == 0x5c || b < 0x20
}

/// What one byte becomes inside a JSON string.
///
/// The quote and the backslash get a backslash in front; backspace, form
/// feed, line feed, carriage return and tab get their two-byte short forms;
/// every other control byte becomes `\u00XX` with lowercase hex digits; all
/// other bytes stand for themselves.
pub open spec fn escape_of(b: u8) -> Seq<u8> {
    if b == 0x22 {
        seq![0x5cu8, 0x22u8]
    } else if b == 0x5c {
        seq![0x5cu8, 0x5cu8]
    } else if b == 0x08 {
        seq![0x5cu8, 0x62u8]
    } else if b == 0x0c {
        seq![0x5cu8, 0x66u8]
    } else if b == 0x0a {
        seq![0x5cu8, 0x6eu8]
    } else if b == 0x0d {
        seq![0x5cu8, 0x72u8]
    } else if b == 0x09 {
        seq![0x5cu8, 0x74u8]
    } else if b < 0x20 {
        seq![0x5cu8, 0x75u8, 0x30u8, 0x30u8, hex_digit(b / 16), hex_digit(b % 16)]
    } else {
        seq![b]
    }
}

/// The escaped form of a byte sequence: the escapes of its bytes, in order.
pub open spec fn escaped(s: Seq<u8>) -> Seq<u8>
    decreases s.len(),
{
    if s.len() == 0 {
        Seq::empty()
    } else {
        escaped(s.drop_last()) + escape_of(s.last())
    }
}

/// True when no byte of `s` needs an escape.
pub open spec fn all_plain(s: Seq<u8>) -> bool {
    forall|i: int| 0 <= i < s.len() ==> !needs_escape(#[trigger] s[i])
}

/// Escaping distributes over concatenation, so text may be escaped in
/// chunks of any size.
pub proof fn lemma_escaped_concat(a: Seq<u8>, b: Seq<u8>)
    ensures
        escaped(a + b) == escaped(a) + escaped(b),
    decreases b.len(),
{
    if b.len() == 0 {
        assert(a + b =~= a);
        assert(escaped(a) + escaped(b) =~= escaped(a));
    } else {
        lemma_escaped_concat(a, b.drop_last());
        assert((a + b).drop_last() =~= a + b.drop_last());
        assert((a + b).last() == b.last());
        assert(escaped(a) + escaped(b.drop_last()) + escape_of(b.last()) =~= escaped(a) + (escaped(
            b.drop_last(),
        ) + escape_of(b.last())));
    }
}

/// A sequence with no byte to escape is its own escaped form.
pub proof fn lemma_escaped_plain(s: Seq<u8>)
    requires
        all_plain(s),
    ensures
        escaped(s) == s,
    decreases s.len(),
{
    if s.len() > 0 {
        let front = s.drop_last();
        assert forall|i: int| 0 <= i < front.len() implies !needs_escape(#[trigger] front[i]) by {
            assert(front[i] == s[i]);
        }
        lemma_escaped_plain(front);
        assert(!needs_escape(s[s.len() - 1]));
    }
    assert(escaped(s) =~= s);
}

/// The escaped form of a single byte is `escape_of` that byte.
pub proof fn lemma_escaped_single(b: u8)
    ensures
        escaped(seq![b]) == escape_of(b),
{
    let s = seq![b];
    assert(s.drop_last() =~= Seq::<u8>::empty());
    assert(escaped(s.drop_last()) =~= Seq::<u8>::empty());
    assert(escaped(s) =~= escape_of(b));
}

fn hex_digit_of(n: u8) -> (d: u8)
    requires
        n < 16,
    ensures
        d == hex_digit(n),
{
    if n < 10 {
        48 + n
    } else {
        87 + n
    }
}

/// Appends the escape of one byte that needs one.
fn push_escape(buf: &mut Vec<u8>, b: u8)
    requires
        needs_escape(b),
    ensures
        final(buf)@ == old(buf)@ + escape_of(b),
{
    buf.push(0x5c);
    if b == 0x22 {
        buf.push(0x22);
    } else if b == 0x5c {
        buf.push(0x5c);
    } else if b == 0x08 {
        buf.push(0x62);
    } else if b == 0x0c {
        buf.push(0x66);
    } else if b == 0x0a {
        buf.push(0x6e);
    } else if b == 0x0d {
        buf.push(0x72);
    } else if b == 0x09 {
        buf.push(0x74);
    } else {
        buf.push(0x75);
        buf.push(0x30);
        buf.push(0x30);
        buf.push(hex_digit_of(b / 16));
        buf.push(hex_digit_of(b % 16));
    }
    assert(buf@ =~= old(buf)@ + escape_of(b));
}

/// Appends the escaped form of `bytes` to `buf`.
///
/// One pass from left to right. Bytes that need no escape are not copied
/// one by one: the run of them is flushed as a whole when a byte that needs
/// an escape turns up, and once more at the end, so input without any such
/// byte is copied in a single step.
pub fn escape_bytes_into(bytes: &[u8], buf: &mut Vec<u8>)
    ensures
        final(buf)@ == old(buf)@ + escaped(bytes@),
{
    let n = bytes.len();
    let mut start: usize = 0;
    let mut i: usize = 0;
    while i < n
        invariant
            n == bytes@.len(),
            start <= i <= n,
            buf@ == old(buf)@ + escaped(bytes@.take(start as int)),
            all_plain(bytes@.subrange(start as int, i as int)),
        decreases n - i,
    {
        let b = bytes[i];
        if b == 0x22 || b == 0x5c || b < 0x20 {
            let run = slice_subrange(bytes, start, i);
            buf.extend_from_slice(run);
            push_escape(buf, b);
            proof {
                let head = bytes@.take(start as int);
                let plain = bytes@.subrange(start as int, i as int);
                lemma_escaped_plain(plain);
                lemma_escaped_concat(head, plain);
                lemma_escaped_single(b);
                lemma_escaped_concat(head + plain, seq![b]);
                assert(head + plain + seq![b] =~= bytes@.take(i + 1));
                assert(bytes@.subrange(i + 1, i + 1) =~= Seq::<u8>::empty());
            }
            start = i + 1;
        } else {
            proof {
                let before = bytes@.subrange(start as int, i as int);
                let after = bytes@.subrange(start as int, i + 1);
                assert forall|k: int| 0 <= k < after.len() implies !needs_escape(
                    #[trigger] after[k],
                ) by {
                    if k < before.len() {
                        assert(after[k] == before[k]);
                    }
                }
            }
        }
        i += 1;
    }
    let run = slice_subrange(bytes, start, n);
    buf.extend_from_slice(run);
    proof {
        let head = bytes@.take(start as int);
        let plain = bytes@.subrange(start as int, n as int);
        lemma_escaped_plain(plain);
        lemma_escaped_concat(head, plain);
        assert(head + plain =~= bytes@);
    }
}

/// Appends the escaped form of the UTF-8 bytes of `s` to `buf`.
pub fn escape_json_into(s: &str, buf: &mut Vec<u8>)
    ensures
        final(buf)@ == old(buf)@ + escaped(s.spec_bytes()),
{
    escape_bytes_into(s.as_bytes(), buf);
}

/// The escaped form of `s`, as a string.
pub fn escape_json(s: &str) -> (r: String)
    ensures
        encode_utf8(r@) == escaped(s.spec_bytes()),
{
    let mut buf: Vec<u8> = Vec::new();
    escape_json_into(s, &mut buf);
    proof {
        assert(buf@ =~= escaped(s.spec_bytes()));
        lemma_escaped_is_utf8(s@);
    }
    string_from_utf8(buf)
}

/// True for the characters that stand unescaped inside a JSON string: all
/// but the quote, the backslash and the control characters below U+0020.
pub open spec fn is_plain_char(c: char) -> bool {
    c as u32 >= 0x20 && c as u32 != 0x22 && c as u32 != 0x5c
}

proof fn lemma_high_bytes(x: u8)
    by (bit_vector)
    ensures
        0x80u8 | x >= 0x80,
        0xc0u8 | x >= 0x80,
        0xe0u8 | x >= 0x80,
        0xf0u8 | x >= 0x80,
{
}

proof fn lemma_low_byte(v: u32)
    by (bit_vector)
    requires
        v <= 0x7f,
    ensures
        (v & 0x7f) as u8 == v,
{
}

/// The UTF-8 bytes of one character: a single byte equal to the character
/// for ASCII, and bytes from 0x80 up for every other character.
pub proof fn lemma_scalar_bytes(c: char)
    ensures
        c as u32 <= 0x7f ==> encode_scalar(c as u32) == seq![c as u8] && c as u8 == c as u32,
        c as u32 > 0x7f ==> forall|i: int|
            0 <= i < encode_scalar(c as u32).len() ==> #[trigger] encode_scalar(c as u32)[i]
                >= 0x80,
{
    let v = c as u32;
    char_is_scalar(c);
    if v <= 0x7f {
        lemma_low_byte(v);
    } else {
        lemma_high_bytes(((v >> 6) & 0x1f) as u8);
        lemma_high_bytes(((v >> 12) & 0x0f) as u8);
        lemma_high_bytes(((v >> 18) & 0x7) as u8);
        lemma_high_bytes((v & 0x3f) as u8);
        lemma_high_bytes(((v >> 6) & 0x3f) as u8);
        lemma_high_bytes(((v >> 12) & 0x3f) as u8);
    }
}

/// Escaping leaves a plain character as it is, whatever the number of
/// bytes that encode it.
pub proof fn lemma_plain_char_unchanged(c: char)
    requires
        is_plain_char(c),
    ensures
        escaped(encode_utf8(seq![c])) == encode_utf8(seq![c]),
{
    lemma_plain_text_unchanged(seq![c]);
}

/// Escaping leaves text made of plain characters as it is.
pub proof fn lemma_plain_text_unchanged(chars: Seq<char>)
    requires
        forall|i: int| 0 <= i < chars.len() ==> is_plain_char(#[trigger] chars[i]),
    ensures
        all_plain(encode_utf8(chars)),
        escaped(encode_utf8(chars)) == encode_utf8(chars),
    decreases chars.len(),
{
    if chars.len() > 0 {
        let rest = chars.drop_first();
        assert forall|i: int| 0 <= i < rest.len() implies is_plain_char(#[trigger] rest[i]) by {
            assert(rest[i] == chars[i + 1]);
        }
        lemma_plain_text_unchanged(rest);
        char_is_scalar(chars[0]);
        lemma_scalar_bytes(chars[0]);
        assert(is_plain_char(chars[0]));
        let first = encode_scalar(chars[0] as u32);
        let all = encode_utf8(chars);
        assert(all == first + encode_utf8(rest));
        assert forall|i: int| 0 <= i < all.len() implies !needs_escape(#[trigger] all[i]) by {
            if i < first.len() {
                assert(all[i] == first[i]);
            } else {
                assert(all[i] == encode_utf8(rest)[i - first.len()]);
            }
        }
    }
    lemma_escaped_plain(encode_utf8(chars));
}

/// Every escape is made of ASCII bytes.
proof fn lemma_escape_is_ascii(b: u8)
    requires
        b < 0x80,
    ensures
        forall|i: int| 0 <= i < escape_of(b).len() ==> #[trigger] escape_of(b)[i] < 0x80,
{
}

/// The escaped form of UTF-8 text is UTF-8 text again.
pub proof fn lemma_escaped_is_utf8(chars: Seq<char>)
    ensures
        valid_utf8(escaped(encode_utf8(chars))),
    decreases chars.len(),
{
    if chars.len() == 0 {
        assert(escaped(encode_utf8(chars)) =~= Seq::<u8>::empty());
    } else {
        let c = chars[0];
        let rest = chars.drop_first();
        char_is_scalar(c);
        let first = encode_scalar(c as u32);
        lemma_escaped_is_utf8(rest);
        lemma_escaped_concat(first, encode_utf8(rest));
        assert(encode_utf8(chars) == first + encode_utf8(rest));
        assert(encode_utf8(seq![c]) =~= first) by {
            assert(seq![c].drop_first() =~= Seq::<char>::empty());
            assert(encode_utf8(seq![c].drop_first()) =~= Seq::<u8>::empty());
        }
        if is_plain_char(c) {
            lemma_plain_char_unchanged(c);
            encode_utf8_valid_utf8(seq![c]);
        } else {
            lemma_scalar_bytes(c);
            lemma_escaped_single(c as u8);
            lemma_escape_is_ascii(c as u8);
            lemma_ascii_is_utf8(escape_of(c as u8));
        }
        valid_utf8_concat(escaped(first), escaped(encode_utf8(rest)));
    }
}

} // verus!
