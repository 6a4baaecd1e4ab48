//! Decimal text for unsigned and signed integers.

use vstd::prelude::*;

verus! {

/// The ASCII digit for a value below ten.
pub open spec fn digit(d: nat) -> u8 {
    (48 + d) as u8
}

/// The decimal digits of `n`, padded with zeros on the left to at least
/// `width` digits.
pub open spec fn padded(n: nat, width: nat) -> Seq<u8>
    decreases n + width,
{
    if n < 10 && width <= 1 {
        seq![digit(n)]
    } else {
        padded(n / 10, if width == 0 { 0 } else { (width - 1) as nat }).push(digit(n % 10))
    }
}

/// The decimal digits of `n`, without leading zeros.
pub open spec fn decimal(n: nat) -> Seq<u8> {
    padded(n, 1)
}

/// The decimal text of `i`: a minus sign if `i` is negative, then the
/// digits of its magnitude.
pub open spec fn signed_decimal(i: int) -> Seq<u8> {
    if i < 0 {
        seq![0x2du8] + decimal((-i) as nat)
    } else {
        decimal(i as nat)
    }
}

/// True when every byte of `s` is an ASCII digit.
pub open spec fn all_digits(s: Seq<u8>) -> bool {
    forall|i: int| 0 <= i < s.len() ==> 48 <= #[trigger] s[i] <= 57
}

/// The number that a sequence of ASCII digits writes.
pub open spec fn digits_value(s: Seq<u8>) -> nat
    decreases s.len(),
{
    if s.len() == 0 {
        0
    } else {
        (digits_value(s.drop_last()) * 10 + (s.last() - 48)) as nat
    }
}

/// Ten to the power `e`.
pub open spec fn pow10(e: nat) -> nat
    decreases e,
{
    if e == 0 {
        1
    } else {
        10 * pow10((e - 1) as nat)
    }
}

/// Padded digits are digits, at least `width` of them, and they write `n`.
pub proof fn lemma_padded_reads_back(n: nat, width: nat)
    ensures
        all_digits(padded(n, width)),
        padded(n, width).len() >= width,
        padded(n, width).len() >= 1,
        digits_value(padded(n, width)) == n,
    decreases n + width,
{
    if n < 10 && width <= 1 {
        let s = padded(n, width);
        assert(s.drop_last() =~= Seq::<u8>::empty());
        assert(digits_value(s.drop_last()) == 0);
    } else {
        let w = if width == 0 {
            0
        } else {
            (width - 1) as nat
        };
        lemma_padded_reads_back(n / 10, w);
        let front = padded(n / 10, w);
        let s = front.push(digit(n % 10));
        assert(s.drop_last() =~= front);
        assert(s.last() == digit(n % 10));
        assert forall|i: int| 0 <= i < s.len() implies 48 <= #[trigger] s[i] <= 57 by {
            if i < front.len() {
                assert(s[i] == front[i]);
            }
        }
    }
}

/// A number below ten to the `width` takes exactly `width` digits, for a
/// width of at least one.
pub proof fn lemma_padded_exact_width(n: nat, width: nat)
    requires
        width >= 1,
        n < pow10(width),
    ensures
        padded(n, width).len() == width,
    decreases width,
{
    if width == 1 {
        assert(pow10(1) == 10) by {
            assert(pow10(0) == 1);
        }
    } else {
        assert(pow10(width) == 10 * pow10((width - 1) as nat));
        lemma_padded_exact_width(n / 10, (width - 1) as nat);
    }
}

/// Decimal text has no leading zero, except for zero itself, which is the
/// single digit `0`.
pub proof fn lemma_decimal_no_leading_zero(n: nat)
    ensures
        n == 0 ==> decimal(n) == seq![48u8],
        n > 0 ==> decimal(n)[0] != 48,
    decreases n,
{
    lemma_unpadded_first_digit(n, 1);
}

proof fn lemma_unpadded_first_digit(n: nat, width: nat)
    requires
        width <= 1,
    ensures
        padded(n, width).len() >= 1,
        n == 0 ==> padded(n, width) == seq![48u8],
        n > 0 ==> padded(n, width)[0] != 48,
    decreases n,
{
    if n >= 10 {
        lemma_unpadded_first_digit(n / 10, 0);
        let front = padded(n / 10, 0);
        assert(padded(n, width) == front.push(digit(n % 10)));
        assert(front.push(digit(n % 10))[0] == front[0]);
    }
}

/// Decimal text, signed or not, is not empty and ends in a digit.
pub proof fn lemma_decimal_end(v: int)
    ensures
        signed_decimal(v).len() > 0,
        48 <= signed_decimal(v).last() <= 57,
{
    if v < 0 {
        lemma_padded_reads_back((-v) as nat, 1);
        let d = decimal((-v) as nat);
        assert(d.len() > 0);
        assert(48 <= d[d.len() - 1] <= 57);
    } else {
        lemma_padded_reads_back(v as nat, 1);
        let d = decimal(v as nat);
        assert(48 <= d[d.len() - 1] <= 57);
    }
}

/// Appends the digits of `v`, padded with zeros to at least `width` digits.
pub fn push_padded(buf: &mut Vec<u8>, v: u128, width: usize)
    ensures
        final(buf)@ == old(buf)@ + padded(v as nat, width as nat),
    decreases v + width,
{
    let d: u8 = (v % 10) as u8;
    if v < 10 && width <= 1 {
        buf.push(48 + d);
        assert(buf@ =~= old(buf)@ + padded(v as nat, width as nat));
    } else {
        let w: usize = if width == 0 {
            0
        } else {
            width - 1
        };
        push_padded(buf, v / 10, w);
        buf.push(48 + d);
        assert(buf@ =~= old(buf)@ + padded(v as nat, width as nat));
    }
}

/// Appends the decimal text of `v`.
pub fn push_decimal(buf: &mut Vec<u8>, v: u128)
    ensures
        final(buf)@ == old(buf)@ + decimal(v as nat),
{
    push_padded(buf, v, 1);
}

/// Appends the decimal text of `v`, with a minus sign if it is negative.
pub fn push_signed_decimal(buf: &mut Vec<u8>, v: i128)
    ensures
        final(buf)@ == old(buf)@ + signed_decimal(v as int),
{
    if v < 0 {
        buf.push(0x2d);
        let magnitude: u128 = ((-(v + 1)) as u128) + 1;
        push_decimal(buf, magnitude);
        assert(buf@ =~= old(buf)@ + signed_decimal(v as int));
    } else {
        push_decimal(buf, v as u128);
    }
}

} // verus!
