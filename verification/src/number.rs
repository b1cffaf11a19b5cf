//! Decimal numbers in text.

use vstd::prelude::*;
use vstd::string::StringSliceAdditionalSpecFns;

verus! {

/// Whether the byte is an ASCII digit.
pub open spec fn is_digit(byte: u8) -> bool {
    0x30 <= byte <= 0x39
}

/// Whether every byte is an ASCII digit.
pub open spec fn all_digits(text: Seq<u8>) -> bool {
    forall|i: int| 0 <= i < text.len() ==> is_digit(#[trigger] text[i])
}

/// The number that a run of ASCII digits writes in base ten.
pub open spec fn digits_value(digits: Seq<u8>) -> nat
    decreases digits.len(),
{
    if digits.len() == 0 {
        0
    } else {
        (digits_value(digits.drop_last()) * 10 + (digits.last() - 0x30)) as nat
    }
}

/// The digits of a number in text: the text itself, without one leading
/// plus sign.
pub open spec fn unsigned_digits(text: Seq<u8>) -> Seq<u8> {
    if text.len() > 0 && text[0] == 0x2b {
        text.subrange(1, text.len() as int)
    } else {
        text
    }
}

/// The number that the text writes in base ten: one or more ASCII digits,
/// after an optional plus sign. Any other text writes no number.
pub open spec fn decimal_value(text: Seq<u8>) -> Option<nat> {
    let digits = unsigned_digits(text);
    if digits.len() > 0 && all_digits(digits) {
        Some(digits_value(digits))
    } else {
        None
    }
}

/// The number that the text writes, as far as it fits in 32 bits.
pub open spec fn decimal_u32(text: Seq<u8>) -> Option<u32> {
    match decimal_value(text) {
        Some(value) if value <= u32::MAX => Some(value as u32),
        _ => None,
    }
}

/// The value of a run of digits does not shrink when digits are added.
proof fn lemma_digits_value_grows(digits: Seq<u8>, upto: int)
    requires
        0 <= upto <= digits.len(),
        all_digits(digits),
    ensures
        digits_value(digits.subrange(0, upto)) <= digits_value(digits),
    decreases digits.len() - upto,
{
    if upto < digits.len() {
        lemma_digits_value_grows(digits, upto + 1);
        let longer = digits.subrange(0, upto + 1);
        assert(longer.drop_last() =~= digits.subrange(0, upto));
        assert(is_digit(digits[upto]));
        assert(longer.last() == digits[upto]);
    } else {
        assert(digits.subrange(0, upto) =~= digits);
    }
}

/// Reads a number in base ten from the text, as `u32::from_str` does: digits
/// after an optional plus sign, with a value that fits in 32 bits.
pub fn parse_u32(text: &str) -> (r: Option<u32>)
    ensures
        r == decimal_u32(text.spec_bytes()),
{
    let bytes = text.as_bytes();
    let first: usize = if bytes.len() > 0 && bytes[0] == 0x2b {
        1
    } else {
        0
    };
    if first == bytes.len() {
        return None;
    }
    let ghost digits = unsigned_digits(bytes@);
    let mut value: u32 = 0;
    let mut at: usize = first;
    while at < bytes.len()
        invariant
            first <= at <= bytes@.len(),
            first <= 1,
            bytes@ == text.spec_bytes(),
            digits == bytes@.subrange(first as int, bytes@.len() as int),
            digits == unsigned_digits(bytes@),
            all_digits(digits.subrange(0, at - first)),
            value == digits_value(digits.subrange(0, at - first)),
        decreases bytes@.len() - at,
    {
        let byte: u8 = bytes[at];
        if byte < 0x30 || byte > 0x39 {
            assert(digits[at - first] == byte);
            assert(!all_digits(digits));
            return None;
        }
        let digit: u32 = (byte - 0x30) as u32;
        let ghost longer = digits.subrange(0, at - first + 1);
        proof {
            assert(longer.drop_last() =~= digits.subrange(0, at - first));
            assert(longer.last() == byte);
            assert forall|i: int| 0 <= i < longer.len() implies is_digit(#[trigger] longer[i]) by {
                if i < at - first {
                    assert(longer[i] == digits.subrange(0, at - first)[i]);
                }
            }
        }
        if value > (u32::MAX - digit) / 10 {
            proof {
                assert(digits_value(longer) > u32::MAX);
                if all_digits(digits) {
                    lemma_digits_value_grows(digits, at - first + 1);
                }
                assert(decimal_u32(bytes@) is None);
            }
            return None;
        }
        value = value * 10 + digit;
        at = at + 1;
    }
    assert(digits.subrange(0, at - first) =~= digits);
    Some(value)
}

} // verus!
