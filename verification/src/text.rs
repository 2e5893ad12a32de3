//! Text helpers: comparison of string slices and decimal integers.

use vstd::prelude::*;
use vstd::string::*;
use vstd::utf8::*;

verus! {

/// Compares two string slices character by character.
pub fn same_text(a: &str, b: &str) -> (same: bool)
    ensures
        same == (a@ == b@),
{
    let x = a.as_bytes();
    let y = b.as_bytes();
    proof {
        encode_utf8_decode_utf8(a@);
        encode_utf8_decode_utf8(b@);
    }
    if x.len() != y.len() {
        return false;
    }
    let n: usize = x.len();
    let mut i: usize = 0;
    while i < n
        invariant
            i <= n,
            n == x@.len(),
            n == y@.len(),
            x@ == a.spec_bytes(),
            y@ == b.spec_bytes(),
            forall|k: int| 0 <= k < i ==> x@[k] == y@[k],
        decreases n - i,
    {
        if x[i] != y[i] {
            return false;
        }
        i += 1;
    }
    assert(x@ =~= y@);
    true
}

/// A decimal digit.
pub open spec fn is_digit(c: char) -> bool {
    '0' <= c && c <= '9'
}

/// The value of a decimal digit.
pub open spec fn digit_value(c: char) -> nat {
    (c as int - '0' as int) as nat
}

/// Every character is a decimal digit.
pub open spec fn all_digits(text: Seq<char>) -> bool {
    forall|i: int| 0 <= i < text.len() ==> is_digit(#[trigger] text[i])
}

/// The number that a sequence of decimal digits denotes.
pub open spec fn magnitude(digits: Seq<char>) -> nat
    decreases digits.len(),
{
    if digits.len() == 0 {
        0
    } else {
        10 * magnitude(digits.drop_last()) + digit_value(digits.last())
    }
}

/// The number of sign characters that a text begins with: one for a leading
/// `-` or `+`, none otherwise.
pub open spec fn sign_len(text: Seq<char>) -> int {
    if text.len() > 0 && (text[0] == '-' || text[0] == '+') {
        1
    } else {
        0
    }
}

/// The integer that a text denotes in base 10: an optional sign, then one or
/// more decimal digits and nothing else.
pub open spec fn decimal(text: Seq<char>) -> Option<int> {
    let digits = text.skip(sign_len(text));
    if digits.len() == 0 || !all_digits(digits) {
        None
    } else if text[0] == '-' {
        Some(-(magnitude(digits) as int))
    } else {
        Some(magnitude(digits) as int)
    }
}

/// The 32-bit signed integer that a text denotes in base 10, if it denotes
/// an integer and that integer is in range.
pub open spec fn decimal_i32(text: Seq<char>) -> Option<i32> {
    match decimal(text) {
        Some(value) => if i32::MIN <= value <= i32::MAX {
            Some(value as i32)
        } else {
            None
        },
        None => None,
    }
}

/// The digits read so far denote no more than all the digits do.
pub proof fn lemma_magnitude_grows(digits: Seq<char>, read: int)
    requires
        0 <= read <= digits.len(),
    ensures
        magnitude(digits.take(read)) <= magnitude(digits),
    decreases digits.len() - read,
{
    if read < digits.len() {
        assert(digits.take(read + 1).drop_last() =~= digits.take(read));
        lemma_magnitude_grows(digits, read + 1);
    } else {
        assert(digits.take(read) =~= digits);
    }
}

/// The byte of the character `-`.
const MINUS: u8 = 45;

/// The byte of the character `+`.
const PLUS: u8 = 43;

/// The byte of the character `0`.
const ZERO: u8 = 48;

/// The byte of the character `9`.
const NINE: u8 = 57;

/// The largest magnitude of a 32-bit signed integer: that of the least one.
const LIMIT: i64 = 2147483648;

/// Reads a text as a 32-bit signed integer in base 10.
pub fn parse_i32(text: &str) -> (value: Option<i32>)
    ensures
        value == decimal_i32(text@),
{
    broadcast use is_ascii_spec_bytes;

    if !text.is_ascii() {
        proof {
            let at = choose|i: int|
                0 <= i < text@.len() && !('\0' <= #[trigger] text@[i] <= '\u{7f}');
            let digits = text@.skip(sign_len(text@));
            if at >= sign_len(text@) {
                assert(!is_digit(digits[at - sign_len(text@)]));
            }
        }
        return None;
    }
    let bytes = text.as_bytes();
    let len: usize = bytes.len();
    if len == 0 {
        return None;
    }
    let negative = bytes[0] == MINUS;
    let start: usize = if negative || bytes[0] == PLUS {
        1
    } else {
        0
    };
    let ghost digits = text@.skip(start as int);
    let mut total: i64 = 0;
    let mut i: usize = start;
    while i < len
        invariant
            start <= i <= len,
            len == text@.len(),
            is_ascii(text),
            bytes@ == text.spec_bytes(),
            digits == text@.skip(start as int),
            start == sign_len(text@),
            negative == (text@[0] == '-'),
            all_digits(digits.take(i - start)),
            total == magnitude(digits.take(i - start)),
            total <= LIMIT,
        decreases len - i,
    {
        let byte: u8 = bytes[i];
        if byte < ZERO || byte > NINE {
            assert(!is_digit(digits[i - start]));
            return None;
        }
        assert(digits.take(i - start + 1).drop_last() =~= digits.take(i - start));
        total = total * 10 + (byte - ZERO) as i64;
        if total > LIMIT {
            proof {
                if all_digits(digits) {
                    lemma_magnitude_grows(digits, i - start + 1);
                }
            }
            return None;
        }
        i += 1;
    }
    assert(digits.take(i - start) =~= digits);
    if i == start {
        None
    } else if negative {
        Some((-total) as i32)
    } else if total == LIMIT {
        None
    } else {
        Some(total as i32)
    }
}

} // verus!
