//! The mod-10 family: ISBN-13 / EAN-13 (weights 1, 3, 1, ...) and UPC-A
//! (weights 3, 1, 3, ...).

use vstd::prelude::*;
use crate::kinds::CheckError;
use crate::text::{
    chars_of, clean, cleaned, digit_char, digit_values, first_non_digit, from_digit,
    lemma_first_non_digit_none, to_digits,
};

verus! {

/// Weight of position `i` in an ISBN-13 or EAN-13: 1 on even positions, 3 on odd ones.
pub open spec fn isbn13_weight(i: int) -> int {
    if i % 2 == 0 {
        1
    } else {
        3
    }
}

/// Weight of position `i` in a UPC-A: 3 on even positions, 1 on odd ones.
pub open spec fn upca_weight(i: int) -> int {
    if i % 2 == 0 {
        3
    } else {
        1
    }
}

/// Weighted digit sum with ISBN-13 weights.
pub open spec fn isbn13_sum(d: Seq<u32>) -> int
    decreases d.len(),
{
    if d.len() == 0 {
        0
    } else {
        isbn13_sum(d.drop_last()) + d.last() * isbn13_weight(d.len() - 1)
    }
}

/// Weighted digit sum with UPC-A weights.
pub open spec fn upca_sum(d: Seq<u32>) -> int
    decreases d.len(),
{
    if d.len() == 0 {
        0
    } else {
        upca_sum(d.drop_last()) + d.last() * upca_weight(d.len() - 1)
    }
}

/// The digit that completes an ISBN-13 / EAN-13 body.
pub open spec fn isbn13_check_value(body: Seq<u32>) -> int {
    (10 - isbn13_sum(body) % 10) % 10
}

/// The digit that completes a UPC-A body.
pub open spec fn upca_check_value(body: Seq<u32>) -> int {
    (10 - upca_sum(body) % 10) % 10
}

/// What checking the cleaned text `s` as an ISBN-13 / EAN-13 gives.
pub open spec fn isbn13_verdict(s: Seq<char>) -> Result<(), CheckError> {
    if s.len() != 13 {
        Err(CheckError::WrongLength(s.len() as usize))
    } else {
        match first_non_digit(s) {
            Some(c) => Err(CheckError::InvalidChar(c)),
            None => if isbn13_sum(digit_values(s)) % 10 == 0 {
                Ok(())
            } else {
                Err(
                    CheckError::BadCheckDigit {
                        expected: digit_char(isbn13_check_value(digit_values(s).take(12))),
                        found: s[12],
                    },
                )
            },
        }
    }
}

/// What checking the cleaned text `s` as a UPC-A gives.
pub open spec fn upca_verdict(s: Seq<char>) -> Result<(), CheckError> {
    if s.len() != 12 {
        Err(CheckError::WrongLength(s.len() as usize))
    } else {
        match first_non_digit(s) {
            Some(c) => Err(CheckError::InvalidChar(c)),
            None => if upca_sum(digit_values(s)) % 10 == 0 {
                Ok(())
            } else {
                Err(
                    CheckError::BadCheckDigit {
                        expected: digit_char(upca_check_value(digit_values(s).take(11))),
                        found: s[11],
                    },
                )
            },
        }
    }
}

/// Every value of a digit sequence is below ten.
pub open spec fn all_below_ten(d: Seq<u32>) -> bool {
    forall|i: int| 0 <= i < d.len() ==> #[trigger] d[i] < 10
}

/// Weighted sum with ISBN-13 weights (or UPC-A weights when `upca` holds).
fn weighted_sum(digits: &[u32], upca: bool) -> (sum: u32)
    requires
        digits@.len() <= 13,
        all_below_ten(digits@),
    ensures
        sum == (if upca {
            upca_sum(digits@)
        } else {
            isbn13_sum(digits@)
        }),
        sum <= 27 * digits@.len(),
{
    let mut sum: u32 = 0;
    let mut i: usize = 0;
    while i < digits.len()
        invariant
            i <= digits@.len() <= 13,
            all_below_ten(digits@),
            sum == (if upca {
                upca_sum(digits@.take(i as int))
            } else {
                isbn13_sum(digits@.take(i as int))
            }),
            sum <= 27 * i,
        decreases digits@.len() - i,
    {
        proof {
            assert(digits@.take(i + 1).drop_last() == digits@.take(i as int));
        }
        let d = digits[i];
        let heavy = if upca {
            i % 2 == 0
        } else {
            i % 2 == 1
        };
        if heavy {
            sum = sum + d * 3;
        } else {
            sum = sum + d;
        }
        i = i + 1;
    }
    proof {
        assert(digits@.take(digits@.len() as int) == digits@);
    }
    sum
}

/// Compute the check digit for the first twelve digits of an ISBN-13
/// or EAN-13.
pub(crate) fn isbn13_check_digit(digits: &[u32]) -> (d: u32)
    requires
        digits@.len() == 12,
        all_below_ten(digits@),
    ensures
        d == isbn13_check_value(digits@),
        d < 10,
{
    let sum = weighted_sum(digits, false);
    (10 - sum % 10) % 10
}

/// Compute the check digit for the first eleven digits of a UPC-A code.
pub(crate) fn upca_check_digit(digits: &[u32]) -> (d: u32)
    requires
        digits@.len() == 11,
        all_below_ten(digits@),
    ensures
        d == upca_check_value(digits@),
        d < 10,
{
    let sum = weighted_sum(digits, true);
    (10 - sum % 10) % 10
}

/// The digit values of digit characters are all below ten.
pub(crate) proof fn lemma_digit_values_below_ten(s: Seq<char>)
    requires
        first_non_digit(s) is None,
    ensures
        all_below_ten(digit_values(s)),
{
    lemma_first_non_digit_none(s);
}

/// Checks cleaned text of the expected length against one of the mod-10 schemes.
fn check_mod10(chars: &Vec<char>, upca: bool) -> (r: Result<(), CheckError>)
    requires
        chars@.len() == (if upca {
            12int
        } else {
            13int
        }),
    ensures
        r == (if upca {
            upca_verdict(chars@)
        } else {
            isbn13_verdict(chars@)
        }),
{
    let digits = match to_digits(chars.as_slice()) {
        Ok(d) => d,
        Err(e) => return Err(e),
    };
    proof {
        lemma_digit_values_below_ten(chars@);
    }
    let n = chars.len();
    let sum = weighted_sum(digits.as_slice(), upca);
    if sum % 10 == 0 {
        Ok(())
    } else {
        let body = &digits.as_slice()[0..n - 1];
        proof {
            assert(body@ == digits@.take(n - 1));
        }
        let expected = if upca {
            upca_check_digit(body)
        } else {
            isbn13_check_digit(body)
        };
        Err(CheckError::BadCheckDigit { expected: from_digit(expected), found: chars[n - 1] })
    }
}

/// Validate an ISBN-13 string. Hyphens and spaces are ignored.
pub fn check_isbn13(input: &str) -> (r: Result<(), CheckError>)
    ensures
        r == isbn13_verdict(cleaned(input@)),
{
    let text = clean(input);
    let chars = chars_of(&text);
    if chars.len() != 13 {
        return Err(CheckError::WrongLength(chars.len()));
    }
    check_mod10(&chars, false)
}

/// Validate a general EAN-13 barcode. The checksum is identical to
/// ISBN-13's; the two only differ in what the digits mean, not how
/// they're verified.
pub fn check_ean13(input: &str) -> (r: Result<(), CheckError>)
    ensures
        r == isbn13_verdict(cleaned(input@)),
{
    check_isbn13(input)
}

/// Validate a UPC-A barcode. Hyphens and spaces are ignored. Same
/// mod-10 idea as ISBN-13/EAN-13, but weights alternate 3 and 1
/// starting from the first digit instead of the second.
pub fn check_upca(input: &str) -> (r: Result<(), CheckError>)
    ensures
        r == upca_verdict(cleaned(input@)),
{
    let text = clean(input);
    let chars = chars_of(&text);
    if chars.len() != 12 {
        return Err(CheckError::WrongLength(chars.len()));
    }
    check_mod10(&chars, true)
}

} // verus!
