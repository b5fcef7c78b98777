//! ISBN-10: mod-11 checksum with weights 10 down to 1, where the tenth
//! character may be `X` (or `x`) standing for the value 10.

use vstd::prelude::*;
use crate::kinds::CheckError;
use crate::text::{chars_of, clean, cleaned, digit_char, digit_value, from_digit, is_digit};

verus! {

/// `c` may stand at position `i` of an ISBN-10.
pub open spec fn isbn10_char_ok(c: char, i: int) -> bool {
    is_digit(c) || (i == 9 && (c == 'X' || c == 'x'))
}

/// The value of the character `c` at position `i` of an ISBN-10.
pub open spec fn isbn10_value(c: char, i: int) -> int {
    if i == 9 && (c == 'X' || c == 'x') {
        10
    } else {
        digit_value(c) as int
    }
}

/// The first character of `s` that may not stand where it stands.
pub open spec fn isbn10_first_invalid(s: Seq<char>) -> Option<char>
    decreases s.len(),
{
    if s.len() == 0 {
        None
    } else {
        match isbn10_first_invalid(s.drop_last()) {
            Some(c) => Some(c),
            None => if isbn10_char_ok(s.last(), s.len() - 1) {
                None
            } else {
                Some(s.last())
            },
        }
    }
}

/// The weighted sum of `s`: the character at position `i` counts `10 - i` times.
pub open spec fn isbn10_sum(s: Seq<char>) -> int
    decreases s.len(),
{
    if s.len() == 0 {
        0
    } else {
        isbn10_sum(s.drop_last()) + isbn10_value(s.last(), s.len() - 1) * (10 - (s.len() - 1))
    }
}

/// The check character that completes the nine-digit body `body`.
pub open spec fn isbn10_check_char(body: Seq<char>) -> char {
    let r = (11 - isbn10_sum(body) % 11) % 11;
    if r == 10 {
        'X'
    } else {
        digit_char(r)
    }
}

/// What checking the cleaned text `s` as an ISBN-10 gives.
pub open spec fn isbn10_verdict(s: Seq<char>) -> Result<(), CheckError> {
    if s.len() != 10 {
        Err(CheckError::WrongLength(s.len() as usize))
    } else {
        match isbn10_first_invalid(s) {
            Some(c) => Err(CheckError::InvalidChar(c)),
            None => if isbn10_sum(s) % 11 == 0 {
                Ok(())
            } else {
                Err(CheckError::BadCheckDigit { expected: isbn10_check_char(s.take(9)), found: s[9] })
            },
        }
    }
}

/// Compute the check digit for the first nine digits of an ISBN-10.
/// `digits` must contain exactly nine ASCII digit characters.
pub(crate) fn isbn10_check_digit(digits: &[char]) -> (c: char)
    requires
        digits@.len() == 9,
        forall|i: int| 0 <= i < 9 ==> is_digit(#[trigger] digits@[i]),
    ensures
        c == isbn10_check_char(digits@),
{
    let mut sum: u32 = 0;
    let mut i: usize = 0;
    while i < 9
        invariant
            i <= 9,
            digits@.len() == 9,
            forall|k: int| 0 <= k < 9 ==> is_digit(#[trigger] digits@[k]),
            sum == isbn10_sum(digits@.take(i as int)),
            sum <= 90 * i,
        decreases 9 - i,
    {
        proof {
            assert(digits@.take(i + 1).drop_last() == digits@.take(i as int));
        }
        let d = digits[i] as u32 - 48;
        let w = 10 - i as u32;
        assert(d * w <= 90) by (nonlinear_arith)
            requires
                d <= 9,
                w <= 10,
        ;
        sum = sum + d * w;
        i = i + 1;
    }
    proof {
        assert(digits@.take(9) == digits@);
    }
    let check = (11 - sum % 11) % 11;
    if check == 10 {
        'X'
    } else {
        from_digit(check)
    }
}

/// Validate an ISBN-10 string. Hyphens and spaces are ignored; the
/// final check digit may be `X` or `x`.
pub fn check_isbn10(input: &str) -> (r: Result<(), CheckError>)
    ensures
        r == isbn10_verdict(cleaned(input@)),
{
    let text = clean(input);
    let chars = chars_of(&text);
    let ghost s = chars@;
    if chars.len() != 10 {
        return Err(CheckError::WrongLength(chars.len()));
    }
    let mut sum: u32 = 0;
    let mut i: usize = 0;
    while i < 10
        invariant
            i <= 10,
            chars@ == s,
            s == cleaned(input@),
            s.len() == 10,
            isbn10_first_invalid(s.take(i as int)) is None,
            sum == isbn10_sum(s.take(i as int)),
            sum <= 100 * i,
        decreases 10 - i,
    {
        proof {
            assert(s.take(i + 1).drop_last() == s.take(i as int));
        }
        let c = chars[i];
        let value: u32 = if i == 9 && (c == 'X' || c == 'x') {
            10
        } else if c >= '0' && c <= '9' {
            c as u32 - 48
        } else {
            proof {
                lemma_first_invalid_extends(s, i as int);
            }
            return Err(CheckError::InvalidChar(c));
        };
        let w = 10 - i as u32;
        assert(value * w <= 100) by (nonlinear_arith)
            requires
                value <= 10,
                w <= 10,
        ;
        sum = sum + value * w;
        i = i + 1;
    }
    proof {
        assert(s.take(10) == s);
    }
    if sum % 11 == 0 {
        Ok(())
    } else {
        let body = &chars.as_slice()[0..9];
        proof {
            assert(body@ == s.take(9));
            assert forall|k: int| 0 <= k < 9 implies is_digit(#[trigger] body@[k]) by {
                lemma_first_invalid_none_means_ok(s, k);
            }
        }
        let expected = isbn10_check_digit(body);
        Err(CheckError::BadCheckDigit { expected, found: chars[9] })
    }
}

/// Once a prefix holds an invalid character, every longer prefix reports it.
pub(crate) proof fn lemma_first_invalid_extends(s: Seq<char>, i: int)
    requires
        0 <= i < s.len(),
        isbn10_first_invalid(s.take(i)) is None,
        !isbn10_char_ok(s[i], i),
    ensures
        isbn10_first_invalid(s) == Some(s[i]),
    decreases s.len(),
{
    if i == s.len() - 1 {
        assert(s.drop_last() == s.take(i));
    } else {
        assert(s.drop_last().take(i) == s.take(i));
        lemma_first_invalid_extends(s.drop_last(), i);
    }
}

/// With no invalid character, each character may stand where it stands.
proof fn lemma_first_invalid_none_means_ok(s: Seq<char>, k: int)
    requires
        0 <= k < s.len(),
        isbn10_first_invalid(s) is None,
    ensures
        isbn10_char_ok(s[k], k),
    decreases s.len(),
{
    if k < s.len() - 1 {
        lemma_first_invalid_none_means_ok(s.drop_last(), k);
    }
}

} // verus!
