//! Picking the kind of code from the cleaned length: checking a full code,
//! and completing a code that lacks its check digit.

use vstd::prelude::*;
use crate::isbn10::{check_isbn10, isbn10_check_char, isbn10_check_digit, isbn10_verdict};
use crate::kinds::{BarcodeKind, CheckError};
use crate::mod10::{
    check_isbn13, check_upca, isbn13_check_digit, isbn13_check_value, isbn13_verdict,
    lemma_digit_values_below_ten, upca_check_digit, upca_check_value, upca_verdict,
};
use crate::text::{
    chars_of, clean, cleaned, digit_char, digit_values, first_non_digit, from_digit,
    lemma_first_non_digit_none, string_push, to_digits,
};

verus! {

/// `s` starts with the 978 or 979 "Bookland" prefix of an ISBN-13.
pub open spec fn has_bookland_prefix(s: Seq<char>) -> bool {
    &&& s.len() >= 3
    &&& s[0] == '9'
    &&& s[1] == '7'
    &&& (s[2] == '8' || s[2] == '9')
}

/// A thirteen-digit code is an ISBN-13 when it has the Bookland prefix,
/// and a plain EAN-13 otherwise.
pub open spec fn thirteen_digit_kind(s: Seq<char>) -> BarcodeKind {
    if has_bookland_prefix(s) {
        BarcodeKind::Isbn13
    } else {
        BarcodeKind::Ean13
    }
}

/// What `check` gives for the cleaned text `s`.
pub open spec fn check_verdict(s: Seq<char>) -> Result<BarcodeKind, CheckError> {
    if s.len() == 10 {
        match isbn10_verdict(s) {
            Ok(_) => Ok(BarcodeKind::Isbn10),
            Err(e) => Err(e),
        }
    } else if s.len() == 12 {
        match upca_verdict(s) {
            Ok(_) => Ok(BarcodeKind::UpcA),
            Err(e) => Err(e),
        }
    } else if s.len() == 13 {
        match isbn13_verdict(s) {
            Ok(_) => Ok(thirteen_digit_kind(s)),
            Err(e) => Err(e),
        }
    } else {
        Err(CheckError::WrongLength(s.len() as usize))
    }
}

/// What `compute` gives for the cleaned body `s`: the kind, and the body
/// followed by its check character.
pub open spec fn compute_verdict(s: Seq<char>) -> Result<(BarcodeKind, Seq<char>), CheckError> {
    if s.len() == 9 || s.len() == 11 || s.len() == 12 {
        match first_non_digit(s) {
            Some(c) => Err(CheckError::InvalidChar(c)),
            None => if s.len() == 9 {
                Ok((BarcodeKind::Isbn10, s.push(isbn10_check_char(s))))
            } else if s.len() == 11 {
                Ok((BarcodeKind::UpcA, s.push(digit_char(upca_check_value(digit_values(s))))))
            } else {
                Ok(
                    (
                        thirteen_digit_kind(s),
                        s.push(digit_char(isbn13_check_value(digit_values(s)))),
                    ),
                )
            },
        }
    } else {
        Err(CheckError::WrongLength(s.len() as usize))
    }
}

/// Tells ISBN-13 from EAN-13 by the Bookland prefix.
fn bookland_kind(chars: &Vec<char>) -> (k: BarcodeKind)
    ensures
        k == thirteen_digit_kind(chars@),
{
    if chars.len() >= 3 && chars[0] == '9' && chars[1] == '7' && (chars[2] == '8' || chars[2]
        == '9') {
        BarcodeKind::Isbn13
    } else {
        BarcodeKind::Ean13
    }
}

/// Clean the input and dispatch to the right checker based on length:
/// 10 digits for ISBN-10, 12 for UPC-A, 13 for ISBN-13/EAN-13 (told
/// apart by the 978/979 Bookland prefix). Returns which kind was
/// checked so callers can report it.
pub fn check(input: &str) -> (r: Result<BarcodeKind, CheckError>)
    ensures
        r == check_verdict(cleaned(input@)),
{
    let text = clean(input);
    let chars = chars_of(&text);
    let n = chars.len();
    if n == 10 {
        match check_isbn10(input) {
            Ok(()) => Ok(BarcodeKind::Isbn10),
            Err(e) => Err(e),
        }
    } else if n == 12 {
        match check_upca(input) {
            Ok(()) => Ok(BarcodeKind::UpcA),
            Err(e) => Err(e),
        }
    } else if n == 13 {
        match check_isbn13(input) {
            Ok(()) => Ok(bookland_kind(&chars)),
            Err(e) => Err(e),
        }
    } else {
        Err(CheckError::WrongLength(n))
    }
}

/// Compute the missing check digit for a partial code and return the
/// completed code along with which kind it turned out to be. `input`
/// is the code *without* its check digit: 9 digits for ISBN-10, 11
/// for UPC-A, or 12 for ISBN-13/EAN-13. Hyphens and spaces are
/// ignored, same as the `check_*` functions.
pub fn compute(input: &str) -> (r: Result<(BarcodeKind, String), CheckError>)
    ensures
        match r {
            Ok((kind, full)) => compute_verdict(cleaned(input@)) == Ok::<
                (BarcodeKind, Seq<char>),
                CheckError,
            >((kind, full@)),
            Err(e) => compute_verdict(cleaned(input@)) == Err::<
                (BarcodeKind, Seq<char>),
                CheckError,
            >(e),
        },
{
    let mut text = clean(input);
    let chars = chars_of(&text);
    let n = chars.len();
    if n != 9 && n != 11 && n != 12 {
        return Err(CheckError::WrongLength(n));
    }
    let digits = match to_digits(chars.as_slice()) {
        Ok(d) => d,
        Err(e) => return Err(e),
    };
    proof {
        lemma_digit_values_below_ten(chars@);
        lemma_first_non_digit_none(chars@);
    }
    if n == 9 {
        let check = isbn10_check_digit(chars.as_slice());
        string_push(&mut text, check);
        Ok((BarcodeKind::Isbn10, text))
    } else if n == 11 {
        let check = upca_check_digit(digits.as_slice());
        string_push(&mut text, from_digit(check));
        Ok((BarcodeKind::UpcA, text))
    } else {
        let check = isbn13_check_digit(digits.as_slice());
        let kind = bookland_kind(&chars);
        string_push(&mut text, from_digit(check));
        Ok((kind, text))
    }
}

} // verus!
