//! The kinds of code the library recognises and the ways a check can fail.

use vstd::prelude::*;
use crate::text::{decimal, push_decimal, string_push};

verus! {

/// Which kind of code a caller's input turned out to be, once cleaned.
#[derive(Debug, Clone, Copy, PartialEq, Eq, Structural)]
pub enum BarcodeKind {
    Isbn10,
    Isbn13,
    UpcA,
    Ean13,
}

/// Why a code was rejected.
#[derive(Debug, Clone, Copy, PartialEq, Eq, Structural)]
pub enum CheckError {
    /// Length after stripping hyphens and spaces didn't match what was expected.
    WrongLength(usize),
    /// A character that isn't a digit (or a trailing X for ISBN-10).
    InvalidChar(char),
    /// Length and characters were fine, but the checksum didn't work out.
    BadCheckDigit { expected: char, found: char },
}

/// The name of each kind, as shown to a user.
pub open spec fn kind_name(k: BarcodeKind) -> Seq<char> {
    match k {
        BarcodeKind::Isbn10 => "ISBN-10"@,
        BarcodeKind::Isbn13 => "ISBN-13"@,
        BarcodeKind::UpcA => "UPC-A"@,
        BarcodeKind::Ean13 => "EAN-13"@,
    }
}

/// The explanation of each error, as shown to a user.
pub open spec fn error_message(e: CheckError) -> Seq<char> {
    match e {
        CheckError::WrongLength(n) => "unexpected length: "@ + decimal(n as nat)
            + " characters after removing separators"@,
        CheckError::InvalidChar(c) => "unexpected character '"@ + seq![c] + "'"@,
        CheckError::BadCheckDigit { expected, found } => "check digit should be '"@ + seq![expected]
            + "', found '"@ + seq![found] + "'"@,
    }
}

impl BarcodeKind {
    /// The kind's name: "ISBN-10", "ISBN-13", "UPC-A" or "EAN-13".
    pub fn name(&self) -> (s: &'static str)
        ensures
            s@ == kind_name(*self),
    {
        match self {
            BarcodeKind::Isbn10 => "ISBN-10",
            BarcodeKind::Isbn13 => "ISBN-13",
            BarcodeKind::UpcA => "UPC-A",
            BarcodeKind::Ean13 => "EAN-13",
        }
    }
}

impl CheckError {
    /// A one-line explanation of the error.
    pub fn message(&self) -> (m: String)
        ensures
            m@ == error_message(*self),
    {
        match self {
            CheckError::WrongLength(n) => {
                let mut m = String::from_str("unexpected length: ");
                push_decimal(&mut m, *n);
                m.append(" characters after removing separators");
                m
            },
            CheckError::InvalidChar(c) => {
                let mut m = String::from_str("unexpected character '");
                string_push(&mut m, *c);
                m.append("'");
                m
            },
            CheckError::BadCheckDigit { expected, found } => {
                let mut m = String::from_str("check digit should be '");
                string_push(&mut m, *expected);
                m.append("', found '");
                string_push(&mut m, *found);
                m.append("'");
                m
            },
        }
    }
}

} // verus!
