//! The checksums written out in full: for each scheme, which codes are
//! accepted and which check digit is expected or computed, stated with the
//! face values of the digit characters (`c as int - 48`) and the weights of
//! the published schemes, independently of how the library computes them.

use vstd::prelude::*;
use crate::dispatch::{check_verdict, compute_verdict};
use crate::isbn10::{isbn10_first_invalid, isbn10_sum, isbn10_value, isbn10_verdict};
use crate::kinds::{BarcodeKind, CheckError};
use crate::mod10::{isbn13_check_value, upca_check_value, isbn13_sum, isbn13_verdict, isbn13_weight, upca_sum, upca_verdict, upca_weight};
use crate::text::{decimal, digit_char, cleaned, digit_values, first_non_digit, lemma_all_digits_first_none};

verus! {

/// One step of the ISBN-10 sum over a prefix.
proof fn lemma_isbn10_sum_step(s: Seq<char>, n: int)
    requires
        0 <= n < s.len(),
    ensures
        isbn10_sum(s.take(n + 1)) == isbn10_sum(s.take(n)) + isbn10_value(s[n], n) * (10 - n),
{
    assert(s.take(n + 1).drop_last() == s.take(n));
}

/// The ISBN-10 sum of the first nine digits, term by term with face values.
proof fn lemma_isbn10_body_sum(s: Seq<char>)
    requires
        s.len() == 10,
        forall|k: int| 0 <= k < 9 ==> '0' <= #[trigger] s[k] && s[k] <= '9',
    ensures
        isbn10_sum(s.take(9)) == 10 * (s[0] as int - 48) + 9 * (s[1] as int - 48) + 8 * (
        s[2] as int - 48) + 7 * (s[3] as int - 48) + 6 * (s[4] as int - 48) + 5 * (s[5] as int
            - 48) + 4 * (s[6] as int - 48) + 3 * (s[7] as int - 48) + 2 * (s[8] as int - 48),
        isbn10_sum(s) == isbn10_sum(s.take(9)) + isbn10_value(s[9], 9),
{
    assert(s.take(0) == Seq::<char>::empty());
    assert forall|k: int| 0 <= k < 9 implies isbn10_value(#[trigger] s[k], k) == s[k] as int - 48 by {}
    lemma_isbn10_sum_step(s, 0);
    lemma_isbn10_sum_step(s, 1);
    lemma_isbn10_sum_step(s, 2);
    lemma_isbn10_sum_step(s, 3);
    lemma_isbn10_sum_step(s, 4);
    lemma_isbn10_sum_step(s, 5);
    lemma_isbn10_sum_step(s, 6);
    lemma_isbn10_sum_step(s, 7);
    lemma_isbn10_sum_step(s, 8);
    lemma_isbn10_sum_step(s, 9);
    assert(s.take(10) == s);
}

/// The remainder that completes a sum to a multiple of eleven.
proof fn lemma_mod11_complement(b: int)
    ensures
        0 <= (11 - b % 11) % 11 <= 10,
        (b + (11 - b % 11) % 11) % 11 == 0,
{
}

/// A ten-character code whose first nine characters are digits and whose
/// last is a digit, `X` or `x` is accepted as an ISBN-10 exactly when
/// `10*d0 + 9*d1 + ... + 2*d8 + 1*d9` is a multiple of 11, each `d` the
/// face value of its digit and `X`/`x` counting as 10. Otherwise the error
/// is a bad check digit: it names the last character as found, and the
/// expected character is the digit (or `X` for ten) that makes the sum a
/// multiple of 11.
#[verifier::rlimit(40)]
pub proof fn law_isbn10_accepts_by_weighted_sum(s: Seq<char>)
    requires
        s.len() == 10,
        forall|k: int| 0 <= k < 9 ==> '0' <= #[trigger] s[k] && s[k] <= '9',
        ('0' <= s[9] && s[9] <= '9') || s[9] == 'X' || s[9] == 'x',
    ensures
        ({
            let d = |k: int| s[k] as int - 48;
            let body = 10 * d(0) + 9 * d(1) + 8 * d(2) + 7 * d(3) + 6 * d(4) + 5 * d(5) + 4 * d(6) + 3
                * d(7) + 2 * d(8);
            let last = if s[9] == 'X' || s[9] == 'x' {
                10
            } else {
                d(9)
            };
            &&& (isbn10_verdict(s) == Ok::<(), CheckError>(()) <==> (body + last) % 11 == 0)
            &&& ((body + last) % 11 != 0 ==> match isbn10_verdict(s) {
                Err(CheckError::BadCheckDigit { expected, found }) => found == s[9] && (if expected
                    == 'X' {
                    (body + 10) % 11 == 0
                } else {
                    '0' <= expected && expected <= '9' && (body + (expected as int - 48)) % 11 == 0
                }),
                _ => false,
            })
        }),
{
    lemma_isbn10_body_sum(s);
    assert forall|k: int| 0 <= k < 10 implies crate::isbn10::isbn10_char_ok(#[trigger] s[k], k) by {}
    crate::laws::lemma_isbn10_all_ok_first_none(s);
    lemma_mod11_complement(isbn10_sum(s.take(9)));
}


/// One step of the mod-10 sums over a prefix.
proof fn lemma_mod10_sum_step(d: Seq<u32>, n: int)
    requires
        0 <= n < d.len(),
    ensures
        isbn13_sum(d.take(n + 1)) == isbn13_sum(d.take(n)) + d[n] * isbn13_weight(n),
        upca_sum(d.take(n + 1)) == upca_sum(d.take(n)) + d[n] * upca_weight(n),
{
    assert(d.take(n + 1).drop_last() == d.take(n));
}

/// The digit values of digit characters are their face values.
proof fn lemma_face_values(s: Seq<char>)
    requires
        forall|k: int| 0 <= k < s.len() ==> '0' <= #[trigger] s[k] && s[k] <= '9',
    ensures
        digit_values(s).len() == s.len(),
        forall|k: int| 0 <= k < s.len() ==> #[trigger] digit_values(s)[k] == s[k] as int - 48,
{
}

/// The ISBN-13 sum of thirteen digits, term by term with face values.
proof fn lemma_isbn13_sum_unrolled(s: Seq<char>)
    requires
        s.len() == 13,
        forall|k: int| 0 <= k < 13 ==> '0' <= #[trigger] s[k] && s[k] <= '9',
    ensures
        isbn13_sum(digit_values(s).take(12)) == (s[0] as int - 48) + 3 * (s[1] as int - 48) + (
        s[2] as int - 48) + 3 * (s[3] as int - 48) + (s[4] as int - 48) + 3 * (s[5] as int - 48)
            + (s[6] as int - 48) + 3 * (s[7] as int - 48) + (s[8] as int - 48) + 3 * (s[9] as int
            - 48) + (s[10] as int - 48) + 3 * (s[11] as int - 48),
        isbn13_sum(digit_values(s)) == isbn13_sum(digit_values(s).take(12)) + (s[12] as int - 48),
{
    let d = digit_values(s);
    lemma_face_values(s);
    assert(d.take(0) == Seq::<u32>::empty());
    lemma_mod10_sum_step(d, 0);
    lemma_mod10_sum_step(d, 1);
    lemma_mod10_sum_step(d, 2);
    lemma_mod10_sum_step(d, 3);
    lemma_mod10_sum_step(d, 4);
    lemma_mod10_sum_step(d, 5);
    lemma_mod10_sum_step(d, 6);
    lemma_mod10_sum_step(d, 7);
    lemma_mod10_sum_step(d, 8);
    lemma_mod10_sum_step(d, 9);
    lemma_mod10_sum_step(d, 10);
    lemma_mod10_sum_step(d, 11);
    lemma_mod10_sum_step(d, 12);
    assert(d.take(13) == d);
}

/// The UPC-A sum of twelve digits, term by term with face values.
proof fn lemma_upca_sum_unrolled(s: Seq<char>)
    requires
        s.len() == 12,
        forall|k: int| 0 <= k < 12 ==> '0' <= #[trigger] s[k] && s[k] <= '9',
    ensures
        upca_sum(digit_values(s).take(11)) == 3 * (s[0] as int - 48) + (s[1] as int - 48) + 3 * (
        s[2] as int - 48) + (s[3] as int - 48) + 3 * (s[4] as int - 48) + (s[5] as int - 48) + 3
            * (s[6] as int - 48) + (s[7] as int - 48) + 3 * (s[8] as int - 48) + (s[9] as int - 48)
            + 3 * (s[10] as int - 48),
        upca_sum(digit_values(s)) == upca_sum(digit_values(s).take(11)) + (s[11] as int - 48),
{
    let d = digit_values(s);
    lemma_face_values(s);
    assert(d.take(0) == Seq::<u32>::empty());
    lemma_mod10_sum_step(d, 0);
    lemma_mod10_sum_step(d, 1);
    lemma_mod10_sum_step(d, 2);
    lemma_mod10_sum_step(d, 3);
    lemma_mod10_sum_step(d, 4);
    lemma_mod10_sum_step(d, 5);
    lemma_mod10_sum_step(d, 6);
    lemma_mod10_sum_step(d, 7);
    lemma_mod10_sum_step(d, 8);
    lemma_mod10_sum_step(d, 9);
    lemma_mod10_sum_step(d, 10);
    lemma_mod10_sum_step(d, 11);
    assert(d.take(12) == d);
}

/// The digit that completes a sum to a multiple of ten.
proof fn lemma_mod10_complement(b: int)
    ensures
        0 <= (10 - b % 10) % 10 <= 9,
        (b + (10 - b % 10) % 10) % 10 == 0,
{
}

/// A thirteen-digit code is accepted as an ISBN-13 / EAN-13 exactly when
/// `d0 + 3*d1 + d2 + 3*d3 + ... + 3*d11 + d12` (weight 1 on even
/// positions, 3 on odd ones, face values) is a multiple of 10. Otherwise
/// the error names the last digit as found, and the expected digit is the
/// one that makes the sum a multiple of 10.
#[verifier::rlimit(40)]
pub proof fn law_isbn13_accepts_by_weighted_sum(s: Seq<char>)
    requires
        s.len() == 13,
        forall|k: int| 0 <= k < 13 ==> '0' <= #[trigger] s[k] && s[k] <= '9',
    ensures
        ({
            let d = |k: int| s[k] as int - 48;
            let body = d(0) + 3 * d(1) + d(2) + 3 * d(3) + d(4) + 3 * d(5) + d(6) + 3 * d(7) + d(8)
                + 3 * d(9) + d(10) + 3 * d(11);
            &&& (isbn13_verdict(s) == Ok::<(), CheckError>(()) <==> (body + d(12)) % 10 == 0)
            &&& ((body + d(12)) % 10 != 0 ==> match isbn13_verdict(s) {
                Err(CheckError::BadCheckDigit { expected, found }) => found == s[12] && '0'
                    <= expected && expected <= '9' && (body + (expected as int - 48)) % 10 == 0,
                _ => false,
            })
        }),
{
    lemma_isbn13_sum_unrolled(s);
    lemma_all_digits_first_none(s);
    lemma_mod10_complement(isbn13_sum(digit_values(s).take(12)));
}

/// A twelve-digit code is accepted as a UPC-A exactly when
/// `3*d0 + d1 + 3*d2 + d3 + ... + 3*d10 + d11` (weight 3 on even
/// positions, 1 on odd ones, face values) is a multiple of 10. Otherwise
/// the error names the last digit as found, and the expected digit is the
/// one that makes the sum a multiple of 10.
#[verifier::rlimit(40)]
pub proof fn law_upca_accepts_by_weighted_sum(s: Seq<char>)
    requires
        s.len() == 12,
        forall|k: int| 0 <= k < 12 ==> '0' <= #[trigger] s[k] && s[k] <= '9',
    ensures
        ({
            let d = |k: int| s[k] as int - 48;
            let body = 3 * d(0) + d(1) + 3 * d(2) + d(3) + 3 * d(4) + d(5) + 3 * d(6) + d(7) + 3 * d(
                8,
            ) + d(9) + 3 * d(10);
            &&& (upca_verdict(s) == Ok::<(), CheckError>(()) <==> (body + d(11)) % 10 == 0)
            &&& ((body + d(11)) % 10 != 0 ==> match upca_verdict(s) {
                Err(CheckError::BadCheckDigit { expected, found }) => found == s[11] && '0'
                    <= expected && expected <= '9' && (body + (expected as int - 48)) % 10 == 0,
                _ => false,
            })
        }),
{
    lemma_upca_sum_unrolled(s);
    lemma_all_digits_first_none(s);
    lemma_mod10_complement(upca_sum(digit_values(s).take(11)));
}


/// Completing nine digits gives an ISBN-10 whose tenth character is the
/// digit, or `X` for ten, that makes `10*d0 + 9*d1 + ... + 2*d8 + 1*d9` a
/// multiple of 11 (face values).
pub proof fn law_compute_isbn10_completes_weighted_sum(s: Seq<char>)
    requires
        s.len() == 9,
        forall|k: int| 0 <= k < 9 ==> '0' <= #[trigger] s[k] && s[k] <= '9',
    ensures
        ({
            let d = |k: int| s[k] as int - 48;
            let body = 10 * d(0) + 9 * d(1) + 8 * d(2) + 7 * d(3) + 6 * d(4) + 5 * d(5) + 4 * d(6) + 3
                * d(7) + 2 * d(8);
            match compute_verdict(s) {
                Ok((kind, full)) => kind == BarcodeKind::Isbn10 && full.len() == 10 && full.take(9)
                    == s && (if full[9] == 'X' {
                    (body + 10) % 11 == 0
                } else {
                    '0' <= full[9] && full[9] <= '9' && (body + (full[9] as int - 48)) % 11 == 0
                }),
                Err(_) => false,
            }
        }),
{
    let t = s.push('0');
    assert(t.take(9) == s);
    lemma_isbn10_body_sum(t);
    lemma_all_digits_first_none(s);
    lemma_mod11_complement(isbn10_sum(s));
    let full = s.push(crate::isbn10::isbn10_check_char(s));
    assert(full.take(9) == s);
}

/// Completing eleven digits gives a UPC-A whose last digit `c` satisfies
/// `c = (10 - (3*(d0 + d2 + d4 + d6 + d8 + d10) + d1 + d3 + d5 + d7 + d9) % 10) % 10`
/// (face values).
pub proof fn law_compute_upca_completes_weighted_sum(s: Seq<char>)
    requires
        s.len() == 11,
        forall|k: int| 0 <= k < 11 ==> '0' <= #[trigger] s[k] && s[k] <= '9',
    ensures
        ({
            let d = |k: int| s[k] as int - 48;
            let body = 3 * (d(0) + d(2) + d(4) + d(6) + d(8) + d(10)) + d(1) + d(3) + d(5) + d(7)
                + d(9);
            match compute_verdict(s) {
                Ok((kind, full)) => kind == BarcodeKind::UpcA && full.len() == 12 && full.take(11)
                    == s && '0' <= full[11] && full[11] <= '9' && full[11] as int - 48 == (10 - body
                    % 10) % 10,
                Err(_) => false,
            }
        }),
{
    let t = s.push('0');
    assert(t.take(11) == s);
    lemma_upca_sum_unrolled(t);
    crate::laws::lemma_digit_values_push(s, '0');
    lemma_all_digits_first_none(s);
    lemma_mod10_complement(upca_sum(digit_values(s)));
    let full = s.push(digit_char(upca_check_value(digit_values(s))));
    assert(full.take(11) == s);
}

/// Completing twelve digits gives a code whose last digit `c` satisfies
/// `c = (10 - (d0 + d2 + ... + d10 + 3*(d1 + d3 + ... + d11)) % 10) % 10`
/// (face values); it is an ISBN-13 when the body starts with 978 or 979,
/// and an EAN-13 otherwise.
pub proof fn law_compute_isbn13_completes_weighted_sum(s: Seq<char>)
    requires
        s.len() == 12,
        forall|k: int| 0 <= k < 12 ==> '0' <= #[trigger] s[k] && s[k] <= '9',
    ensures
        ({
            let d = |k: int| s[k] as int - 48;
            let body = d(0) + d(2) + d(4) + d(6) + d(8) + d(10) + 3 * (d(1) + d(3) + d(5) + d(7) + d(
                9,
            ) + d(11));
            let bookland = s[0] == '9' && s[1] == '7' && (s[2] == '8' || s[2] == '9');
            match compute_verdict(s) {
                Ok((kind, full)) => (kind == BarcodeKind::Isbn13 <==> bookland) && (kind
                    == BarcodeKind::Ean13 <==> !bookland) && full.len() == 13 && full.take(12) == s
                    && '0' <= full[12] && full[12] <= '9' && full[12] as int - 48 == (10 - body % 10)
                    % 10,
                Err(_) => false,
            }
        }),
{
    let t = s.push('0');
    assert(t.take(12) == s);
    lemma_isbn13_sum_unrolled(t);
    crate::laws::lemma_digit_values_push(s, '0');
    lemma_all_digits_first_none(s);
    lemma_mod10_complement(isbn13_sum(digit_values(s)));
    let full = s.push(digit_char(isbn13_check_value(digit_values(s))));
    assert(full.take(12) == s);
}

/// A thirteen-digit code that `check` accepts is reported as an ISBN-13
/// exactly when it starts with 978 or 979, and as an EAN-13 otherwise.
pub proof fn law_check_tells_isbn13_from_ean13(s: Seq<char>)
    requires
        s.len() == 13,
        check_verdict(s) is Ok,
    ensures
        ({
            let bookland = s[0] == '9' && s[1] == '7' && (s[2] == '8' || s[2] == '9');
            &&& (check_verdict(s) == Ok::<BarcodeKind, CheckError>(BarcodeKind::Isbn13) <==> bookland)
            &&& (check_verdict(s) == Ok::<BarcodeKind, CheckError>(BarcodeKind::Ean13) <==> !bookland)
        }),
{
}


/// The first character of a ten-character code that is neither a digit
/// nor, in the last place, `X` or `x`, is the one reported as invalid.
pub proof fn law_isbn10_reports_first_bad_character(s: Seq<char>, j: int)
    requires
        s.len() == 10,
        0 <= j < 10,
        !('0' <= s[j] && s[j] <= '9'),
        !(j == 9 && (s[j] == 'X' || s[j] == 'x')),
        forall|k: int| 0 <= k < j ==> '0' <= #[trigger] s[k] && s[k] <= '9',
    ensures
        isbn10_verdict(s) == Err::<(), CheckError>(CheckError::InvalidChar(s[j])),
{
    assert forall|k: int| 0 <= k < s.take(j).len() implies crate::isbn10::isbn10_char_ok(
        #[trigger] s.take(j)[k],
        k,
    ) by {
        assert(s.take(j)[k] == s[k]);
    }
    crate::laws::lemma_isbn10_all_ok_first_none(s.take(j));
    crate::isbn10::lemma_first_invalid_extends(s, j);
}

/// The first non-digit of a code being checked as an ISBN-13 / EAN-13 or a
/// UPC-A, or of a body being completed, is the one reported as invalid.
pub proof fn law_mod10_and_compute_report_first_non_digit(s: Seq<char>, j: int)
    requires
        0 <= j < s.len(),
        !('0' <= s[j] && s[j] <= '9'),
        forall|k: int| 0 <= k < j ==> '0' <= #[trigger] s[k] && s[k] <= '9',
    ensures
        s.len() == 13 ==> isbn13_verdict(s) == Err::<(), CheckError>(CheckError::InvalidChar(s[j])),
        s.len() == 12 ==> upca_verdict(s) == Err::<(), CheckError>(CheckError::InvalidChar(s[j])),
        (s.len() == 9 || s.len() == 11 || s.len() == 12) ==> compute_verdict(s) == Err::<
            (BarcodeKind, Seq<char>),
            CheckError,
        >(CheckError::InvalidChar(s[j])),
{
    assert forall|k: int| 0 <= k < s.take(j).len() implies crate::text::is_digit(
        #[trigger] s.take(j)[k],
    ) by {
        assert(s.take(j)[k] == s[k]);
    }
    lemma_all_digits_first_none(s.take(j));
    crate::text::lemma_first_non_digit_extends(s, j);
}

/// A code of the wrong length is reported with its length: `check` takes
/// 10, 12 or 13 characters, `compute` 9, 11 or 12, and each scheme's
/// checker its own length.
pub proof fn law_wrong_lengths_are_reported(s: Seq<char>)
    ensures
        !(s.len() == 10 || s.len() == 12 || s.len() == 13) ==> check_verdict(s) == Err::<
            BarcodeKind,
            CheckError,
        >(CheckError::WrongLength(s.len() as usize)),
        !(s.len() == 9 || s.len() == 11 || s.len() == 12) ==> compute_verdict(s) == Err::<
            (BarcodeKind, Seq<char>),
            CheckError,
        >(CheckError::WrongLength(s.len() as usize)),
        s.len() != 10 ==> isbn10_verdict(s) == Err::<(), CheckError>(
            CheckError::WrongLength(s.len() as usize),
        ),
        s.len() != 13 ==> isbn13_verdict(s) == Err::<(), CheckError>(
            CheckError::WrongLength(s.len() as usize),
        ),
        s.len() != 12 ==> upca_verdict(s) == Err::<(), CheckError>(
            CheckError::WrongLength(s.len() as usize),
        ),
{
}

/// `check` runs the scheme that the length picks and reports its answer:
/// ISBN-10 for ten characters, UPC-A for twelve, ISBN-13 / EAN-13 for
/// thirteen.
pub proof fn law_check_runs_the_scheme_of_its_length(s: Seq<char>, e: CheckError)
    ensures
        s.len() == 10 ==> (check_verdict(s) == Ok::<BarcodeKind, CheckError>(BarcodeKind::Isbn10)
            <==> isbn10_verdict(s) == Ok::<(), CheckError>(())),
        s.len() == 10 ==> (check_verdict(s) == Err::<BarcodeKind, CheckError>(e) <==> isbn10_verdict(
            s,
        ) == Err::<(), CheckError>(e)),
        s.len() == 12 ==> (check_verdict(s) == Ok::<BarcodeKind, CheckError>(BarcodeKind::UpcA)
            <==> upca_verdict(s) == Ok::<(), CheckError>(())),
        s.len() == 12 ==> (check_verdict(s) == Err::<BarcodeKind, CheckError>(e) <==> upca_verdict(
            s,
        ) == Err::<(), CheckError>(e)),
        s.len() == 13 ==> (check_verdict(s) is Ok <==> isbn13_verdict(s) == Ok::<(), CheckError>(())),
        s.len() == 13 ==> (check_verdict(s) == Err::<BarcodeKind, CheckError>(e) <==> isbn13_verdict(
            s,
        ) == Err::<(), CheckError>(e)),
{
}

/// Cleaning removes exactly the hyphens and spaces: it keeps every other
/// character, in order, and works piece by piece.
pub proof fn law_cleaning_removes_hyphens_and_spaces(a: Seq<char>, b: Seq<char>, c: char)
    ensures
        cleaned(Seq::<char>::empty()) == Seq::<char>::empty(),
        cleaned(seq![c]) == (if c == '-' || c == ' ' {
            Seq::<char>::empty()
        } else {
            seq![c]
        }),
        cleaned(a + b) == cleaned(a) + cleaned(b),
    decreases b.len(),
{
    let t = seq![c];
    let e = Seq::<char>::empty();
    assert(t.len() == 1);
    assert(t.drop_last() == e);
    assert(t.last() == c);
    assert(cleaned(e) == e);
    assert(e.push(c) == t);
    assert(cleaned(t) == (if crate::text::is_separator(t.last()) {
        cleaned(t.drop_last())
    } else {
        cleaned(t.drop_last()).push(t.last())
    }));
    assert(cleaned(seq![c]) == (if c == '-' || c == ' ' {
        Seq::<char>::empty()
    } else {
        seq![c]
    }));
    if b.len() > 0 {
        law_cleaning_removes_hyphens_and_spaces(a, b.drop_last(), c);
        assert((a + b).drop_last() == a + b.drop_last());
        assert((a + b).last() == b.last());
        let x = cleaned(a);
        let y = cleaned(b.drop_last());
        if !crate::text::is_separator(b.last()) {
            assert(x + y.push(b.last()) == (x + y).push(b.last()));
        }
    } else {
        assert(a + b == a);
    }
}


/// The number that a string of decimal digits denotes.
pub open spec fn digits_denote(s: Seq<char>) -> int
    decreases s.len(),
{
    if s.len() == 0 {
        0
    } else {
        10 * digits_denote(s.drop_last()) + (s.last() as int - 48)
    }
}

/// The decimal text used in error messages is made of digits, starts
/// with a nonzero digit unless the number is zero, and denotes the number.
pub proof fn law_decimal_text_denotes_the_number(n: nat)
    ensures
        decimal(n).len() >= 1,
        forall|k: int| 0 <= k < decimal(n).len() ==> '0' <= #[trigger] decimal(n)[k] && decimal(
            n,
        )[k] <= '9',
        n >= 10 ==> decimal(n)[0] != '0',
        digits_denote(decimal(n)) == n,
    decreases n,
{
    if n >= 10 {
        law_decimal_text_denotes_the_number(n / 10);
        let p = decimal(n / 10);
        let r = (n % 10) as int;
        assert(decimal(n).drop_last() == p);
        assert(decimal(n).last() == digit_char(r));
        assert(digit_char(r) as int == r + 48);
        assert(n == 10 * (n / 10) + r);
        assert(digits_denote(decimal(n)) == 10 * digits_denote(p) + (decimal(n).last() as int - 48));
        assert forall|k: int| 0 <= k < decimal(n).len() implies '0' <= #[trigger] decimal(n)[k]
            && decimal(n)[k] <= '9' by {
            if k < p.len() {
                assert(decimal(n)[k] == p[k]);
            }
        }
        if n / 10 < 10 {
            assert(decimal(n)[0] == p[0]);
        } else {
            assert(decimal(n)[0] == p[0]);
        }
    } else {
        let t = seq![digit_char(n as int)];
        assert(t.drop_last() == Seq::<char>::empty());
        assert(decimal(n) == t);
        assert(digit_char(n as int) as int == n + 48);
        assert(digits_denote(t) == 10 * digits_denote(t.drop_last()) + (t.last() as int - 48));
    }
}

} // verus!
