//! Properties of the library as a whole: completing a body yields a valid
//! code, the reported check digit repairs a code, separators never matter,
//! and a single wrong character never slips through.

use vstd::prelude::*;
use crate::dispatch::{check_verdict, compute_verdict, thirteen_digit_kind};
use crate::isbn10::{
    isbn10_char_ok, isbn10_check_char, isbn10_first_invalid, isbn10_sum, isbn10_value,
    isbn10_verdict,
};
use crate::kinds::{BarcodeKind, CheckError};
use crate::mod10::{
    isbn13_check_value, isbn13_sum, isbn13_verdict, isbn13_weight, upca_check_value, upca_sum,
    upca_verdict, upca_weight,
};
use crate::text::{
    cleaned, digit_char, digit_value, digit_values, first_non_digit, is_digit, is_separator,
    lemma_all_digits_first_none, lemma_first_non_digit_none,
};

verus! {

/// Text without separators comes out of cleaning unchanged.
proof fn lemma_cleaned_no_separators(s: Seq<char>)
    requires
        forall|i: int| 0 <= i < s.len() ==> !is_separator(#[trigger] s[i]),
    ensures
        cleaned(s) == s,
    decreases s.len(),
{
    if s.len() > 0 {
        assert forall|i: int| 0 <= i < s.drop_last().len() implies !is_separator(#[trigger] s.drop_last()[i]) by {
            assert(s.drop_last()[i] == s[i]);
        }
        lemma_cleaned_no_separators(s.drop_last());
        assert(s.drop_last().push(s.last()) == s);
    }
}

/// Digit values commute with taking a prefix and with appending.
pub(crate) proof fn lemma_digit_values_push(s: Seq<char>, c: char)
    ensures
        digit_values(s.push(c)) == digit_values(s).push(digit_value(c)),
        digit_values(s.push(c)).take(s.len() as int) == digit_values(s),
{
    assert(digit_values(s.push(c)) =~= digit_values(s).push(digit_value(c)));
    assert(digit_values(s.push(c)).take(s.len() as int) =~= digit_values(s));
}

/// Nine digits followed by their ISBN-10 check character make a valid ISBN-10.
proof fn lemma_isbn10_completion(b: Seq<char>)
    requires
        b.len() == 9,
        first_non_digit(b) is None,
    ensures
        isbn10_verdict(b.push(isbn10_check_char(b))) == Ok::<(), CheckError>(()),
{
    let c = isbn10_check_char(b);
    let t = b.push(c);
    lemma_first_non_digit_none(b);
    assert(t.drop_last() == b);
    assert forall|k: int| 0 <= k < 10 implies isbn10_char_ok(#[trigger] t[k], k) by {
        if k < 9 {
            assert(t[k] == b[k]);
        }
    }
    lemma_isbn10_all_ok_first_none(t);
    let r = (11 - isbn10_sum(b) % 11) % 11;
    assert(isbn10_value(c, 9) == r);
    assert(t.len() == 10 && t.last() == c);
    assert(isbn10_sum(t) == isbn10_sum(t.drop_last()) + isbn10_value(t.last(), 9) * 1);
    assert(isbn10_sum(t) == isbn10_sum(b) + r);
}

/// With every character allowed where it stands, nothing is reported invalid.
pub(crate) proof fn lemma_isbn10_all_ok_first_none(s: Seq<char>)
    requires
        forall|k: int| 0 <= k < s.len() ==> isbn10_char_ok(#[trigger] s[k], k),
    ensures
        isbn10_first_invalid(s) is None,
    decreases s.len(),
{
    if s.len() > 0 {
        assert forall|k: int| 0 <= k < s.drop_last().len() implies isbn10_char_ok(
            #[trigger] s.drop_last()[k],
            k,
        ) by {
            assert(s.drop_last()[k] == s[k]);
        }
        lemma_isbn10_all_ok_first_none(s.drop_last());
    }
}

/// Twelve digits followed by their ISBN-13 check digit make a valid ISBN-13 / EAN-13.
proof fn lemma_isbn13_completion(b: Seq<char>)
    requires
        b.len() == 12,
        first_non_digit(b) is None,
    ensures
        isbn13_verdict(b.push(digit_char(isbn13_check_value(digit_values(b))))) == Ok::<(), CheckError>(()),
{
    let r = isbn13_check_value(digit_values(b));
    let c = digit_char(r);
    let t = b.push(c);
    assert(is_digit(c) && digit_value(c) == r);
    lemma_first_non_digit_none(b);
    assert(t.drop_last() == b);
    lemma_digit_values_push(b, c);
    let d = digit_values(t);
    assert(d.drop_last() == digit_values(b));
    assert(isbn13_sum(d) == isbn13_sum(digit_values(b)) + r);
}

/// Eleven digits followed by their UPC-A check digit make a valid UPC-A.
proof fn lemma_upca_completion(b: Seq<char>)
    requires
        b.len() == 11,
        first_non_digit(b) is None,
    ensures
        upca_verdict(b.push(digit_char(upca_check_value(digit_values(b))))) == Ok::<(), CheckError>(()),
{
    let r = upca_check_value(digit_values(b));
    let c = digit_char(r);
    let t = b.push(c);
    assert(is_digit(c) && digit_value(c) == r);
    lemma_first_non_digit_none(b);
    assert(t.drop_last() == b);
    lemma_digit_values_push(b, c);
    let d = digit_values(t);
    assert(d.drop_last() == digit_values(b));
    assert(upca_sum(d) == upca_sum(digit_values(b)) + r);
}

/// Completing a body and then checking the completed code accepts it as
/// the same kind: whatever `compute` returns, `check` accepts, and the
/// completed code is already free of separators.
pub proof fn law_compute_then_check(input: Seq<char>, kind: BarcodeKind, full: Seq<char>)
    requires
        compute_verdict(cleaned(input)) == Ok::<(BarcodeKind, Seq<char>), CheckError>((kind, full)),
    ensures
        cleaned(full) == full,
        check_verdict(full) == Ok::<BarcodeKind, CheckError>(kind),
        check_verdict(cleaned(full)) == Ok::<BarcodeKind, CheckError>(kind),
{
    let b = cleaned(input);
    lemma_first_non_digit_none(b);
    let c = full.last();
    assert(full == b.push(c));
    assert(full.drop_last() == b);
    if b.len() == 9 {
        lemma_isbn10_completion(b);
        assert(isbn10_char_ok(c, 9));
    } else if b.len() == 11 {
        lemma_upca_completion(b);
        assert(is_digit(c));
    } else {
        lemma_isbn13_completion(b);
        assert(is_digit(c));
        assert(thirteen_digit_kind(full) == thirteen_digit_kind(b));
    }
    assert forall|i: int| 0 <= i < full.len() implies !is_separator(#[trigger] full[i]) by {
        if i < b.len() {
            assert(full[i] == b[i]);
        }
    }
    lemma_cleaned_no_separators(full);
}

/// With no invalid character, each character may stand where it stands.
proof fn lemma_isbn10_first_none_all_ok(s: Seq<char>)
    requires
        isbn10_first_invalid(s) is None,
    ensures
        forall|k: int| 0 <= k < s.len() ==> isbn10_char_ok(#[trigger] s[k], k),
    decreases s.len(),
{
    if s.len() > 0 {
        lemma_isbn10_first_none_all_ok(s.drop_last());
        assert forall|k: int| 0 <= k < s.len() implies isbn10_char_ok(#[trigger] s[k], k) by {
            if k < s.len() - 1 {
                assert(s[k] == s.drop_last()[k]);
            }
        }
    }
}

/// A prefix of all-digit text is all digits.
proof fn lemma_digits_prefix(s: Seq<char>, n: int)
    requires
        0 <= n <= s.len(),
        first_non_digit(s) is None,
    ensures
        first_non_digit(s.take(n)) is None,
        digit_values(s).take(n) == digit_values(s.take(n)),
{
    lemma_first_non_digit_none(s);
    assert forall|k: int| 0 <= k < s.take(n).len() implies is_digit(#[trigger] s.take(n)[k]) by {
        assert(s.take(n)[k] == s[k]);
    }
    lemma_all_digits_first_none(s.take(n));
    assert(digit_values(s).take(n) =~= digit_values(s.take(n)));
}

/// When a check fails only on its check digit, the error names the
/// character that was found (the last one), a different expected
/// character, and putting the expected character in its place gives a
/// code that checks out as valid.
pub proof fn law_expected_digit_repairs(input: Seq<char>, expected: char, found: char)
    requires
        check_verdict(cleaned(input)) == Err::<BarcodeKind, CheckError>(
            CheckError::BadCheckDigit { expected, found },
        ),
    ensures
        found == cleaned(input).last(),
        expected != found,
        check_verdict(cleaned(input).drop_last().push(expected)) is Ok,
{
    let s = cleaned(input);
    let n = s.len();
    let body = s.drop_last();
    assert(body == s.take(n - 1));
    if n == 10 {
        lemma_isbn10_first_none_all_ok(s);
        assert forall|k: int| 0 <= k < body.len() implies is_digit(#[trigger] body[k]) by {
            assert(body[k] == s[k]);
            assert(isbn10_char_ok(s[k], k));
        }
        lemma_all_digits_first_none(body);
        lemma_isbn10_completion(body);
    } else if n == 12 {
        lemma_digits_prefix(s, 11);
        lemma_upca_completion(body);
    } else {
        lemma_digits_prefix(s, 12);
        lemma_isbn13_completion(body);
    }
    if expected == found {
        assert(body.push(expected) == s);
    }
}

/// Cleaning leaves no separator behind.
proof fn lemma_cleaned_has_no_separators(s: Seq<char>)
    ensures
        forall|i: int| 0 <= i < cleaned(s).len() ==> !is_separator(#[trigger] cleaned(s)[i]),
    decreases s.len(),
{
    if s.len() > 0 {
        let p = cleaned(s.drop_last());
        lemma_cleaned_has_no_separators(s.drop_last());
        assert forall|i: int| 0 <= i < cleaned(s).len() implies !is_separator(
            #[trigger] cleaned(s)[i],
        ) by {
            if i < p.len() {
                assert(cleaned(s)[i] == p[i]);
            }
        }
    }
}

/// Cleaning twice is cleaning once: cleaned text holds no hyphen or space.
pub proof fn law_cleaning_is_idempotent(input: Seq<char>)
    ensures
        cleaned(cleaned(input)) == cleaned(input),
        forall|i: int|
            0 <= i < cleaned(input).len() ==> !is_separator(#[trigger] cleaned(input)[i]),
{
    lemma_cleaned_has_no_separators(input);
    lemma_cleaned_no_separators(cleaned(input));
}

/// Inserting a hyphen or a space anywhere in the input leaves the cleaned
/// text, and so every check and every computed code, unchanged.
pub proof fn law_separators_are_ignored(input: Seq<char>, i: int, sep: char)
    requires
        0 <= i <= input.len(),
        is_separator(sep),
    ensures
        cleaned(input.insert(i, sep)) == cleaned(input),
        check_verdict(cleaned(input.insert(i, sep))) == check_verdict(cleaned(input)),
        compute_verdict(cleaned(input.insert(i, sep))) == compute_verdict(cleaned(input)),
    decreases input.len(),
{
    let t = input.insert(i, sep);
    if i == input.len() {
        assert(t.drop_last() == input);
    } else {
        law_separators_are_ignored(input.drop_last(), i, sep);
        assert(t.drop_last() == input.drop_last().insert(i, sep));
        assert(t.last() == input.last());
    }
}

/// Changing one character of an ISBN-10 moves its weighted sum by the
/// change in value times that position's weight.
proof fn lemma_isbn10_sum_update(s: Seq<char>, i: int, c: char)
    requires
        0 <= i < s.len(),
    ensures
        isbn10_sum(s.update(i, c)) == isbn10_sum(s) + (isbn10_value(c, i) - isbn10_value(s[i], i)) * (
        10 - i),
    decreases s.len(),
{
    let t = s.update(i, c);
    let n = s.len();
    if i == n - 1 {
        assert(t.drop_last() == s.drop_last());
        let a = isbn10_value(c, i);
        let b = isbn10_value(s[i], i);
        let w = 10 - i;
        assert(a * w == b * w + (a - b) * w) by (nonlinear_arith);
    } else {
        lemma_isbn10_sum_update(s.drop_last(), i, c);
        assert(t.drop_last() == s.drop_last().update(i, c));
    }
}

/// Changing one value of a digit sequence moves both weighted sums by the
/// change times that position's weight.
proof fn lemma_mod10_sums_update(d: Seq<u32>, i: int, x: u32)
    requires
        0 <= i < d.len(),
    ensures
        isbn13_sum(d.update(i, x)) == isbn13_sum(d) + (x - d[i]) * isbn13_weight(i),
        upca_sum(d.update(i, x)) == upca_sum(d) + (x - d[i]) * upca_weight(i),
    decreases d.len(),
{
    let t = d.update(i, x);
    let n = d.len();
    if i == n - 1 {
        assert(t.drop_last() == d.drop_last());
        assert(t.last() == x);
        let a = x as int;
        let b = d[i] as int;
        let w1 = isbn13_weight(i);
        let w2 = upca_weight(i);
        assert(a * w1 == b * w1 + (a - b) * w1) by (nonlinear_arith);
        assert(a * w2 == b * w2 + (a - b) * w2) by (nonlinear_arith);
    } else {
        lemma_mod10_sums_update(d.drop_last(), i, x);
        assert(t.drop_last() == d.drop_last().update(i, x));
        assert(t.last() == d.last());
    }
}

/// A nonzero change of at most ten, times a weight from one to ten, is
/// never a multiple of eleven.
proof fn lemma_mod11_detects(sum: int, delta: int, w: int)
    requires
        sum % 11 == 0,
        -10 <= delta <= 10,
        delta != 0,
        1 <= w <= 10,
    ensures
        (sum + delta * w) % 11 != 0,
{
    assert((sum + delta * w) % 11 != 0) by (nonlinear_arith)
        requires
            sum % 11 == 0,
            -10 <= delta <= 10,
            delta != 0,
            1 <= w <= 10,
    ;
}

/// A nonzero change of at most nine, times a weight of one or three, is
/// never a multiple of ten.
proof fn lemma_mod10_detects(sum: int, delta: int, w: int)
    requires
        sum % 10 == 0,
        -9 <= delta <= 9,
        delta != 0,
        w == 1 || w == 3,
    ensures
        (sum + delta * w) % 10 != 0,
{
    if w == 1 {
        assert((sum + delta) % 10 != 0);
    } else {
        assert((sum + delta * 3) % 10 != 0);
    }
}

/// An invalid character anywhere is reported.
proof fn lemma_isbn10_bad_char_found(s: Seq<char>, k: int)
    requires
        0 <= k < s.len(),
        !isbn10_char_ok(s[k], k),
    ensures
        isbn10_first_invalid(s) is Some,
{
    if isbn10_first_invalid(s) is None {
        lemma_isbn10_first_none_all_ok(s);
    }
}

/// A non-digit anywhere is reported.
proof fn lemma_non_digit_found(s: Seq<char>, k: int)
    requires
        0 <= k < s.len(),
        !is_digit(s[k]),
    ensures
        first_non_digit(s) is Some,
{
    if first_non_digit(s) is None {
        lemma_first_non_digit_none(s);
    }
}

/// `c` stands for the value ten in the last place of an ISBN-10.
pub open spec fn means_ten(c: char) -> bool {
    c == 'X' || c == 'x'
}

/// Replacing any one character of a valid ISBN-10 by a character of a
/// different meaning gives a code that no longer checks out.
pub proof fn law_isbn10_catches_one_wrong_character(s: Seq<char>, i: int, c: char)
    requires
        isbn10_verdict(s) == Ok::<(), CheckError>(()),
        0 <= i < s.len(),
        c != s[i],
        !(means_ten(c) && means_ten(s[i])),
    ensures
        isbn10_verdict(s.update(i, c)) is Err,
{
    let t = s.update(i, c);
    if !isbn10_char_ok(c, i) {
        lemma_isbn10_bad_char_found(t, i);
    } else {
        lemma_isbn10_first_none_all_ok(s);
        assert forall|k: int| 0 <= k < t.len() implies isbn10_char_ok(#[trigger] t[k], k) by {
            if k != i {
                assert(t[k] == s[k]);
            }
        }
        lemma_isbn10_all_ok_first_none(t);
        lemma_isbn10_sum_update(s, i, c);
        let delta = isbn10_value(c, i) - isbn10_value(s[i], i);
        assert(isbn10_char_ok(s[i], i));
        assert(delta != 0);
        lemma_mod11_detects(isbn10_sum(s), delta, 10 - i);
    }
}

/// Replacing any one character of a valid ISBN-13 / EAN-13 by another
/// character gives a code that no longer checks out.
pub proof fn law_isbn13_catches_one_wrong_character(s: Seq<char>, i: int, c: char)
    requires
        isbn13_verdict(s) == Ok::<(), CheckError>(()),
        0 <= i < s.len(),
        c != s[i],
    ensures
        isbn13_verdict(s.update(i, c)) is Err,
{
    let t = s.update(i, c);
    if !is_digit(c) {
        lemma_non_digit_found(t, i);
    } else {
        lemma_first_non_digit_none(s);
        assert forall|k: int| 0 <= k < t.len() implies is_digit(#[trigger] t[k]) by {
            if k != i {
                assert(t[k] == s[k]);
            }
        }
        lemma_all_digits_first_none(t);
        assert(digit_values(t) =~= digit_values(s).update(i, digit_value(c)));
        lemma_mod10_sums_update(digit_values(s), i, digit_value(c));
        let delta = digit_value(c) - digit_value(s[i]);
        assert(is_digit(s[i]));
        assert(delta != 0);
        lemma_mod10_detects(isbn13_sum(digit_values(s)), delta, isbn13_weight(i));
    }
}

/// Replacing any one character of a valid UPC-A by another character
/// gives a code that no longer checks out.
pub proof fn law_upca_catches_one_wrong_character(s: Seq<char>, i: int, c: char)
    requires
        upca_verdict(s) == Ok::<(), CheckError>(()),
        0 <= i < s.len(),
        c != s[i],
    ensures
        upca_verdict(s.update(i, c)) is Err,
{
    let t = s.update(i, c);
    if !is_digit(c) {
        lemma_non_digit_found(t, i);
    } else {
        lemma_first_non_digit_none(s);
        assert forall|k: int| 0 <= k < t.len() implies is_digit(#[trigger] t[k]) by {
            if k != i {
                assert(t[k] == s[k]);
            }
        }
        lemma_all_digits_first_none(t);
        assert(digit_values(t) =~= digit_values(s).update(i, digit_value(c)));
        lemma_mod10_sums_update(digit_values(s), i, digit_value(c));
        let delta = digit_value(c) - digit_value(s[i]);
        assert(is_digit(s[i]));
        assert(delta != 0);
        lemma_mod10_detects(upca_sum(digit_values(s)), delta, upca_weight(i));
    }
}

/// Swapping two neighbouring, different characters of a valid ISBN-10
/// gives a code that no longer checks out.
pub proof fn law_isbn10_catches_swapped_neighbours(s: Seq<char>, i: int)
    requires
        isbn10_verdict(s) == Ok::<(), CheckError>(()),
        0 <= i,
        i + 1 < s.len(),
        s[i] != s[i + 1],
    ensures
        isbn10_verdict(s.update(i, s[i + 1]).update(i + 1, s[i])) is Err,
{
    let u = s.update(i, s[i + 1]);
    let t = u.update(i + 1, s[i]);
    lemma_isbn10_first_none_all_ok(s);
    if !isbn10_char_ok(t[i], i) {
        lemma_isbn10_bad_char_found(t, i);
    } else if !isbn10_char_ok(t[i + 1], i + 1) {
        lemma_isbn10_bad_char_found(t, i + 1);
    } else {
        assert forall|k: int| 0 <= k < t.len() implies isbn10_char_ok(#[trigger] t[k], k) by {
            if k != i && k != i + 1 {
                assert(t[k] == s[k]);
            }
        }
        lemma_isbn10_all_ok_first_none(t);
        lemma_isbn10_sum_update(s, i, s[i + 1]);
        lemma_isbn10_sum_update(u, i + 1, s[i]);
        assert(u[i + 1] == s[i + 1]);
        let a = isbn10_value(s[i], i);
        let b = isbn10_value(s[i + 1], i + 1);
        assert(is_digit(s[i + 1]) && is_digit(s[i]));
        assert(isbn10_value(s[i + 1], i) == b);
        assert(isbn10_value(s[i], i + 1) == a);
        assert(a != b);
        let w = 10 - i;
        assert((b - a) * w + (a - b) * (w - 1) == b - a) by (nonlinear_arith);
        lemma_mod11_detects(isbn10_sum(s), b - a, 1);
    }
}

} // verus!
