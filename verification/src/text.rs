//! Character-level helpers: separators, decimal digits, building strings.

use vstd::prelude::*;
use crate::kinds::CheckError;

verus! {

broadcast use vstd::string::group_string_axioms;

/// Hyphens and spaces are formatting only; they carry no data.
pub open spec fn is_separator(c: char) -> bool {
    c == '-' || c == ' '
}

/// The input with every hyphen and space removed, order kept.
pub open spec fn cleaned(s: Seq<char>) -> Seq<char>
    decreases s.len(),
{
    if s.len() == 0 {
        Seq::empty()
    } else if is_separator(s.last()) {
        cleaned(s.drop_last())
    } else {
        cleaned(s.drop_last()).push(s.last())
    }
}

/// Appends one character to a string (`String::push`).
/// Trusted: the new contents are the old contents followed by `c`.
#[verifier::external_body]
pub(crate) fn string_push(s: &mut String, c: char)
    ensures
        final(s)@ == old(s)@.push(c),
{
    s.push(c);
}

/// Removes hyphens and spaces from `input`.
pub fn clean(input: &str) -> (res: String)
    ensures
        res@ == cleaned(input@),
{
    let mut res = String::new();
    for c in it: input.chars()
        invariant
            it.seq() == input@,
            res@ == cleaned(input@.take(it.index() as int)),
    {
        proof {
            assert(input@.take(it.index() + 1).drop_last() == input@.take(it.index() as int));
        }
        if c != '-' && c != ' ' {
            string_push(&mut res, c);
        }
    }
    proof {
        assert(input@.take(input@.len() as int) == input@);
    }
    res
}

/// `c` is one of the ASCII digits `0` to `9`.
pub open spec fn is_digit(c: char) -> bool {
    '0' <= c && c <= '9'
}

/// The numeric value of an ASCII digit.
pub open spec fn digit_value(c: char) -> u32 {
    (c as int - 48) as u32
}

/// The ASCII digit character for a value below ten.
pub open spec fn digit_char(d: int) -> char {
    (d + 48) as char
}

/// The first character of `s` that is not a digit, if any.
pub open spec fn first_non_digit(s: Seq<char>) -> Option<char>
    decreases s.len(),
{
    if s.len() == 0 {
        None
    } else {
        match first_non_digit(s.drop_last()) {
            Some(c) => Some(c),
            None => if is_digit(s.last()) {
                None
            } else {
                Some(s.last())
            },
        }
    }
}

/// The values of a sequence of digit characters.
pub open spec fn digit_values(s: Seq<char>) -> Seq<u32> {
    s.map_values(|c: char| digit_value(c))
}

/// Once a prefix holds a non-digit, every longer prefix reports it.
pub proof fn lemma_first_non_digit_extends(s: Seq<char>, i: int)
    requires
        0 <= i < s.len(),
        first_non_digit(s.take(i)) is None,
        !is_digit(s[i]),
    ensures
        first_non_digit(s) == Some(s[i]),
    decreases s.len(),
{
    if i == s.len() - 1 {
        assert(s.drop_last() == s.take(i));
    } else {
        assert(s.drop_last().take(i) == s.take(i));
        lemma_first_non_digit_extends(s.drop_last(), i);
    }
}

/// With no non-digit in `s`, every character of `s` is a digit.
pub proof fn lemma_first_non_digit_none(s: Seq<char>)
    requires
        first_non_digit(s) is None,
    ensures
        forall|k: int| 0 <= k < s.len() ==> is_digit(#[trigger] s[k]),
    decreases s.len(),
{
    if s.len() > 0 {
        lemma_first_non_digit_none(s.drop_last());
        assert forall|k: int| 0 <= k < s.len() implies is_digit(#[trigger] s[k]) by {
            if k < s.len() - 1 {
                assert(s[k] == s.drop_last()[k]);
            }
        }
    }
}

/// When every character of `s` is a digit, there is no non-digit to report.
pub proof fn lemma_all_digits_first_none(s: Seq<char>)
    requires
        forall|k: int| 0 <= k < s.len() ==> is_digit(#[trigger] s[k]),
    ensures
        first_non_digit(s) is None,
    decreases s.len(),
{
    if s.len() > 0 {
        assert forall|k: int| 0 <= k < s.drop_last().len() implies is_digit(
            #[trigger] s.drop_last()[k],
        ) by {
            assert(s.drop_last()[k] == s[k]);
        }
        lemma_all_digits_first_none(s.drop_last());
    }
}

/// Converts every character to its digit value, or reports the first
/// character that is not a decimal digit.
pub fn to_digits(chars: &[char]) -> (r: Result<Vec<u32>, CheckError>)
    ensures
        match first_non_digit(chars@) {
            Some(c) => r == Err::<Vec<u32>, CheckError>(CheckError::InvalidChar(c)),
            None => r matches Ok(v) && v@ == digit_values(chars@),
        },
{
    let mut digits: Vec<u32> = Vec::new();
    let mut i: usize = 0;
    while i < chars.len()
        invariant
            i <= chars@.len(),
            first_non_digit(chars@.take(i as int)) is None,
            digits@ == digit_values(chars@.take(i as int)),
        decreases chars@.len() - i,
    {
        proof {
            assert(chars@.take(i + 1).drop_last() == chars@.take(i as int));
        }
        match to_digit(chars[i]) {
            Some(d) => {
                digits.push(d);
                proof {
                    assert(digits@ == digit_values(chars@.take(i + 1)));
                }
            },
            None => {
                proof {
                    lemma_first_non_digit_extends(chars@, i as int);
                }
                return Err(CheckError::InvalidChar(chars[i]));
            },
        }
        i = i + 1;
    }
    proof {
        assert(chars@.take(chars@.len() as int) == chars@);
    }
    Ok(digits)
}

/// The value of a decimal digit character (`char::to_digit(10)`).
pub fn to_digit(c: char) -> (r: Option<u32>)
    ensures
        r == (if is_digit(c) {
            Some(digit_value(c))
        } else {
            None
        }),
{
    if c >= '0' && c <= '9' {
        Some(c as u32 - 48)
    } else {
        None
    }
}

/// The character for a decimal digit value (`char::from_digit(d, 10)`).
pub fn from_digit(d: u32) -> (c: char)
    requires
        d < 10,
    ensures
        c == digit_char(d as int),
        is_digit(c),
        digit_value(c) == d,
{
    let b: u8 = 48u8 + d as u8;
    b as char
}

/// The decimal notation of `n`, without leading zeros.
pub open spec fn decimal(n: nat) -> Seq<char>
    decreases n,
{
    if n < 10 {
        seq![digit_char(n as int)]
    } else {
        decimal(n / 10).push(digit_char((n % 10) as int))
    }
}

/// Appends the decimal notation of `n` to `out`.
pub fn push_decimal(out: &mut String, n: usize)
    ensures
        final(out)@ == old(out)@ + decimal(n as nat),
    decreases n,
{
    if n >= 10 {
        push_decimal(out, n / 10);
    }
    let d = (n % 10) as u32;
    string_push(out, from_digit(d));
}

/// The characters of a string, in order.
pub fn chars_of(s: &String) -> (v: Vec<char>)
    ensures
        v@ == s@,
{
    let mut v: Vec<char> = Vec::new();
    for c in it: s.as_str().chars()
        invariant
            it.seq() == s@,
            v@ == s@.take(it.index() as int),
    {
        v.push(c);
    }
    proof {
        assert(s@.take(s@.len() as int) == s@);
    }
    v
}

} // verus!
