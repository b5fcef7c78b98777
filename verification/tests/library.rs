//! Further cases: check digits worked out by hand, the messages shown to
//! users, and the library's laws on concrete codes.

use isbn_checksum::{
    check, check_ean13, check_isbn10, check_isbn13, check_upca, clean, compute, BarcodeKind,
    CheckError,
};

#[test]
fn clean_drops_hyphens_and_spaces_only() {
    assert_eq!(clean("978-0 306-40615-7"), "9780306406157");
    assert_eq!(clean(" - "), "");
    assert_eq!(clean("ab_c.d"), "ab_c.d");
}

#[test]
fn isbn10_expected_digit_can_be_x() {
    // 156881111 completes with X; any other last digit reports X as expected
    assert_eq!(
        check_isbn10("1568811110"),
        Err(CheckError::BadCheckDigit { expected: 'X', found: '0' })
    );
}

#[test]
fn isbn10_x_found_but_digit_expected() {
    assert_eq!(
        check_isbn10("047195869X"),
        Err(CheckError::BadCheckDigit { expected: '7', found: 'X' })
    );
}

#[test]
fn isbn10_first_invalid_character_is_reported() {
    assert_eq!(check_isbn10("04A19B8697"), Err(CheckError::InvalidChar('A')));
    assert_eq!(check_isbn10("04719586x7"), Err(CheckError::InvalidChar('x')));
}

#[test]
fn length_counts_characters_not_bytes() {
    assert_eq!(check_isbn13("978030640615é"), Err(CheckError::InvalidChar('é')));
    assert_eq!(check("é"), Err(CheckError::WrongLength(1)));
}

#[test]
fn isbn13_expected_digit_from_weights() {
    // 9*1+7*3+8*1+0*3+3*1+0*3+6*1+4*3+0*1+6*3+1*1+5*3 = 93, so 7 completes it
    assert_eq!(
        check_isbn13("9780306406150"),
        Err(CheckError::BadCheckDigit { expected: '7', found: '0' })
    );
    assert_eq!(check_ean13("9780306406157"), Ok(()));
}

#[test]
fn upca_expected_digit_from_weights() {
    // 0*3+3*1+6*3+0+0+0+2*3+9*1+1*3+4*1+5*3 = 58, so 2 completes it
    assert_eq!(
        check_upca("036000291459"),
        Err(CheckError::BadCheckDigit { expected: '2', found: '9' })
    );
}

#[test]
fn check_reports_errors_of_the_chosen_scheme() {
    assert_eq!(
        check("0471958690"),
        Err(CheckError::BadCheckDigit { expected: '7', found: '0' })
    );
    assert_eq!(check("03600029145X"), Err(CheckError::InvalidChar('X')));
    assert_eq!(
        check("9790306406157"),
        Err(CheckError::BadCheckDigit { expected: '6', found: '7' })
    );
    assert_eq!(check("9790306406156"), Ok(BarcodeKind::Isbn13));
    assert_eq!(check("97"), Err(CheckError::WrongLength(2)));
    assert_eq!(check("12345678901"), Err(CheckError::WrongLength(11)));
}

#[test]
fn compute_rejects_x_in_a_body() {
    assert_eq!(compute("15688111X"), Err(CheckError::InvalidChar('X')));
    assert_eq!(compute(""), Err(CheckError::WrongLength(0)));
}

#[test]
fn computed_codes_check_out() {
    for body in ["047195869", "156881111", "03600029145", "978030640615", "400638133393", "000000000", "123 456 789"] {
        let (kind, full) = compute(body).unwrap();
        assert_eq!(check(&full), Ok(kind), "body: {body:?}");
        assert_eq!(clean(&full), full);
    }
}

#[test]
fn expected_digit_repairs_the_code() {
    for code in ["0471958690", "9780306406158", "036000291450", "1568811110", "4006381333932"] {
        match check(code) {
            Err(CheckError::BadCheckDigit { expected, found }) => {
                assert_eq!(code.chars().last(), Some(found));
                assert_ne!(expected, found);
                let mut repaired: String = code.chars().take(code.chars().count() - 1).collect();
                repaired.push(expected);
                assert!(check(&repaired).is_ok(), "code: {code:?}");
            }
            other => panic!("unexpected result {other:?} for {code:?}"),
        }
    }
}

#[test]
fn separators_anywhere_change_nothing() {
    assert_eq!(check("-9780306406157 "), check("9780306406157"));
    assert_eq!(check("1 5-6 8 8 1 1 1 1 X"), Ok(BarcodeKind::Isbn10));
    assert_eq!(compute(" 97803064061-5 "), compute("978030640615"));
}

#[test]
fn one_wrong_digit_is_caught() {
    let valid = "9780306406157";
    for i in 0..13 {
        for d in '0'..='9' {
            let mut chars: Vec<char> = valid.chars().collect();
            if chars[i] == d {
                continue;
            }
            chars[i] = d;
            let changed: String = chars.into_iter().collect();
            assert!(check_isbn13(&changed).is_err(), "changed: {changed:?}");
        }
    }
    let valid = "036000291452";
    for i in 0..12 {
        for d in '0'..='9' {
            let mut chars: Vec<char> = valid.chars().collect();
            if chars[i] == d {
                continue;
            }
            chars[i] = d;
            let changed: String = chars.into_iter().collect();
            assert!(check_upca(&changed).is_err(), "changed: {changed:?}");
        }
    }
    let valid = "156881111X";
    for i in 0..10 {
        for d in ['0', '1', '2', '3', '4', '5', '6', '7', '8', '9', 'X'] {
            let mut chars: Vec<char> = valid.chars().collect();
            if chars[i] == d {
                continue;
            }
            chars[i] = d;
            let changed: String = chars.into_iter().collect();
            assert!(check_isbn10(&changed).is_err(), "changed: {changed:?}");
        }
    }
    // lower-case x means the same as X
    assert_eq!(check_isbn10("156881111x"), Ok(()));
}

#[test]
fn isbn10_swapped_neighbours_are_caught() {
    let valid: Vec<char> = "0471958697".chars().collect();
    for i in 0..9 {
        if valid[i] == valid[i + 1] {
            continue;
        }
        let mut chars = valid.clone();
        chars.swap(i, i + 1);
        let swapped: String = chars.into_iter().collect();
        assert!(check_isbn10(&swapped).is_err(), "swapped: {swapped:?}");
    }
}

#[test]
fn kind_names() {
    assert_eq!(BarcodeKind::Isbn10.name(), "ISBN-10");
    assert_eq!(BarcodeKind::Isbn13.name(), "ISBN-13");
    assert_eq!(BarcodeKind::UpcA.name(), "UPC-A");
    assert_eq!(BarcodeKind::Ean13.name(), "EAN-13");
}

#[test]
fn error_messages() {
    assert_eq!(
        CheckError::WrongLength(9).message(),
        "unexpected length: 9 characters after removing separators"
    );
    assert_eq!(
        CheckError::WrongLength(1024).message(),
        "unexpected length: 1024 characters after removing separators"
    );
    assert_eq!(
        CheckError::WrongLength(0).message(),
        "unexpected length: 0 characters after removing separators"
    );
    assert_eq!(CheckError::InvalidChar('A').message(), "unexpected character 'A'");
    assert_eq!(
        CheckError::BadCheckDigit { expected: '7', found: '0' }.message(),
        "check digit should be '7', found '0'"
    );
}
