use katana::journal::types::{scan, CharClass};
use katana::text::{
    chars_of, is_account_token_char, is_all_whitespace, is_digit_char, is_letter_char,
    is_units_token_char, is_whitespace_char, slice_to_string,
};
use regex::Regex;

#[test]
fn white_space_is_what_the_standard_library_says() {
    let mut c = 0u32;
    while c <= 0x10FFFF {
        if let Some(ch) = char::from_u32(c) {
            assert_eq!(is_whitespace_char(ch), ch.is_whitespace(), "U+{c:04X}");
        }
        c += 1;
    }
}

#[test]
fn classes_agree_with_the_patterns() {
    let space = Regex::new(r"^\s$").unwrap();
    let account = Regex::new(r"^[[:alnum:]:-]$").unwrap();
    let units = Regex::new(r"^[a-zA-Z\$]$").unwrap();
    let mut c = 0u32;
    while c <= 0x3100 {
        if let Some(ch) = char::from_u32(c) {
            let text = ch.to_string();
            assert_eq!(is_whitespace_char(ch), space.is_match(&text), "U+{c:04X}");
            assert_eq!(is_account_token_char(ch), account.is_match(&text), "U+{c:04X}");
            assert_eq!(is_units_token_char(ch), units.is_match(&text), "U+{c:04X}");
            assert_eq!(is_digit_char(ch), ch.is_ascii_digit(), "U+{c:04X}");
            assert_eq!(is_letter_char(ch), ch.is_ascii_alphabetic(), "U+{c:04X}");
            assert_eq!(CharClass::Space.test(ch), ch.is_whitespace());
            assert_eq!(CharClass::Digit.test(ch), ch.is_ascii_digit());
            assert_eq!(CharClass::Account.test(ch), is_account_token_char(ch));
            assert_eq!(CharClass::Units.test(ch), is_units_token_char(ch));
        }
        c += 1;
    }
}

#[test]
fn strings_and_characters() {
    assert_eq!(chars_of("aé$ "), vec!['a', 'é', '$', ' ']);
    assert_eq!(chars_of(""), Vec::<char>::new());
    assert_eq!(slice_to_string("aé$ z", 1, 3), "é$");
    assert_eq!(slice_to_string("aé$ z", 5, 5), "");
    assert_eq!(slice_to_string("aé$ z", 0, 5), "aé$ z");
    assert!(is_all_whitespace(""));
    assert!(is_all_whitespace(" \t\u{a0}"));
    assert!(!is_all_whitespace(" x "));
}

#[test]
fn scanning_runs() {
    let v = chars_of("  ab12  $");
    assert_eq!(scan(&v, 0, CharClass::Space), 2);
    assert_eq!(scan(&v, 2, CharClass::Account), 6);
    assert_eq!(scan(&v, 2, CharClass::Units), 4);
    assert_eq!(scan(&v, 4, CharClass::Digit), 6);
    assert_eq!(scan(&v, 2, CharClass::Digit), 2);
    assert_eq!(scan(&v, 8, CharClass::Units), 9);
    assert_eq!(scan(&v, 9, CharClass::Units), 9);
}
