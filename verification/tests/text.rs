use which_bowl::text::{decimal_string, is_alphanumeric, is_whitespace, str_is_blank};

#[test]
fn whitespace_matches_std_for_every_char() {
    for code in 0..=0x10FFFFu32 {
        if let Some(c) = char::from_u32(code) {
            assert_eq!(is_whitespace(c), c.is_whitespace(), "U+{:04X}", code);
        }
    }
}

#[test]
fn alphanumeric_ascii_is_letters_and_digits() {
    for code in 0..128u32 {
        let c = char::from_u32(code).unwrap();
        assert_eq!(is_alphanumeric(c), c.is_ascii_alphanumeric());
    }
    assert!(is_alphanumeric('é'));
    assert!(!is_alphanumeric('—'));
}

#[test]
fn blank_strings() {
    assert!(str_is_blank(""));
    assert!(str_is_blank(" \t\n\u{3000}"));
    assert!(!str_is_blank("  x "));
}

#[test]
fn decimal_matches_to_string() {
    for n in [0u128, 1, 9, 10, 99, 100, 501, 12345, u64::MAX as u128, u128::MAX] {
        assert_eq!(decimal_string(n), n.to_string());
    }
}
