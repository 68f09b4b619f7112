use firewall::text::{
    chars_of, decimal_string, join, same_text, to_upper_case, whitespace, zero_padded_string,
};

#[test]
fn chars_of_gives_the_characters() {
    assert_eq!(chars_of("aß→z"), vec!['a', 'ß', '→', 'z']);
    assert_eq!(chars_of(""), Vec::<char>::new());
}

#[test]
fn decimal_of_small_and_large_numbers() {
    assert_eq!(decimal_string(0), "0");
    assert_eq!(decimal_string(7), "7");
    assert_eq!(decimal_string(10), "10");
    assert_eq!(decimal_string(1234567890), "1234567890");
    assert_eq!(decimal_string(u64::MAX), "18446744073709551615");
}

#[test]
fn zero_padding_fills_up_to_the_width() {
    assert_eq!(zero_padded_string(5, 2), "05");
    assert_eq!(zero_padded_string(0, 2), "00");
    assert_eq!(zero_padded_string(59, 2), "59");
    assert_eq!(zero_padded_string(123, 2), "123");
    assert_eq!(zero_padded_string(7, 4), "0007");
    assert_eq!(zero_padded_string(2024, 4), "2024");
    assert_eq!(zero_padded_string(3, 0), "3");
}

#[test]
fn whitespace_is_the_unicode_property() {
    for code in 0..=0x10FFFFu32 {
        if let Some(c) = char::from_u32(code) {
            assert_eq!(whitespace(c), c.is_whitespace(), "U+{:04X}", code);
        }
    }
}

#[test]
fn same_text_compares_characters() {
    assert!(same_text("LIST", "LIST"));
    assert!(same_text("", ""));
    assert!(!same_text("LIST", "LISt"));
    assert!(!same_text("LIST", "LIST "));
    assert!(!same_text("LIS", "LIST"));
}

#[test]
fn join_puts_the_separator_between() {
    assert_eq!(join(&vec![], ", "), "");
    assert_eq!(join(&vec!["a".to_string()], ", "), "a");
    assert_eq!(join(&vec!["a".to_string(), "b".to_string(), "c".to_string()], ", "), "a, b, c");
    assert_eq!(join(&vec!["".to_string(), "".to_string()], "-"), "-");
}

#[test]
fn upper_case_of_ascii_text() {
    assert_eq!(to_upper_case("list"), "LIST");
    assert_eq!(to_upper_case("UnBlock"), "UNBLOCK");
    assert_eq!(to_upper_case("check-09:az{`@["), "CHECK-09:AZ{`@[");
    assert_eq!(to_upper_case(""), "");
}

#[test]
fn upper_case_of_ascii_text_is_what_std_gives() {
    for code in 0..128u32 {
        let c = char::from_u32(code).unwrap();
        let text = format!("a{}z", c);
        assert_eq!(to_upper_case(&text), text.to_uppercase(), "U+{:04X}", code);
    }
}

#[test]
fn upper_case_of_other_text_goes_by_unicode() {
    assert_eq!(to_upper_case("straße"), "STRASSE");
    assert_eq!(to_upper_case("li\u{fb06}"), "LIST");
    assert_eq!(to_upper_case("ünblock"), "ÜNBLOCK");
    assert_eq!(to_upper_case("abc\u{80}"), "ABC\u{80}");
}
