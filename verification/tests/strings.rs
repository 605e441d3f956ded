use kernal_api::numbers::{read_i64, read_u16, read_u32, read_u64};
use kernal_api::strings::{
    chars_of, decimal_text, has_char, has_text, hex, hex_number_text, join2, join3, list_has,
    lower_text, optional_code_text, same_ignoring_case, same_text, signed_decimal_text,
    split_text, strip_front, text_between, trim_text, truncate_text,
};

const TEXTS: [&str; 10] = [
    "",
    " ",
    "a",
    " a b\t\n",
    "\u{2003}x\u{a0}",
    "Stra\u{df}e",
    "A;b;;C",
    "\u{1f600}\u{1f600}",
    "a\u{300}",
    "\0",
];

#[test]
fn texts_are_handled_as_the_standard_library_does() {
    for text in TEXTS {
        assert_eq!(trim_text(text), text.trim());
        assert_eq!(lower_text(text), text.to_ascii_lowercase());
        assert_eq!(chars_of(text), text.chars().collect::<Vec<_>>());
        assert_eq!(
            split_text(text, ';'),
            text.split(';').map(str::to_string).collect::<Vec<_>>()
        );
        for limit in 0..=text.len() + 1 {
            let cut = (0..=limit.min(text.len()))
                .rev()
                .find(|index| text.is_char_boundary(*index))
                .unwrap_or(0);
            assert_eq!(truncate_text(text, limit), text[..cut]);
        }
        for other in TEXTS {
            assert_eq!(same_text(text, other), text == other);
            assert_eq!(
                same_ignoring_case(text, other),
                text.eq_ignore_ascii_case(other)
            );
            assert_eq!(has_text(text, other), text.contains(other));
            assert_eq!(
                strip_front(text, other),
                text.strip_prefix(other).map(str::to_string)
            );
            assert_eq!(join2(text, other), format!("{text}{other}"));
            assert_eq!(join3(text, other, text), format!("{text}{other}{text}"));
        }
        assert_eq!(has_char(text, 'a'), text.contains('a'));
    }
    assert!(same_ignoring_case("ABC", "abc"));
    assert!(list_has(&vec!["x".to_string()], "x"));
    assert!(!list_has(&Vec::new(), "x"));
    assert_eq!(text_between(&chars_of("abcd"), 1, 3), "bc");
}

#[test]
fn numbers_are_written_as_the_standard_library_does() {
    for value in [0, 7, 10, 99, 100, u64::from(u32::MAX), u64::MAX] {
        assert_eq!(decimal_text(value), value.to_string());
        assert_eq!(hex_number_text(value), format!("{value:x}"));
    }
    for value in [0, -1, 42, i64::MIN, i64::MAX] {
        assert_eq!(signed_decimal_text(value), value.to_string());
    }
    for code in [None, Some(0), Some(-7), Some(i32::MIN)] {
        assert_eq!(optional_code_text(code), format!("{code:?}"));
    }
    assert_eq!(hex(&[0x00, 0x9f, 0xff]), "009fff");
    assert_eq!(hex(&[]), "");
}

#[test]
fn numbers_are_read_low_byte_first() {
    let bytes = [0xff, 0x01, 0x02, 0x03, 0x04, 0x05, 0x06, 0x07, 0x88];
    assert_eq!(read_u16(&bytes, 0), 0x01ff);
    assert_eq!(read_u32(&bytes, 1), 0x0403_0201);
    assert_eq!(read_u64(&bytes, 1), 0x8807_0605_0403_0201);
    assert_eq!(read_i64(&bytes, 1), 0x8807_0605_0403_0201_u64 as i64);
}
