use audiobook_chapterizer::text::{is_white_space_char, push_decimal, push_two_digits, trim};

#[test]
fn white_space_is_what_the_standard_library_says() {
    for code in 0..=0x10FFFFu32 {
        if let Some(c) = char::from_u32(code) {
            assert_eq!(is_white_space_char(c), c.is_whitespace(), "U+{:04X}", code);
        }
    }
}

#[test]
fn trimming() {
    assert_eq!(trim(""), "");
    assert_eq!(trim("a"), "a");
    assert_eq!(trim("  a b \n"), "a b");
    assert_eq!(trim(" \t\r\n"), "");
    assert_eq!(trim("\u{2003}é\u{85}\u{3000}"), "é");
    assert_eq!(trim("\u{200B}a\u{200B}"), "\u{200B}a\u{200B}");
    for text in ["  x", "x  ", " \u{a0}x y\u{1680} ", "\u{feff}x", "\n\n", "ab"] {
        assert_eq!(trim(text), text.trim());
    }
}

#[test]
fn decimal_digits() {
    let mut out = String::from("n=");
    push_decimal(&mut out, 0);
    out.push(',');
    push_decimal(&mut out, 7);
    out.push(',');
    push_decimal(&mut out, 1_234_567_890);
    out.push(',');
    push_decimal(&mut out, u64::MAX);
    assert_eq!(out, "n=0,7,1234567890,18446744073709551615");

    let mut out = String::new();
    push_two_digits(&mut out, 0);
    out.push(',');
    push_two_digits(&mut out, 9);
    out.push(',');
    push_two_digits(&mut out, 10);
    out.push(',');
    push_two_digits(&mut out, 123);
    assert_eq!(out, "00,09,10,123");
}
