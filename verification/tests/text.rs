use rusty_static_server::text::{
    chars_of, parse_number, same_text, split_words, to_decimal, trim, whitespace_char, NumberError,
};

#[test]
fn words_of_a_request_line() {
    assert_eq!(split_words(" GET  /a\tHTTP/1.1\r\n"), vec!["GET", "/a", "HTTP/1.1"]);
    assert_eq!(split_words(" \r\n"), Vec::<String>::new());
    assert_eq!(split_words(""), Vec::<String>::new());
    assert_eq!(split_words("one"), vec!["one"]);
    assert_eq!(split_words("a\u{3000}b\u{a0}ü"), vec!["a", "b", "ü"]);
}

#[test]
fn words_and_trimming_agree_with_std() {
    for line in [
        "", " ", "GET / HTTP/1.1\r\n", "\u{85}x y\u{2028}", "a  b   c", "\t\n\u{b}\u{c}\r", "ä ö\u{1680}ü",
    ] {
        let expected: Vec<String> = line.split_whitespace().map(|w| w.to_string()).collect();
        assert_eq!(split_words(line), expected);
        assert_eq!(trim(line), line.trim());
        // White space at the ends makes no difference to the words.
        assert_eq!(split_words(trim(line)), expected);
    }
}

#[test]
fn white_space_is_that_of_unicode() {
    for n in 0..=0x10ffffu32 {
        if let Some(c) = char::from_u32(n) {
            assert_eq!(whitespace_char(c), c.is_whitespace());
        }
    }
}

#[test]
fn texts_are_compared_by_their_characters() {
    assert!(same_text("HTTP/1.1", "HTTP/1.1"));
    assert!(!same_text("HTTP/1.1", "HTTP/1.0"));
    assert!(!same_text("HTTP/1.1", "http/1.1"));
    assert!(same_text("", ""));
    assert_eq!(chars_of("aü/"), vec!['a', 'ü', '/']);
}

#[test]
fn numbers_are_written_in_decimal() {
    assert_eq!(to_decimal(0), "0");
    assert_eq!(to_decimal(7), "7");
    assert_eq!(to_decimal(10), "10");
    assert_eq!(to_decimal(8080), "8080");
    assert_eq!(to_decimal(u64::MAX), "18446744073709551615");
}

#[test]
fn numbers_are_read_back() {
    for n in [0, 1, 9, 10, 99, 100, 65535, 65536, u64::MAX] {
        assert_eq!(parse_number(&to_decimal(n), u64::MAX), Ok(n));
    }
    assert_eq!(parse_number("+80", 65535), Ok(80));
    assert_eq!(parse_number("0080", 65535), Ok(80));
    assert_eq!(parse_number("65535", 65535), Ok(65535));
}

#[test]
fn numbers_that_cannot_be_read() {
    assert_eq!(parse_number("", 65535), Err(NumberError::Empty));
    assert_eq!(parse_number("+", 65535), Err(NumberError::InvalidDigit));
    assert_eq!(parse_number("-1", 65535), Err(NumberError::InvalidDigit));
    assert_eq!(parse_number("8o", 65535), Err(NumberError::InvalidDigit));
    assert_eq!(parse_number(" 80", 65535), Err(NumberError::InvalidDigit));
    assert_eq!(parse_number("65536", 65535), Err(NumberError::TooLarge));
    assert_eq!(parse_number("5", 3), Err(NumberError::TooLarge));
}

#[test]
fn numbers_agree_with_std() {
    for s in [
        "", "+", "-", "++1", "+-1", "0", "00", "+0", "12x", "x12", "65535", "65536", "655350", "99999x",
        "9999x", "65536x", "٣", "1 ", "18446744073709551615", "18446744073709551616",
        "+18446744073709551615", "18446744073709551615x", "184467440737095516150x",
    ] {
        match s.parse::<u16>() {
            Ok(n) => assert_eq!(parse_number(s, u16::MAX as u64), Ok(n as u64)),
            Err(e) => assert_eq!(parse_number(s, u16::MAX as u64).unwrap_err().text(), e.to_string()),
        }
        match s.parse::<u64>() {
            Ok(n) => assert_eq!(parse_number(s, u64::MAX), Ok(n)),
            Err(e) => assert_eq!(parse_number(s, u64::MAX).unwrap_err().text(), e.to_string()),
        }
    }
}

#[test]
fn number_errors_in_words() {
    assert_eq!(NumberError::Empty.text(), "cannot parse integer from empty string");
    assert_eq!(NumberError::InvalidDigit.text(), "invalid digit found in string");
    assert_eq!(NumberError::TooLarge.text(), "number too large to fit in target type");
}
