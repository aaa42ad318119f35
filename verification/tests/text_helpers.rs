use thermal_watchdog::text::{
    find_char, is_whitespace, parse_i32, parse_u32, parse_usize, push_decimal,
    push_signed_decimal, push_text, same_text, split_words, to_chars, to_text, trim,
};

fn chars(s: &str) -> Vec<char> {
    s.chars().collect()
}

fn text(s: &[char]) -> String {
    s.iter().collect()
}

#[test]
fn white_space_is_what_the_standard_library_calls_so() {
    let mut code: u32 = 0;
    while code <= 0x10ffff {
        if let Some(c) = char::from_u32(code) {
            assert_eq!(is_whitespace(c), c.is_whitespace(), "U+{:04X}", code);
        }
        code += 1;
    }
}

#[test]
fn trim_takes_off_white_space_at_both_ends() {
    let samples = [
        "", " ", "   ", "a", " a", "a ", "  a b  ", "\t\r\n a \u{a0}\u{3000}", "\u{2003}x\u{85}",
        "a\u{200b}", "\u{feff}a", " é ", "a  b", "\n", "x\r",
    ];
    for sample in samples {
        let input = chars(sample);
        assert_eq!(text(trim(&input)), sample.trim(), "{:?}", sample);
    }
}

#[test]
fn find_char_gives_the_first_position_or_the_length() {
    assert_eq!(find_char(&chars("a|b|c"), '|'), 1);
    assert_eq!(find_char(&chars("|"), '|'), 0);
    assert_eq!(find_char(&chars("abc"), '|'), 3);
    assert_eq!(find_char(&chars(""), '|'), 0);
    assert_eq!(find_char(&chars("é|"), '|'), 1);
}

#[test]
fn same_text_compares_every_character() {
    assert!(same_text(&chars(""), &chars("")));
    assert!(same_text(&chars("Temp"), &chars("Temp")));
    assert!(!same_text(&chars("Temp"), &chars("Temq")));
    assert!(!same_text(&chars("Temp"), &chars("Tem")));
    assert!(!same_text(&chars("Temp"), &chars("temp")));
}

#[test]
fn unsigned_numbers_are_read() {
    assert_eq!(parse_u32(&chars("0")), Some(0));
    assert_eq!(parse_u32(&chars("+17")), Some(17));
    assert_eq!(parse_u32(&chars("4294967295")), Some(u32::MAX));
    assert_eq!(parse_u32(&chars("4294967296")), None);
    assert_eq!(parse_u32(&chars("")), None);
    assert_eq!(parse_u32(&chars("+")), None);
    assert_eq!(parse_u32(&chars("-1")), None);
    assert_eq!(parse_u32(&chars("12a")), None);
}

#[test]
fn signed_numbers_are_read() {
    assert_eq!(parse_i32(&chars("0")), Some(0));
    assert_eq!(parse_i32(&chars("-17")), Some(-17));
    assert_eq!(parse_i32(&chars("+17")), Some(17));
    assert_eq!(parse_i32(&chars("2147483647")), Some(i32::MAX));
    assert_eq!(parse_i32(&chars("2147483648")), None);
    assert_eq!(parse_i32(&chars("-2147483648")), Some(i32::MIN));
    assert_eq!(parse_i32(&chars("-2147483649")), None);
    assert_eq!(parse_i32(&chars("-")), None);
    assert_eq!(parse_i32(&chars("")), None);
}

#[test]
fn word_sized_numbers_are_read() {
    assert_eq!(parse_usize(&chars("0")), Some(0));
    assert_eq!(parse_usize(&chars("+9")), Some(9));
    assert_eq!(parse_usize(&chars(&usize::MAX.to_string())), Some(usize::MAX));
    assert_eq!(parse_usize(&chars("340282366920938463463374607431768211455")), None);
    assert_eq!(parse_usize(&chars("-1")), None);
    assert_eq!(parse_usize(&chars("")), None);
}

#[test]
fn decimal_writing_matches_the_standard_formatting() {
    for n in [0u64, 1, 9, 10, 11, 99, 100, 101, 4500, 65535, 4294967295, u64::MAX] {
        let mut out = String::from("n=");
        push_decimal(&mut out, n);
        assert_eq!(out, format!("n={}", n));
    }
    for v in [0i64, 1, -1, 42, -42, 2147483647, -2147483648, i64::MAX, i64::MIN] {
        let mut out = String::new();
        push_signed_decimal(&mut out, v);
        assert_eq!(out, format!("{}", v));
    }
}

#[test]
fn what_is_written_is_read_back() {
    for v in [0i32, 7, -7, 45, 100, -273, i32::MAX, i32::MIN] {
        let mut out = String::new();
        push_signed_decimal(&mut out, v as i64);
        assert_eq!(parse_i32(&chars(&out)), Some(v));
    }
    for n in [0u32, 5, 4500, u32::MAX] {
        let mut out = String::new();
        push_decimal(&mut out, n as u64);
        assert_eq!(parse_u32(&chars(&out)), Some(n));
    }
}

#[test]
fn text_and_characters_convert_both_ways() {
    for sample in ["", "a", "Exhaust Temp", "Tëmp °C", "日本語"] {
        assert_eq!(to_chars(sample), chars(sample));
        assert_eq!(to_text(&chars(sample)), sample);
    }
}

#[test]
fn push_text_appends() {
    let mut out = String::from("ab");
    push_text(&mut out, "");
    assert_eq!(out, "ab");
    push_text(&mut out, "cd é");
    assert_eq!(out, "abcd é");
}

#[test]
fn words_are_the_stretches_between_white_space() {
    let samples = [
        "", " ", "a", " a ", "cpu  1 2 3 4", "a\tb\u{a0}c", "  leading", "trailing  ",
        "one\r\ntwo", "x\u{3000}y",
    ];
    for sample in samples {
        let input = chars(sample);
        let found: Vec<String> = split_words(&input).into_iter().map(text).collect();
        let expected: Vec<String> = sample.split_whitespace().map(String::from).collect();
        assert_eq!(found, expected, "{:?}", sample);
    }
}
