use minilang::text::{
    char_is_space, chars_of, line_and_column, parse_int, push_bool, push_int, trim_end,
};

fn numeral(i: i32) -> String {
    let mut out = String::new();
    push_int(i, &mut out);
    out
}

#[test]
fn chars_of_gives_the_characters_in_order() {
    assert_eq!(chars_of(""), Vec::<char>::new());
    assert_eq!(chars_of("a\u{e9}z"), vec!['a', '\u{e9}', 'z']);
}

#[test]
fn numerals_of_integers() {
    assert_eq!(numeral(0), "0");
    assert_eq!(numeral(7), "7");
    assert_eq!(numeral(10), "10");
    assert_eq!(numeral(41), "41");
    assert_eq!(numeral(-1), "-1");
    assert_eq!(numeral(-120), "-120");
    assert_eq!(numeral(i32::MAX), "2147483647");
    assert_eq!(numeral(i32::MIN), "-2147483648");
}

#[test]
fn push_int_appends() {
    let mut out = String::from("x=");
    push_int(12, &mut out);
    push_int(-3, &mut out);
    assert_eq!(out, "x=12-3");
}

#[test]
fn push_bool_writes_lower_case_words() {
    let mut out = String::new();
    push_bool(true, &mut out);
    push_bool(false, &mut out);
    assert_eq!(out, "truefalse");
}

#[test]
fn parse_int_reads_numerals() {
    assert_eq!(parse_int("42"), Some(42));
    assert_eq!(parse_int("-42"), Some(-42));
    assert_eq!(parse_int("+7"), Some(7));
    assert_eq!(parse_int("0"), Some(0));
    assert_eq!(parse_int("-0"), Some(0));
    assert_eq!(parse_int("007"), Some(7));
    assert_eq!(parse_int("2147483647"), Some(i32::MAX));
    assert_eq!(parse_int("-2147483648"), Some(i32::MIN));
}

#[test]
fn parse_int_refuses_what_is_no_numeral() {
    assert_eq!(parse_int(""), None);
    assert_eq!(parse_int("-"), None);
    assert_eq!(parse_int("+"), None);
    assert_eq!(parse_int(" 5"), None);
    assert_eq!(parse_int("5 "), None);
    assert_eq!(parse_int("1_0"), None);
    assert_eq!(parse_int("12a"), None);
    assert_eq!(parse_int("--1"), None);
    assert_eq!(parse_int("1.5"), None);
}

#[test]
fn parse_int_refuses_what_32_bits_cannot_hold() {
    assert_eq!(parse_int("2147483648"), None);
    assert_eq!(parse_int("-2147483649"), None);
    assert_eq!(parse_int("99999999999999999999999999"), None);
    assert_eq!(parse_int("-99999999999999999999999999"), None);
}

#[test]
fn parse_int_agrees_with_the_standard_library() {
    for text in ["42", "-42", "+7", "", "-", "+", "007", "2147483647", "2147483648", "-2147483648", "-2147483649", " 5", "5 ", "1_0", "+-1", "0x10", "\u{663}"] {
        assert_eq!(parse_int(text), text.parse::<i32>().ok(), "on {text:?}");
    }
}

#[test]
fn numeral_of_every_sampled_integer_reads_back() {
    let mut i: i64 = i32::MIN as i64;
    while i <= i32::MAX as i64 {
        let n = i as i32;
        assert_eq!(parse_int(&numeral(n)), Some(n));
        assert_eq!(numeral(n), n.to_string());
        i += 9_999_991;
    }
    assert_eq!(parse_int(&numeral(i32::MAX)), Some(i32::MAX));
}

#[test]
fn trim_end_removes_white_space_at_the_end_only() {
    assert_eq!(trim_end("  Ada \n"), "  Ada");
    assert_eq!(trim_end("  hi  \n"), "  hi");
    assert_eq!(trim_end("Ada"), "Ada");
    assert_eq!(trim_end("\t a b \r\n"), "\t a b");
    assert_eq!(trim_end(""), "");
    assert_eq!(trim_end(" \n\t "), "");
    assert_eq!(trim_end("\u{a0}x\u{3000}"), "\u{a0}x");
    assert_eq!(trim_end("\u{2003}\u{e9}t\u{e9}\u{2028}"), "\u{2003}\u{e9}t\u{e9}");
}

#[test]
fn white_space_is_what_the_standard_library_says() {
    let mut code: u32 = 0;
    while code <= 0x3100 {
        if let Some(c) = char::from_u32(code) {
            assert_eq!(char_is_space(c), c.is_whitespace(), "on U+{code:04X}");
        }
        code += 1;
    }
    assert!(!char_is_space('\u{feff}'));
    assert!(!char_is_space('\u{200b}'));
}

#[test]
fn trim_end_agrees_with_the_standard_library() {
    for text in ["", " ", "a", " a", "a ", "\n\na b\t\t", "\u{85}x\u{1680}", "no space"] {
        assert_eq!(trim_end(text), text.trim_end(), "on {text:?}");
    }
}

#[test]
fn lines_and_columns_are_counted_from_zero() {
    let text = "ab\ncd\n\nxyz";
    assert_eq!(line_and_column(text, 0), (0, 0));
    assert_eq!(line_and_column(text, 1), (0, 1));
    assert_eq!(line_and_column(text, 2), (0, 2));
    assert_eq!(line_and_column(text, 3), (1, 0));
    assert_eq!(line_and_column(text, 5), (1, 2));
    assert_eq!(line_and_column(text, 6), (2, 0));
    assert_eq!(line_and_column(text, 7), (3, 0));
    assert_eq!(line_and_column(text, 10), (3, 3));
    assert_eq!(line_and_column("", 0), (0, 0));
    assert_eq!(line_and_column("\u{e9}\u{e9}\nz", 3), (1, 0));
}
