use rovo_lsp::decimal::{parse_u16, push_numeral};
use rovo_lsp::text::{
    chars_of, contains, is_text, is_whitespace, split_lines, starts_with, string_of,
    strip_leading, trim,
};

fn lines_as_strings(text: &str) -> Vec<String> {
    let chars = chars_of(text);
    split_lines(&chars).into_iter().map(string_of).collect()
}

fn trimmed_string(text: &str) -> String {
    string_of(trim(&chars_of(text)))
}

#[test]
fn whitespace_is_what_std_calls_whitespace() {
    for code in 0..=0x10FFFFu32 {
        if let Some(c) = char::from_u32(code) {
            assert_eq!(is_whitespace(c), c.is_whitespace(), "U+{:04X}", code);
        }
    }
}

#[test]
fn chars_and_strings_round_trip() {
    for text in ["", "a", "/// @tag users", "h\u{e9}llo \u{4e16}\u{754c} \u{1f600}"] {
        let chars = chars_of(text);
        assert_eq!(chars, text.chars().collect::<Vec<char>>());
        assert_eq!(string_of(&chars), text);
    }
}

#[test]
fn trim_removes_whitespace_at_both_ends() {
    assert_eq!(trimmed_string("  /// @tag users \t"), "/// @tag users");
    assert_eq!(trimmed_string("\u{a0}\u{3000}x y\u{2028}\r\n"), "x y");
    assert_eq!(trimmed_string("   "), "");
    assert_eq!(trimmed_string(""), "");
    assert_eq!(trimmed_string("x"), "x");
}

#[test]
fn trim_agrees_with_std() {
    for text in ["", " ", "a", " a", "a ", "\t a b \n", "\u{85}a\u{1680}", "\u{200b}a ", "  \u{feff}"] {
        assert_eq!(trimmed_string(text), text.trim(), "{:?}", text);
    }
}

#[test]
fn starts_with_tests_the_prefix() {
    let line = chars_of("/// @tag users");
    assert!(starts_with(&line, "///"));
    assert!(starts_with(&line, ""));
    assert!(starts_with(&line, "/// @tag users"));
    assert!(!starts_with(&line, "/// @tag users!"));
    assert!(!starts_with(&line, "//!"));
    assert!(!starts_with(&chars_of("//"), "///"));
}

#[test]
fn is_text_tests_for_equality() {
    assert!(is_text(&chars_of("#[rovo]"), "#[rovo]"));
    assert!(!is_text(&chars_of("#[rovo] "), "#[rovo]"));
    assert!(!is_text(&chars_of("#[rovo"), "#[rovo]"));
    assert!(!is_text(&chars_of("#[rova]"), "#[rovo]"));
    assert!(is_text(&chars_of(""), ""));
}

#[test]
fn contains_finds_a_substring_anywhere() {
    let line = chars_of("    #[rovo(tag = \"x\")]");
    assert!(contains(&line, "#["));
    assert!(contains(&line, "rovo"));
    assert!(contains(&line, "]"));
    assert!(contains(&line, ""));
    assert!(!contains(&line, "rovo]"));
    assert!(!contains(&chars_of("ro"), "rovo"));
    assert!(contains(&chars_of("rorovo"), "rovo"));
}

#[test]
fn strip_leading_takes_every_repetition() {
    let strip = |text: &str, pat: &str| string_of(strip_leading(&chars_of(text), pat));
    assert_eq!(strip("/// @tag", "///"), " @tag");
    assert_eq!(strip("////// @tag", "///"), " @tag");
    assert_eq!(strip("//// @tag", "///"), "/ @tag");
    assert_eq!(strip("// @tag", "///"), "// @tag");
    assert_eq!(strip(" /// @tag", "///"), " /// @tag");
    assert_eq!(strip("///", "///"), "");
    assert_eq!(strip("abc", ""), "abc");
    for text in ["/// x", "//////", "/////// y", "", "/"] {
        assert_eq!(strip(text, "///"), text.trim_start_matches("///"));
    }
}

#[test]
fn split_lines_ends_lines_at_line_feeds() {
    assert_eq!(lines_as_strings("a\nb\nc"), vec!["a", "b", "c"]);
    assert_eq!(lines_as_strings("a\nb\n"), vec!["a", "b"]);
    assert_eq!(lines_as_strings("\na\n\nb"), vec!["", "a", "", "b"]);
    assert_eq!(lines_as_strings(""), Vec::<String>::new());
    assert_eq!(lines_as_strings("\n"), vec![""]);
    assert_eq!(lines_as_strings("no newline"), vec!["no newline"]);
}

#[test]
fn split_lines_takes_a_carriage_return_with_its_line_feed() {
    assert_eq!(lines_as_strings("a\r\nb\r\n"), vec!["a", "b"]);
    assert_eq!(lines_as_strings("a\r\r\nb"), vec!["a\r", "b"]);
    assert_eq!(lines_as_strings("a\rb\nc\r"), vec!["a\rb", "c\r"]);
    assert_eq!(lines_as_strings("\r\n"), vec![""]);
}

#[test]
fn split_lines_agrees_with_std() {
    for text in [
        "",
        "\n",
        "\r",
        "\r\n",
        "a",
        "a\n",
        "a\r\n",
        "a\r",
        "a\n\nb",
        "a\r\n\r\nb\r",
        "\n\n\n",
        "/// @tag x\n#[rovo]\nfn f() {}\n",
        "\u{e9}\n\u{1f600}\r\n",
    ] {
        let expected: Vec<String> = text.lines().map(str::to_string).collect();
        assert_eq!(lines_as_strings(text), expected, "{:?}", text);
    }
}

#[test]
fn parse_u16_reads_decimal_numerals() {
    assert_eq!(parse_u16("0"), Some(0));
    assert_eq!(parse_u16("200"), Some(200));
    assert_eq!(parse_u16("00200"), Some(200));
    assert_eq!(parse_u16("+404"), Some(404));
    assert_eq!(parse_u16("65535"), Some(65535));
    assert_eq!(parse_u16("0000000000000000000000065535"), Some(65535));
}

#[test]
fn parse_u16_rejects_everything_else() {
    for text in ["", "+", "-1", "65536", "99999", "4294967296", "12a", "a12", " 12", "12 ", "++1", "1+", "\u{663}"] {
        assert_eq!(parse_u16(text), None, "{:?}", text);
    }
}

#[test]
fn parse_u16_agrees_with_std() {
    for text in ["", "+", "-", "-0", "+0", "0", "1", "65535", "65536", "655350", "007", "+007", "1_000", "0x10", "\u{663}\u{664}", "12\n"] {
        assert_eq!(parse_u16(text), text.parse::<u16>().ok(), "{:?}", text);
    }
    for value in 0..=u16::MAX {
        assert_eq!(parse_u16(&value.to_string()), Some(value));
    }
}

#[test]
fn push_numeral_writes_decimal_numerals() {
    for value in [0u16, 7, 10, 99, 100, 599, 600, 999, 9999, 10000, 65535] {
        let mut out = String::from("n=");
        push_numeral(&mut out, value);
        assert_eq!(out, format!("n={}", value));
    }
}
