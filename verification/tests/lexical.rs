use stack_vm::text::{chars_of, is_whitespace, parse_int, render, spells, split_words, trim_bounds};

fn words_of(line: &str) -> Vec<String> {
    let chars = chars_of(line);
    split_words(&chars)
        .into_iter()
        .map(|(from, to)| chars[from..to].iter().collect::<String>())
        .collect()
}

fn number_of(text: &str) -> Option<i32> {
    parse_int(&chars_of(text))
}

fn trim_of(text: &str) -> String {
    let chars = chars_of(text);
    let (from, to) = trim_bounds(&chars);
    chars[from..to].iter().collect()
}

#[test]
fn whitespace_is_the_unicode_property() {
    let mut code: u32 = 0;
    while code <= 0x10FFFF {
        if let Some(c) = char::from_u32(code) {
            assert_eq!(is_whitespace(c), c.is_whitespace(), "U+{:04X}", code);
        }
        code += 1;
    }
}

#[test]
fn chars_of_keeps_every_character() {
    assert_eq!(chars_of(""), Vec::<char>::new());
    assert_eq!(chars_of("PUSH 1"), vec!['P', 'U', 'S', 'H', ' ', '1']);
    assert_eq!(chars_of("é\u{3000}x"), vec!['é', '\u{3000}', 'x']);
}

#[test]
fn spells_compares_characters_with_a_word() {
    let chars = chars_of("PUSH 12");
    assert!(spells(&chars[0..4], "PUSH"));
    assert!(!spells(&chars[0..3], "PUSH"));
    assert!(!spells(&chars[0..4], "PUSh"));
    assert!(!spells(&chars[0..4], "PUSHH"));
    assert!(spells(&chars[5..7], "12"));
    assert!(spells(&chars[2..2], ""));
    assert!(!spells(&chars[2..2], "x"));
    assert!(spells(&chars_of("é\u{3000}"), "é\u{3000}"));
}

#[test]
fn split_words_finds_each_word() {
    let chars = chars_of("  ADD  x\t12 ");
    assert_eq!(split_words(&chars), vec![(2, 5), (7, 8), (9, 11)]);
    assert_eq!(split_words(&chars_of("")), vec![]);
    assert_eq!(split_words(&chars_of(" \t \n")), vec![]);
    assert_eq!(split_words(&chars_of("x")), vec![(0, 1)]);
}

#[test]
fn split_words_agrees_with_split_whitespace() {
    let lines = [
        "",
        " ",
        "PUSH 1",
        "  PUSH   1  ",
        "\tADD\tx\ty\r\n",
        "SET\u{a0}x\u{2003}5",
        "a\u{3000}b\u{85}c\u{1680}d\u{2028}e\u{2029}f\u{202f}g\u{205f}h",
        "IF",
        "no\u{200b}split here",
        "ünï çødé",
    ];
    for line in lines {
        let expected: Vec<String> = line.split_whitespace().map(|w| w.to_string()).collect();
        assert_eq!(words_of(line), expected, "{:?}", line);
    }
}

#[test]
fn parse_int_reads_signed_decimal_numerals() {
    assert_eq!(number_of("0"), Some(0));
    assert_eq!(number_of("42"), Some(42));
    assert_eq!(number_of("-42"), Some(-42));
    assert_eq!(number_of("+42"), Some(42));
    assert_eq!(number_of("-0"), Some(0));
    assert_eq!(number_of("007"), Some(7));
    assert_eq!(number_of("2147483647"), Some(i32::MAX));
    assert_eq!(number_of("-2147483648"), Some(i32::MIN));
    assert_eq!(number_of("00000000000000000000000000012"), Some(12));
}

#[test]
fn parse_int_refuses_what_is_no_numeral_or_does_not_fit() {
    assert_eq!(number_of(""), None);
    assert_eq!(number_of("+"), None);
    assert_eq!(number_of("-"), None);
    assert_eq!(number_of("+-1"), None);
    assert_eq!(number_of("--1"), None);
    assert_eq!(number_of("1-"), None);
    assert_eq!(number_of("12a"), None);
    assert_eq!(number_of("a12"), None);
    assert_eq!(number_of(" 1"), None);
    assert_eq!(number_of("1 "), None);
    assert_eq!(number_of("1.5"), None);
    assert_eq!(number_of("0x10"), None);
    assert_eq!(number_of("١٢"), None);
    assert_eq!(number_of("2147483648"), None);
    assert_eq!(number_of("-2147483649"), None);
    assert_eq!(number_of("99999999999999999999999999"), None);
    assert_eq!(number_of("-99999999999999999999999999"), None);
}

#[test]
fn parse_int_agrees_with_the_standard_parser() {
    let texts = [
        "", "0", "-0", "+0", "1", "-1", "+1", "10", "2147483647", "2147483648", "-2147483648",
        "-2147483649", "4294967296", "000", "-000123", "+000123", "12_3", "1e3", "٣", "-", "+",
        "++1", "21474836470", "214748364", "-214748364", "x", "1x", "x1",
    ];
    for text in texts {
        assert_eq!(number_of(text), text.parse::<i32>().ok(), "{:?}", text);
    }
}

#[test]
fn parse_int_reads_a_part_of_a_line() {
    let chars = chars_of("PUSH -15 rest");
    assert_eq!(parse_int(&chars[5..8]), Some(-15));
    assert_eq!(parse_int(&chars[6..8]), Some(15));
    assert_eq!(parse_int(&chars[5..6]), None);
    assert_eq!(parse_int(&chars[5..5]), None);
    assert_eq!(parse_int(&chars[0..4]), None);
}

#[test]
fn trim_bounds_agrees_with_trim() {
    let texts = [
        "", " ", "   ", "x", " x", "x ", "  x y  ", "42\n", "42\r\n", "\t-7 \u{3000}",
        "\u{a0}a\u{a0}", "a  b", "\n\n",
    ];
    for text in texts {
        assert_eq!(trim_of(text), text.trim(), "{:?}", text);
    }
}

#[test]
fn trim_bounds_of_blank_text_is_empty() {
    let chars = chars_of("   ");
    let (from, to) = trim_bounds(&chars);
    assert_eq!(from, to);
}

#[test]
fn render_writes_decimal() {
    assert_eq!(render(0), "0");
    assert_eq!(render(7), "7");
    assert_eq!(render(10), "10");
    assert_eq!(render(-1), "-1");
    assert_eq!(render(1234567890), "1234567890");
    assert_eq!(render(i32::MAX), "2147483647");
    assert_eq!(render(i32::MIN), "-2147483648");
}

#[test]
fn render_agrees_with_to_string_and_reads_back() {
    let mut v: i64 = i32::MIN as i64;
    while v <= i32::MAX as i64 {
        let n = v as i32;
        let text = render(n);
        assert_eq!(text, n.to_string());
        assert_eq!(number_of(&text), Some(n));
        v += 7_654_321;
    }
}
