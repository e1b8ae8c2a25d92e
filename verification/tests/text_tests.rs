use bver::number::{decimal_digits, parse_number, parse_number_or_zero, push_decimal};
use bver::text::{
    chars_of, count_digits, count_dots, find_in, find_str, has_prefix, head, is_ascii_alnum,
    is_ascii_digit, is_blank, is_text, lower_ascii_char, lowercase, matches_at, push_chars,
    split_at, string_of, tail, tail_after, text2, text3, text_len, trim,
};

fn text(s: &str) -> Vec<char> {
    s.chars().collect()
}

#[test]
fn characters_in_and_out() {
    assert_eq!(chars_of("a.1\u{e9}"), vec!['a', '.', '1', '\u{e9}']);
    assert_eq!(chars_of(""), Vec::<char>::new());
    assert_eq!(string_of(&text("1.2.3")), "1.2.3");
    let mut out = String::from("x");
    push_chars(&mut out, &text("yz"));
    assert_eq!(out, "xyz");
    assert_eq!(text2("ab", &text("cd")), "abcd");
    assert_eq!(text3("ab", &text("cd"), "ef"), "abcdef");
    assert_eq!(text_len("h\u{e9}llo"), 5);
}

#[test]
fn character_classes() {
    assert!(is_ascii_digit('0') && is_ascii_digit('9'));
    assert!(!is_ascii_digit('/') && !is_ascii_digit(':') && !is_ascii_digit('\u{663}'));
    assert!(is_ascii_alnum('a') && is_ascii_alnum('Z') && is_ascii_alnum('5'));
    assert!(!is_ascii_alnum('-') && !is_ascii_alnum('\u{e9}'));
    assert_eq!(lower_ascii_char('A'), 'a');
    assert_eq!(lower_ascii_char('Z'), 'z');
    assert_eq!(lower_ascii_char('m'), 'm');
    assert_eq!(lower_ascii_char('@'), '@');
    assert_eq!(lower_ascii_char('['), '[');
}

#[test]
fn lowering() {
    assert_eq!(lowercase("1.0RC1+Local"), text("1.0rc1+local"));
    assert_eq!(lowercase(""), text(""));
    // text that is not ASCII is lowered as Unicode defines it
    assert_eq!(lowercase("\u{c9}T\u{c9}"), text("\u{e9}t\u{e9}"));
    assert_eq!(lowercase("\u{130}"), text("i\u{307}"));
}

#[test]
fn searching() {
    let s = text("1.2.3.post1.post2");
    assert_eq!(find_str(&s, ".post"), Some(5));
    assert_eq!(find_str(&s, "post"), Some(6));
    assert_eq!(find_str(&s, "dev"), None);
    assert_eq!(find_str(&s, "1"), Some(0));
    assert_eq!(find_str(&s, "post2"), Some(12));
    assert_eq!(find_str(&s, "post22"), None);
    assert_eq!(find_in(&s, &text("")), Some(0));
    assert_eq!(find_in(&text(""), &text("a")), None);
    assert!(matches_at(&s, &text(".2"), 1));
    assert!(!matches_at(&s, &text(".2"), 2));
    assert!(!matches_at(&s, &text("post2x"), 12));
    assert!(matches_at(&s, &text(""), 17));
    assert!(!matches_at(&s, &text(""), 18));
    assert!(has_prefix(&s, "1.2"));
    assert!(!has_prefix(&s, "2"));
    assert!(is_text(&text("major"), "major"));
    assert!(!is_text(&text("majo"), "major"));
    assert!(!is_text(&text("majors"), "major"));
}

#[test]
fn slicing() {
    let s = text("1.2.3rc4");
    assert_eq!(head(&s, 5), &text("1.2.3")[..]);
    assert_eq!(tail(&s, 5), &text("rc4")[..]);
    assert_eq!(tail_after(&s, 5, "rc"), &text("4")[..]);
    assert_eq!(head(&s, 0), &text("")[..]);
    assert_eq!(tail(&s, 8), &text("")[..]);
}

#[test]
fn splitting() {
    let pieces = |s: &str| -> Vec<String> {
        split_at(&text(s), '.').iter().map(|p| p.iter().collect()).collect()
    };
    assert_eq!(pieces("1.2.3"), vec!["1", "2", "3"]);
    assert_eq!(pieces(""), vec![""]);
    assert_eq!(pieces("abc"), vec!["abc"]);
    assert_eq!(pieces("."), vec!["", ""]);
    assert_eq!(pieces("1..2."), vec!["1", "", "2", ""]);
    assert_eq!(pieces(".1"), vec!["", "1"]);
}

#[test]
fn runs() {
    assert_eq!(count_digits(&text("123abc4")), 3);
    assert_eq!(count_digits(&text("abc")), 0);
    assert_eq!(count_digits(&text("")), 0);
    assert_eq!(count_digits(&text("42")), 2);
    assert_eq!(count_dots(&text("..1.")), 2);
    assert_eq!(count_dots(&text("1.")), 0);
    assert_eq!(count_dots(&text("...")), 3);
}

#[test]
fn reading_numbers() {
    assert_eq!(parse_number(&text("0")), Some(0));
    assert_eq!(parse_number(&text("42")), Some(42));
    assert_eq!(parse_number(&text("0042")), Some(42));
    assert_eq!(parse_number(&text("4294967295")), Some(4294967295));
    assert_eq!(parse_number(&text("4294967296")), None);
    assert_eq!(parse_number(&text("99999999999999999999999999")), None);
    assert_eq!(parse_number(&text("")), None);
    assert_eq!(parse_number(&text("+1")), None);
    assert_eq!(parse_number(&text("-1")), None);
    assert_eq!(parse_number(&text("1a")), None);
    assert_eq!(parse_number(&text("99999999999a")), None);
    assert_eq!(parse_number(&text("\u{661}")), None);
    assert_eq!(parse_number_or_zero(&text("17")), 17);
    assert_eq!(parse_number_or_zero(&text("x")), 0);
    assert_eq!(parse_number_or_zero(&text("")), 0);
}

#[test]
fn writing_numbers() {
    assert_eq!(decimal_digits(0), text("0"));
    assert_eq!(decimal_digits(9), text("9"));
    assert_eq!(decimal_digits(10), text("10"));
    assert_eq!(decimal_digits(1203), text("1203"));
    assert_eq!(decimal_digits(4294967295), text("4294967295"));
    let mut out = String::from("v");
    push_decimal(&mut out, 305);
    assert_eq!(out, "v305");
}

#[test]
fn numbers_read_back() {
    for n in [0u32, 1, 9, 10, 99, 100, 65535, 1000000, 4294967295] {
        assert_eq!(parse_number(&decimal_digits(n)), Some(n));
    }
}

#[test]
fn white_space_is_what_the_standard_library_takes_for_it() {
    for code in 0..=0x10ffffu32 {
        if let Some(c) = char::from_u32(code) {
            assert_eq!(is_blank(c), c.is_whitespace(), "U+{:04X}", code);
        }
    }
}

#[test]
fn trimming() {
    assert_eq!(trim(&text("  yes \r\n")), &text("yes")[..]);
    assert_eq!(trim(&text("y")), &text("y")[..]);
    assert_eq!(trim(&text("")), &text("")[..]);
    assert_eq!(trim(&text(" \t\n")), &text("")[..]);
    assert_eq!(trim(&text("a b")), &text("a b")[..]);
    assert_eq!(trim(&text("\u{3000}a b\u{a0}\u{2028}")), &text("a b")[..]);
    assert_eq!(trim(&text("\u{200b}a")), &text("\u{200b}a")[..]);
    for s in ["", " ", "x", " x", "x ", "\n x y \t", "\u{85}z\u{1680}", "  \u{205f}"] {
        assert_eq!(trim(&text(s)), &text(s.trim())[..]);
    }
}
